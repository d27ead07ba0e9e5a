//! The pieces of query text that the generator emits, and how they are built.
use vstd::prelude::*;
use vstd::string::*;
use crate::text::{chars_of, string_from_chars};
use crate::token::AttributeOperator;

verus! {

/// `s` with each single quote doubled, ready to stand inside a quoted literal.
pub open spec fn escape(s: Seq<char>) -> Seq<char>
    decreases s.len(),
{
    if s.len() == 0 {
        Seq::empty()
    } else if s.last() == '\'' {
        escape(s.drop_last()) + seq!['\'', '\'']
    } else {
        escape(s.drop_last()).push(s.last())
    }
}

pub open spec fn digit(d: int) -> char {
    if d == 0 {
        '0'
    } else if d == 1 {
        '1'
    } else if d == 2 {
        '2'
    } else if d == 3 {
        '3'
    } else if d == 4 {
        '4'
    } else if d == 5 {
        '5'
    } else if d == 6 {
        '6'
    } else if d == 7 {
        '7'
    } else if d == 8 {
        '8'
    } else {
        '9'
    }
}

/// The decimal digits of `n`, most significant first.
pub open spec fn decimal(n: nat) -> Seq<char>
    decreases n,
{
    if n < 10 {
        seq![digit(n as int)]
    } else {
        decimal(n / 10).push(digit((n % 10) as int))
    }
}

/// The alias of the `n`th joined table, `a3` or `n3`.
pub open spec fn alias(prefix: char, n: nat) -> Seq<char> {
    seq![prefix] + decimal(n)
}

pub open spec fn attribute_join(a: Seq<char>, cur: Seq<char>) -> Seq<char> {
    "\nJOIN attributes "@ + a + " ON "@ + a + ".node_id = "@ + cur + ".id"@
}

pub open spec fn child_join(n: Seq<char>, cur: Seq<char>) -> Seq<char> {
    "\nJOIN nodes "@ + n + " ON "@ + n + ".parent_id = "@ + cur + ".id"@
}

/// The recursive query that collects every descendant of `cur`.
pub open spec fn closure_head() -> Seq<char> {
    " IN (\n    WITH RECURSIVE descendants AS (\n        SELECT id FROM nodes WHERE parent_id = "@
}

pub open spec fn closure_tail() -> Seq<char> {
    ".id\n        UNION ALL\n        SELECT n.id FROM nodes n\n        JOIN descendants d ON n.parent_id = d.id\n    )\n    SELECT id FROM descendants\n)"@
}

pub open spec fn descendant_join(n: Seq<char>, cur: Seq<char>) -> Seq<char> {
    "\nJOIN nodes "@ + n + " ON "@ + n + ".id"@ + closure_head() + cur + closure_tail()
}

pub open spec fn tag_condition(cur: Seq<char>, tag: Seq<char>) -> Seq<char> {
    cur + ".tag_name = '"@ + escape(tag) + "'"@
}

pub open spec fn name_condition(a: Seq<char>, name: Seq<char>) -> Seq<char> {
    a + ".name = '"@ + escape(name) + "'"@
}

/// `v` is the whole value, or one of its space-separated words.
pub open spec fn word_condition(a: Seq<char>, v: Seq<char>) -> Seq<char> {
    let e = escape(v);
    "("@ + a + ".value = '"@ + e + "' OR "@ + a + ".value LIKE '% "@ + e + "' OR "@ + a
        + ".value LIKE '"@ + e + " %' OR "@ + a + ".value LIKE '% "@ + e + " %')"@
}

pub open spec fn value_condition(a: Seq<char>, v: Seq<char>, op: AttributeOperator) -> Seq<char> {
    let e = escape(v);
    match op {
        AttributeOperator::Contains => a + ".value LIKE '%"@ + e + "%'"@,
        AttributeOperator::StartsWith => a + ".value LIKE '"@ + e + "%'"@,
        AttributeOperator::EndsWith => a + ".value LIKE '%"@ + e + "'"@,
        AttributeOperator::WordMatch => word_condition(a, v),
        _ => a + ".value = '"@ + e + "'"@,
    }
}

/// The conditions joined by `AND`, in order.
pub open spec fn join_and(w: Seq<Seq<char>>) -> Seq<char>
    decreases w.len(),
{
    if w.len() == 0 {
        Seq::empty()
    } else if w.len() == 1 {
        w[0]
    } else {
        join_and(w.drop_last()) + " AND "@ + w.last()
    }
}

/// Doubles every single quote in `s`.
pub fn escape_sql(s: &str) -> (r: String)
    ensures
        r@ == escape(s@),
{
    let cs = chars_of(s);
    let mut out: Vec<char> = Vec::new();
    let mut k: usize = 0;
    while k < cs.len()
        invariant
            k <= cs.len(),
            cs@ == s@,
            out@ == escape(cs@.take(k as int)),
        decreases cs.len() - k,
    {
        let c = cs[k];
        proof {
            assert(cs@.take(k + 1).drop_last() =~= cs@.take(k as int));
        }
        out.push(c);
        if c == '\'' {
            out.push('\'');
            proof {
                assert(out@ =~= escape(cs@.take(k as int)) + seq!['\'', '\'']);
            }
        }
        k = k + 1;
    }
    proof {
        assert(cs@.take(cs.len() as int) =~= cs@);
    }
    string_from_chars(out.as_slice())
}

fn digit_char(d: u128) -> (r: char)
    requires
        d < 10,
    ensures
        r == digit(d as int),
{
    if d == 0 {
        '0'
    } else if d == 1 {
        '1'
    } else if d == 2 {
        '2'
    } else if d == 3 {
        '3'
    } else if d == 4 {
        '4'
    } else if d == 5 {
        '5'
    } else if d == 6 {
        '6'
    } else if d == 7 {
        '7'
    } else if d == 8 {
        '8'
    } else {
        '9'
    }
}

/// `prefix` followed by the decimal digits of `n`.
pub fn alias_text(prefix: char, n: u128) -> (r: String)
    ensures
        r@ == alias(prefix, n as nat),
{
    let mut digits: Vec<char> = Vec::new();
    let mut m: u128 = n;
    while m >= 10
        invariant
            decimal(n as nat) == decimal(m as nat) + digits@,
        decreases m,
    {
        let d = digit_char(m % 10);
        digits.insert(0, d);
        proof {
            assert(decimal(m as nat) == decimal((m / 10) as nat).push(d));
            assert(decimal(n as nat) =~= decimal((m / 10) as nat) + digits@);
        }
        m = m / 10;
    }
    let d = digit_char(m);
    digits.insert(0, d);
    digits.insert(0, prefix);
    proof {
        assert(digits@ =~= alias(prefix, n as nat));
    }
    string_from_chars(digits.as_slice())
}

pub fn tag_clause(cur: &String, tag: &String) -> (r: String)
    ensures
        r@ == tag_condition(cur@, tag@),
{
    let e = escape_sql(tag.as_str());
    let mut r = cur.clone();
    r.append(".tag_name = '");
    r.append(e.as_str());
    r.append("'");
    proof {
        assert(r@ =~= tag_condition(cur@, tag@));
    }
    r
}

pub fn name_clause(a: &String, name: &String) -> (r: String)
    ensures
        r@ == name_condition(a@, name@),
{
    let e = escape_sql(name.as_str());
    let mut r = a.clone();
    r.append(".name = '");
    r.append(e.as_str());
    r.append("'");
    proof {
        assert(r@ =~= name_condition(a@, name@));
    }
    r
}

pub fn word_clause(a: &String, v: &String) -> (r: String)
    ensures
        r@ == word_condition(a@, v@),
{
    let e = escape_sql(v.as_str());
    let mut r = String::from_str("(");
    r.append(a.as_str());
    r.append(".value = '");
    r.append(e.as_str());
    r.append("' OR ");
    r.append(a.as_str());
    r.append(".value LIKE '% ");
    r.append(e.as_str());
    r.append("' OR ");
    r.append(a.as_str());
    r.append(".value LIKE '");
    r.append(e.as_str());
    r.append(" %' OR ");
    r.append(a.as_str());
    r.append(".value LIKE '% ");
    r.append(e.as_str());
    r.append(" %')");
    r
}

pub fn value_clause(a: &String, v: &String, op: AttributeOperator) -> (r: String)
    ensures
        r@ == value_condition(a@, v@, op),
{
    if op == AttributeOperator::WordMatch {
        return word_clause(a, v);
    }
    let e = escape_sql(v.as_str());
    let mut r = a.clone();
    match op {
        AttributeOperator::Contains => {
            r.append(".value LIKE '%");
            r.append(e.as_str());
            r.append("%'");
        },
        AttributeOperator::StartsWith => {
            r.append(".value LIKE '");
            r.append(e.as_str());
            r.append("%'");
        },
        AttributeOperator::EndsWith => {
            r.append(".value LIKE '%");
            r.append(e.as_str());
            r.append("'");
        },
        _ => {
            r.append(".value = '");
            r.append(e.as_str());
            r.append("'");
        },
    }
    proof {
        assert(r@ =~= value_condition(a@, v@, op));
    }
    r
}

pub fn attribute_join_text(a: &String, cur: &String) -> (r: String)
    ensures
        r@ == attribute_join(a@, cur@),
{
    let mut r = String::from_str("\nJOIN attributes ");
    r.append(a.as_str());
    r.append(" ON ");
    r.append(a.as_str());
    r.append(".node_id = ");
    r.append(cur.as_str());
    r.append(".id");
    r
}

pub fn child_join_text(n: &String, cur: &String) -> (r: String)
    ensures
        r@ == child_join(n@, cur@),
{
    let mut r = String::from_str("\nJOIN nodes ");
    r.append(n.as_str());
    r.append(" ON ");
    r.append(n.as_str());
    r.append(".parent_id = ");
    r.append(cur.as_str());
    r.append(".id");
    r
}

pub fn descendant_join_text(n: &String, cur: &String) -> (r: String)
    ensures
        r@ == descendant_join(n@, cur@),
{
    let mut r = String::from_str("\nJOIN nodes ");
    r.append(n.as_str());
    r.append(" ON ");
    r.append(n.as_str());
    r.append(".id");
    r.append(" IN (\n    WITH RECURSIVE descendants AS (\n        SELECT id FROM nodes WHERE parent_id = ");
    r.append(cur.as_str());
    r.append(".id\n        UNION ALL\n        SELECT n.id FROM nodes n\n        JOIN descendants d ON n.parent_id = d.id\n    )\n    SELECT id FROM descendants\n)");
    r
}

} // verus!
