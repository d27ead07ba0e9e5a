//! Properties of the compiler, stated over its spec functions and proved.
use vstd::prelude::*;
use crate::generator::{
    all_nodes_query, gen_from, initial_state, general_sibling_message, generate, next_sibling_message, step,
    text_result, GenState,
};
use crate::lexer::{ident_end, lex, lex_from, space_end, space_start, trimmed};
use crate::selector::compile;
use crate::sql::{alias, child_join, descendant_join, escape, tag_condition};
use crate::text::{ident_char, letter, space};
use crate::token::{Combinator, ErrorV, SelectorError, TokenV};

verus! {

/// `p` occurs in `q` as a contiguous piece.
pub open spec fn contains(q: Seq<char>, p: Seq<char>) -> bool {
    exists|j: int| 0 <= j && j + p.len() <= q.len() && #[trigger] q.subrange(j, j + p.len()) == p
}

/// The content of a quoted literal whose text follows its opening quote:
/// two quotes stand for one, a lone quote closes it. Also gives the number
/// of characters read, the closing quote included.
pub open spec fn literal_body(q: Seq<char>) -> Option<(Seq<char>, int)>
    decreases q.len(),
{
    if q.len() == 0 {
        None
    } else if q[0] == '\'' {
        if q.len() > 1 && q[1] == '\'' {
            match literal_body(q.subrange(2, q.len() as int)) {
                Some((v, n)) => Some((seq!['\''] + v, n + 2)),
                None => None,
            }
        } else {
            Some((Seq::empty(), 1))
        }
    } else {
        match literal_body(q.drop_first()) {
            Some((v, n)) => Some((seq![q[0]] + v, n + 1)),
            None => None,
        }
    }
}

proof fn lemma_escape_concat(a: Seq<char>, b: Seq<char>)
    ensures
        escape(a + b) == escape(a) + escape(b),
    decreases b.len(),
{
    if b.len() == 0 {
        assert(a + b =~= a);
        assert(escape(b) =~= Seq::<char>::empty());
        assert(escape(a) + escape(b) =~= escape(a));
    } else {
        assert((a + b).drop_last() =~= a + b.drop_last());
        lemma_escape_concat(a, b.drop_last());
        if b.last() == '\'' {
            assert(escape(a + b) =~= escape(a) + escape(b));
        } else {
            assert(escape(a + b) =~= escape(a) + escape(b));
        }
    }
}

/// The number of single quotes in `s`.
pub open spec fn quote_count(s: Seq<char>) -> nat
    decreases s.len(),
{
    if s.len() == 0 {
        0
    } else {
        quote_count(s.drop_last()) + if s.last() == '\'' {
            1nat
        } else {
            0nat
        }
    }
}

/// Escaping adds one character per single quote and changes nothing else:
/// its result is `s` with each quote doubled.
pub proof fn escape_doubles_quotes(s: Seq<char>)
    ensures
        escape(s).len() == s.len() + quote_count(s),
        forall|k: int| 0 <= k < s.len() && s[k] != '\'' ==> escape(#[trigger] s.take(k + 1)) == escape(s.take(k)).push(s[k]),
        forall|k: int| 0 <= k < s.len() && s[k] == '\'' ==> escape(#[trigger] s.take(k + 1)) == escape(s.take(k)) + seq!['\'', '\''],
    decreases s.len(),
{
    if s.len() > 0 {
        escape_doubles_quotes(s.drop_last());
    }
    assert forall|k: int| 0 <= k < s.len() implies #[trigger] s.take(k + 1).drop_last() == s.take(k) by {
        assert(s.take(k + 1).drop_last() =~= s.take(k));
    }
}

/// A quoted value, escaped, reads back as itself, and its literal closes
/// exactly at the quote placed after it: a quote inside the value never ends
/// the literal early.
pub proof fn escaped_literal_reads_back(v: Seq<char>, rest: Seq<char>)
    requires
        rest.len() == 0 || rest[0] != '\'',
    ensures
        literal_body(escape(v) + seq!['\''] + rest) == Some((v, escape(v).len() + 1int)),
    decreases v.len(),
{
    let q = escape(v) + seq!['\''] + rest;
    if v.len() == 0 {
        assert(escape(v) =~= Seq::<char>::empty());
        assert(q[0] == '\'');
        assert(v =~= Seq::<char>::empty());
    } else {
        let tail = v.drop_first();
        assert(v =~= seq![v[0]] + tail);
        lemma_escape_concat(seq![v[0]], tail);
        let first = seq![v[0]];
        assert(first.drop_last() =~= Seq::<char>::empty());
        assert(escape(first.drop_last()) =~= Seq::<char>::empty());
        assert(first.last() == v[0]);
        escaped_literal_reads_back(tail, rest);
        let inner = escape(tail) + seq!['\''] + rest;
        if v[0] == '\'' {
            assert(escape(seq![v[0]]) =~= seq!['\'', '\'']);
            assert(q.subrange(2, q.len() as int) =~= inner);
        } else {
            assert(escape(seq![v[0]]) =~= seq![v[0]]);
            assert(q.drop_first() =~= inner);
        }
    }
}

/// Compiling the empty selector gives the query over all nodes, with no
/// condition.
pub proof fn empty_selector_selects_all_nodes()
    ensures
        compile(Seq::empty()) == Ok::<Seq<char>, ErrorV>(all_nodes_query()),
{
    let s = Seq::<char>::empty();
    assert(trimmed(s) =~= Seq::<char>::empty());
}

/// Two compilations of one selector give the same query text, or the same
/// error.
pub proof fn compiling_twice_agrees(
    s: Seq<char>,
    r1: Result<String, SelectorError>,
    r2: Result<String, SelectorError>,
)
    requires
        text_result(r1) == compile(s),
        text_result(r2) == compile(s),
    ensures
        text_result(r1) == text_result(r2),
{
}

proof fn lemma_ident_end_all(t: Seq<char>, i: int)
    requires
        0 <= i <= t.len(),
        forall|k: int| i <= k < t.len() ==> ident_char(#[trigger] t[k]),
    ensures
        ident_end(t, i) == t.len(),
    decreases t.len() - i,
{
    if i < t.len() {
        lemma_ident_end_all(t, i + 1);
    }
}

proof fn lemma_escape_no_quote(s: Seq<char>)
    requires
        forall|k: int| 0 <= k < s.len() ==> #[trigger] s[k] != '\'',
    ensures
        escape(s) == s,
    decreases s.len(),
{
    if s.len() > 0 {
        lemma_escape_no_quote(s.drop_last());
        assert(s.drop_last().push(s.last()) =~= s);
    }
}

/// A selector made of letters alone (characters with the Alphabetic
/// property) compiles to the query that keeps the nodes whose tag is exactly
/// that word.
pub proof fn letters_select_by_tag(s: Seq<char>)
    requires
        s.len() > 0,
        forall|k: int| 0 <= k < s.len() ==> letter(#[trigger] s[k]),
    ensures
        compile(s) == Ok::<Seq<char>, ErrorV>(
            "SELECT DISTINCT "@ + "n1"@ + ".*\n"@ + "FROM nodes n1"@ + "\nWHERE "@
                + tag_condition("n1"@, s),
        ),
        tag_condition("n1"@, s) == "n1"@ + ".tag_name = '"@ + s + "'"@,
{
    assert(!space(s[0]));
    assert(!space(s[s.len() - 1]));
    assert(space_end(s, 0) == 0);
    assert(space_start(s, s.len() as int) == s.len());
    assert(trimmed(s) =~= s);
    assert(forall|k: int| 0 <= k < s.len() ==> ident_char(#[trigger] s[k]));
    lemma_ident_end_all(s, 1);
    assert(letter(s[0]));
    let tok = TokenV::TagName(s.subrange(0, s.len() as int));
    assert(s.subrange(0, s.len() as int) =~= s);
    assert(lex_from(s, s.len() as int, Seq::empty().push(tok)) == Ok::<Seq<TokenV>, ErrorV>(
        seq![tok],
    ));
    assert(lex(s) == Ok::<Seq<TokenV>, ErrorV>(seq![tok]));
    let toks = seq![TokenV::TagName(s)];
    assert(seq![tok] =~= toks);
    let c = tag_condition("n1"@, s);
    let init = crate::generator::initial_state();
    let st1 = GenState { wheres: seq![c], ..init };
    assert(init.wheres.push(c) =~= seq![c]);
    assert(step(init, toks[0], true) == Ok::<GenState, ErrorV>(st1));
    assert(gen_from(toks, 1, st1) == Ok::<GenState, ErrorV>(st1));
    assert(gen_from(toks, 0, init) == Ok::<GenState, ErrorV>(st1));
    assert(crate::sql::join_and(seq![c]) == c);
    assert(generate(toks) == Ok::<Seq<char>, ErrorV>(crate::generator::assemble(st1)));
    assert forall|k: int| 0 <= k < s.len() implies #[trigger] s[k] != '\'' by {
        assert(letter(s[k]));
    }
    lemma_escape_no_quote(s);
}

proof fn lemma_contains_within(q: Seq<char>, p: Seq<char>, a: Seq<char>, b: Seq<char>)
    requires
        contains(q, p),
    ensures
        contains(a + q + b, p),
{
    let j = choose|j: int| 0 <= j && j + p.len() <= q.len() && #[trigger] q.subrange(j, j + p.len()) == p;
    let big = a + q + b;
    assert(big.subrange(a.len() + j, a.len() + j + p.len()) =~= q.subrange(j, j + p.len()));
}

proof fn lemma_joins_grow(toks: Seq<TokenV>, i: int, st: GenState)
    requires
        0 <= i,
        gen_from(toks, i, st) is Ok,
    ensures
        st.joins.is_prefix_of(gen_from(toks, i, st)->Ok_0.joins),
    decreases toks.len() - i,
{
    if i < toks.len() {
        let next = step(st, toks[i], i + 1 >= toks.len())->Ok_0;
        lemma_joins_grow(toks, i + 1, next);
        assert(st.joins.is_prefix_of(next.joins));
    }
}

/// The generator's state before token `k`: after the tokens before it.
pub open spec fn state_before(toks: Seq<TokenV>, k: int) -> GenState
    decreases k,
{
    if k <= 0 {
        initial_state()
    } else {
        let prev = state_before(toks, k - 1);
        match step(prev, toks[k - 1], k >= toks.len()) {
            Ok(next) => next,
            Err(_) => prev,
        }
    }
}

proof fn lemma_state_before(toks: Seq<TokenV>, k: int)
    requires
        0 <= k <= toks.len(),
        gen_from(toks, 0, initial_state()) is Ok,
    ensures
        gen_from(toks, k, state_before(toks, k)) == gen_from(toks, 0, initial_state()),
    decreases k,
{
    if k > 0 {
        lemma_state_before(toks, k - 1);
    }
}

/// The join that a supported combinator adds from the anchor `c` to the new
/// alias `n`.
pub open spec fn combinator_join(comb: Combinator, n: Seq<char>, c: Seq<char>) -> Seq<char> {
    match comb {
        Combinator::Child => child_join(n, c),
        _ => descendant_join(n, c),
    }
}

/// A descendant combinator puts into the query a transitive-closure
/// subquery seeded by the children of the anchor before it; a child
/// combinator puts a direct parent-id join from that anchor. Either joins
/// the next fresh alias.
pub proof fn combinators_become_joins(toks: Seq<TokenV>, k: int)
    requires
        0 <= k < toks.len(),
        toks[k] == TokenV::Combinator(Combinator::Descendant) || toks[k] == TokenV::Combinator(
            Combinator::Child,
        ),
        generate(toks) is Ok,
    ensures
        ({
            let st = state_before(toks, k);
            let n = alias('n', st.count + 1);
            &&& toks[k] == TokenV::Combinator(Combinator::Descendant) ==> contains(
                generate(toks)->Ok_0,
                descendant_join(n, st.current),
            )
            &&& toks[k] == TokenV::Combinator(Combinator::Child) ==> contains(
                generate(toks)->Ok_0,
                child_join(n, st.current),
            )
        }),
{
    let init = initial_state();
    lemma_state_before(toks, k);
    let st = state_before(toks, k);
    let n = alias('n', st.count + 1);
    let comb = toks[k]->Combinator_0;
    let piece = combinator_join(comb, n, st.current);
    let next = step(st, toks[k], k + 1 >= toks.len())->Ok_0;
    assert(next.joins == st.joins + piece);
    lemma_joins_grow(toks, k + 1, next);
    let fin = gen_from(toks, 0, init)->Ok_0;
    let j = st.joins.len() as int;
    assert(fin.joins.subrange(j, j + piece.len()) =~= next.joins.subrange(j, j + piece.len()));
    assert(next.joins.subrange(j, j + piece.len()) =~= piece);
    assert(contains(fin.joins, piece));
    let head = "SELECT DISTINCT "@ + fin.current + ".*\n"@;
    let tail = if fin.wheres.len() > 0 {
        "\nWHERE "@ + crate::sql::join_and(fin.wheres)
    } else {
        Seq::<char>::empty()
    };
    lemma_contains_within(fin.joins, piece, head, tail);
    assert(generate(toks)->Ok_0 =~= head + fin.joins + tail);
}

pub open spec fn is_sibling(t: TokenV) -> bool {
    t == TokenV::Combinator(Combinator::NextSibling) || t == TokenV::Combinator(
        Combinator::GeneralSibling,
    )
}

/// The error that names a sibling combinator.
pub open spec fn sibling_message(t: TokenV) -> Seq<char> {
    if t == TokenV::Combinator(Combinator::NextSibling) {
        next_sibling_message()
    } else {
        general_sibling_message()
    }
}

proof fn lemma_sibling_from(toks: Seq<TokenV>, i: int, st: GenState, k: int)
    requires
        0 <= i <= k,
        k + 1 < toks.len(),
        is_sibling(toks[k]),
        forall|j: int| i <= j < k ==> !is_sibling(#[trigger] toks[j]),
    ensures
        gen_from(toks, i, st) == Err::<GenState, ErrorV>(
            ErrorV::UnsupportedFeature(sibling_message(toks[k])),
        ),
    decreases toks.len() - i,
{
    if i < k {
        assert(!is_sibling(toks[i]));
        let r = step(st, toks[i], i + 1 >= toks.len());
        assert(r is Ok);
        lemma_sibling_from(toks, i + 1, r->Ok_0, k);
    }
}

/// A sibling combinator (`+` or `~`) with a selector after it makes the
/// whole compilation fail with an unsupported-feature error that names it
/// (the first such combinator, where there are several).
pub proof fn sibling_combinators_unsupported(toks: Seq<TokenV>, k: int)
    requires
        0 <= k,
        k + 1 < toks.len(),
        is_sibling(toks[k]),
        forall|j: int| 0 <= j < k ==> !is_sibling(#[trigger] toks[j]),
    ensures
        generate(toks) == Err::<Seq<char>, ErrorV>(
            ErrorV::UnsupportedFeature(sibling_message(toks[k])),
        ),
{
    lemma_sibling_from(toks, 0, crate::generator::initial_state(), k);
}

} // verus!
