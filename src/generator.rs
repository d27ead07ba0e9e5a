//! The query generator: a token sequence to query text over the node and
//! attribute tables.
use vstd::prelude::*;
use vstd::string::*;
use crate::sql::{alias, alias_text, attribute_join_text, child_join_text, descendant_join_text, name_clause, tag_clause, value_clause, word_clause, attribute_join, child_join, descendant_join, join_and, name_condition, tag_condition, value_condition, word_condition};
use crate::token::{tokens_view, AttributeOperator, Combinator, ErrorV, SelectorError, Token, TokenV};

verus! {

/// What the generator has built after a prefix of the tokens.
pub struct GenState {
    /// The `FROM` clause with its joins.
    pub joins: Seq<char>,
    /// The number of the last alias handed out.
    pub count: nat,
    /// The conditions, in the order they were met.
    pub wheres: Seq<Seq<char>>,
    /// The alias of the node set matched so far.
    pub current: Seq<char>,
}

pub open spec fn initial_state() -> GenState {
    GenState { joins: "FROM nodes n1"@, count: 1, wheres: Seq::empty(), current: "n1"@ }
}

pub open spec fn dangling_message() -> Seq<char> {
    "Combinator must be followed by a selector"@
}

pub open spec fn next_sibling_message() -> Seq<char> {
    "Next sibling combinator (+) not yet supported"@
}

pub open spec fn general_sibling_message() -> Seq<char> {
    "General sibling combinator (~) not yet supported"@
}

/// The state after one token; `is_last` tells whether any token follows.
pub open spec fn step(st: GenState, tok: TokenV, is_last: bool) -> Result<GenState, ErrorV> {
    let a = alias('a', st.count + 1);
    let with_attr = GenState {
        joins: st.joins + attribute_join(a, st.current),
        count: st.count + 1,
        ..st
    };
    match tok {
        TokenV::TagName(t) => Ok(
            GenState { wheres: st.wheres.push(tag_condition(st.current, t)), ..st },
        ),
        TokenV::Class(c) => Ok(
            GenState {
                wheres: st.wheres.push(a + ".name = 'class'"@).push(word_condition(a, c)),
                ..with_attr
            },
        ),
        TokenV::Id(i) => Ok(
            GenState {
                wheres: st.wheres.push(a + ".name = 'id'"@).push(
                    value_condition(a, i, AttributeOperator::Equals),
                ),
                ..with_attr
            },
        ),
        TokenV::Attribute { name, value, operator } => {
            let w = st.wheres.push(name_condition(a, name));
            match value {
                Some(v) if operator != AttributeOperator::Exists => Ok(
                    GenState { wheres: w.push(value_condition(a, v, operator)), ..with_attr },
                ),
                _ => Ok(GenState { wheres: w, ..with_attr }),
            }
        },
        TokenV::Combinator(c) => {
            let n = alias('n', st.count + 1);
            if is_last {
                Err(ErrorV::ParseError(dangling_message()))
            } else {
                match c {
                    Combinator::Child => Ok(
                        GenState {
                            joins: st.joins + child_join(n, st.current),
                            count: st.count + 1,
                            wheres: st.wheres,
                            current: n,
                        },
                    ),
                    Combinator::Descendant => Ok(
                        GenState {
                            joins: st.joins + descendant_join(n, st.current),
                            count: st.count + 1,
                            wheres: st.wheres,
                            current: n,
                        },
                    ),
                    Combinator::NextSibling => Err(
                        ErrorV::UnsupportedFeature(next_sibling_message()),
                    ),
                    Combinator::GeneralSibling => Err(
                        ErrorV::UnsupportedFeature(general_sibling_message()),
                    ),
                }
            }
        },
    }
}

/// The state after the tokens from position `i` on.
pub open spec fn gen_from(toks: Seq<TokenV>, i: int, st: GenState) -> Result<GenState, ErrorV>
    decreases toks.len() - i,
{
    if i < 0 || i >= toks.len() {
        Ok(st)
    } else {
        match step(st, toks[i], i + 1 >= toks.len()) {
            Ok(next) => gen_from(toks, i + 1, next),
            Err(e) => Err(e),
        }
    }
}

/// The final query: distinct rows of the last alias, with the conditions.
pub open spec fn assemble(st: GenState) -> Seq<char> {
    let head = "SELECT DISTINCT "@ + st.current + ".*\n"@ + st.joins;
    if st.wheres.len() > 0 {
        head + "\nWHERE "@ + join_and(st.wheres)
    } else {
        head
    }
}

pub open spec fn all_nodes_query() -> Seq<char> {
    "SELECT * FROM nodes"@
}

/// The query for a token sequence.
pub open spec fn generate(toks: Seq<TokenV>) -> Result<Seq<char>, ErrorV> {
    if toks.len() == 0 {
        Ok(all_nodes_query())
    } else {
        match gen_from(toks, 0, initial_state()) {
            Ok(st) => Ok(assemble(st)),
            Err(e) => Err(e),
        }
    }
}

pub open spec fn text_result(r: Result<String, SelectorError>) -> Result<Seq<char>, ErrorV> {
    match r {
        Ok(s) => Ok(s@),
        Err(e) => Err(e@),
    }
}

/// Appends `clause` to the conditions read so far, with `AND` between two.
fn add_condition(text: &mut String, clause: String, any: bool, Ghost(wheres): Ghost<Seq<Seq<char>>>)
    requires
        old(text)@ == join_and(wheres),
        any == (wheres.len() > 0),
    ensures
        final(text)@ == join_and(wheres.push(clause@)),
{
    if any {
        text.append(" AND ");
    }
    text.append(clause.as_str());
    proof {
        assert(wheres.push(clause@).drop_last() =~= wheres);
        if wheres.len() == 0 {
            assert(text@ =~= clause@);
        }
    }
}

/// The query for a token sequence over the node and attribute tables.
pub fn generate_sql(tokens: &[Token]) -> (r: Result<String, SelectorError>)
    ensures
        text_result(r) == generate(tokens_view(tokens@)),
{
    if tokens.len() == 0 {
        return Ok(String::from_str("SELECT * FROM nodes"));
    }
    let ghost toks = tokens_view(tokens@);
    let mut joins = String::from_str("FROM nodes n1");
    let mut count: u128 = 1;
    let mut where_text = String::new();
    let mut has_where = false;
    let mut current = String::from_str("n1");
    let ghost mut st = initial_state();
    let mut i: usize = 0;
    while i < tokens.len()
        invariant
            i <= tokens.len(),
            toks == tokens_view(tokens@),
            toks.len() > 0,
            count as nat == st.count,
            count <= i + 1,
            joins@ == st.joins,
            current@ == st.current,
            where_text@ == join_and(st.wheres),
            has_where == (st.wheres.len() > 0),
            gen_from(toks, i as int, st) == gen_from(toks, 0, initial_state()),
        decreases tokens.len() - i,
    {
        let is_last = i + 1 >= tokens.len();
        let ghost next = step(st, toks[i as int], is_last);
        assert(toks[i as int] == tokens@[i as int]@);
        match &tokens[i] {
            Token::TagName(tag) => {
                let clause = tag_clause(&current, tag);
                add_condition(&mut where_text, clause, has_where, Ghost(st.wheres));
                has_where = true;
            },
            Token::Class(class) => {
                count = count + 1;
                let a = alias_text('a', count);
                let join = attribute_join_text(&a, &current);
                joins.append(join.as_str());
                let mut name = a.clone();
                name.append(".name = 'class'");
                add_condition(&mut where_text, name, has_where, Ghost(st.wheres));
                has_where = true;
                let ghost w = st.wheres.push(a@ + ".name = 'class'"@);
                add_condition(&mut where_text, word_clause(&a, class), true, Ghost(w));
            },
            Token::Id(id) => {
                count = count + 1;
                let a = alias_text('a', count);
                let join = attribute_join_text(&a, &current);
                joins.append(join.as_str());
                let mut name = a.clone();
                name.append(".name = 'id'");
                add_condition(&mut where_text, name, has_where, Ghost(st.wheres));
                has_where = true;
                let ghost w = st.wheres.push(a@ + ".name = 'id'"@);
                add_condition(&mut where_text, value_clause(&a, id, AttributeOperator::Equals), true, Ghost(w));
            },
            Token::Attribute { name, value, operator } => {
                count = count + 1;
                let a = alias_text('a', count);
                let join = attribute_join_text(&a, &current);
                joins.append(join.as_str());
                add_condition(&mut where_text, name_clause(&a, name), has_where, Ghost(st.wheres));
                has_where = true;
                let ghost w = st.wheres.push(name_condition(a@, name@));
                match value {
                    Some(v) => {
                        if *operator != AttributeOperator::Exists {
                            add_condition(&mut where_text, value_clause(&a, v, *operator), true, Ghost(w));
                        }
                    },
                    None => {},
                }
            },
            Token::Combinator(comb) => {
                if is_last {
                    return Err(SelectorError::ParseError(String::from_str("Combinator must be followed by a selector")));
                }
                count = count + 1;
                let n = alias_text('n', count);
                match comb {
                    Combinator::Child => {
                        let join = child_join_text(&n, &current);
                        joins.append(join.as_str());
                    },
                    Combinator::Descendant => {
                        let join = descendant_join_text(&n, &current);
                        joins.append(join.as_str());
                    },
                    Combinator::NextSibling => {
                        return Err(SelectorError::UnsupportedFeature(String::from_str("Next sibling combinator (+) not yet supported")));
                    },
                    Combinator::GeneralSibling => {
                        return Err(SelectorError::UnsupportedFeature(String::from_str("General sibling combinator (~) not yet supported")));
                    },
                }
                current = n;
            },
        }
        proof {
            st = next->Ok_0;
        }
        i = i + 1;
    }
    let mut sql = String::from_str("SELECT DISTINCT ");
    sql.append(current.as_str());
    sql.append(".*\n");
    sql.append(joins.as_str());
    if has_where {
        sql.append("\nWHERE ");
        sql.append(where_text.as_str());
    }
    Ok(sql)
}

} // verus!
