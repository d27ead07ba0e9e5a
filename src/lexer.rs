//! The lexer: selector text to a sequence of tokens.
use vstd::prelude::*;
use vstd::string::*;
use crate::text::{chars_of, ident_char, is_ident_char, is_letter, is_space, letter, space, string_from_chars};
use crate::token::{tokens_view, AttributeOperator, Combinator, ErrorV, SelectorError, Token, TokenV};

verus! {

/// The first position at or after `i` that does not continue an identifier.
pub open spec fn ident_end(t: Seq<char>, i: int) -> int
    decreases t.len() - i,
{
    if 0 <= i < t.len() && ident_char(t[i]) {
        ident_end(t, i + 1)
    } else {
        i
    }
}

/// The first position at or after `i` that is not whitespace.
pub open spec fn space_end(t: Seq<char>, i: int) -> int
    decreases t.len() - i,
{
    if 0 <= i < t.len() && space(t[i]) {
        space_end(t, i + 1)
    } else {
        i
    }
}

/// The first position at or after `i` that holds the quote `q`, or the end.
pub open spec fn quote_end(t: Seq<char>, i: int, q: char) -> int
    decreases t.len() - i,
{
    if 0 <= i < t.len() && t[i] != q {
        quote_end(t, i + 1, q)
    } else {
        i
    }
}

/// The last position at or before `j` that follows no whitespace.
pub open spec fn space_start(t: Seq<char>, j: int) -> int
    decreases j,
{
    if 0 < j <= t.len() && space(t[j - 1]) {
        space_start(t, j - 1)
    } else {
        j
    }
}

/// `s` without its leading and trailing whitespace.
pub open spec fn trimmed(s: Seq<char>) -> Seq<char> {
    let a = space_end(s, 0);
    let b = space_start(s, s.len() as int);
    if a < b {
        s.subrange(a, b)
    } else {
        Seq::empty()
    }
}

pub proof fn lemma_ident_end_bounds(t: Seq<char>, i: int)
    requires
        0 <= i <= t.len(),
    ensures
        i <= ident_end(t, i) <= t.len(),
        forall|k: int| i <= k < ident_end(t, i) ==> ident_char(#[trigger] t[k]),
    decreases t.len() - i,
{
    if i < t.len() && ident_char(t[i]) {
        lemma_ident_end_bounds(t, i + 1);
    }
}

pub proof fn lemma_space_end_bounds(t: Seq<char>, i: int)
    requires
        0 <= i <= t.len(),
    ensures
        i <= space_end(t, i) <= t.len(),
        space_end(t, i) < t.len() ==> !space(t[space_end(t, i)]),
    decreases t.len() - i,
{
    if i < t.len() && space(t[i]) {
        lemma_space_end_bounds(t, i + 1);
    }
}

pub proof fn lemma_quote_end_bounds(t: Seq<char>, i: int, q: char)
    requires
        0 <= i <= t.len(),
    ensures
        i <= quote_end(t, i, q) <= t.len(),
        quote_end(t, i, q) < t.len() ==> t[quote_end(t, i, q)] == q,
    decreases t.len() - i,
{
    if i < t.len() && t[i] != q {
        lemma_quote_end_bounds(t, i + 1, q);
    }
}

pub open spec fn is_combinator_char(c: char) -> bool {
    c == '>' || c == '+' || c == '~'
}

pub open spec fn is_operator_char(c: char) -> bool {
    c == '=' || c == '~' || c == '^' || c == '$' || c == '*'
}

/// The operator written as `c` followed by `=`, for `c` one of `~ ^ $ *`.
pub open spec fn operator_of(c: char) -> AttributeOperator {
    if c == '~' {
        AttributeOperator::WordMatch
    } else if c == '^' {
        AttributeOperator::StartsWith
    } else if c == '$' {
        AttributeOperator::EndsWith
    } else {
        AttributeOperator::Contains
    }
}

pub open spec fn unexpected_char_message(c: char) -> Seq<char> {
    "Unexpected character: "@ + seq![c]
}

pub open spec fn unexpected_in_attribute_message(c: char) -> Seq<char> {
    "Unexpected character in attribute selector: "@ + seq![c]
}

pub open spec fn attribute_end_message() -> Seq<char> {
    "Unexpected end of attribute selector"@
}

pub open spec fn invalid_operator_message() -> Seq<char> {
    "Invalid attribute operator"@
}

pub open spec fn missing_value_message() -> Seq<char> {
    "Expected attribute value"@
}

pub open spec fn missing_bracket_message() -> Seq<char> {
    "Expected closing bracket"@
}

/// The value of an attribute clause that starts at `p` (after the operator),
/// with the position after its closing `]`.
pub open spec fn attribute_value_at(
    t: Seq<char>,
    name: Seq<char>,
    op: AttributeOperator,
    p: int,
) -> Result<(TokenV, int), ErrorV> {
    let v = space_end(t, p);
    if v >= t.len() {
        Err(ErrorV::ParseError(missing_value_message()))
    } else {
        let q = t[v];
        let e = if q == '"' || q == '\'' {
            quote_end(t, v + 1, q)
        } else {
            ident_end(t, v)
        };
        let value = if q == '"' || q == '\'' {
            t.subrange(v + 1, e)
        } else {
            t.subrange(v, e)
        };
        let close = if (q == '"' || q == '\'') && e < t.len() {
            e + 1
        } else {
            e
        };
        if !(q == '"' || q == '\'') && e == v {
            Err(ErrorV::ParseError(missing_value_message()))
        } else if close < t.len() && t[close] == ']' {
            Ok((TokenV::Attribute { name, value: Some(value), operator: op }, close + 1))
        } else {
            Err(ErrorV::ParseError(missing_bracket_message()))
        }
    }
}

/// The attribute clause whose text starts at `i` (after its `[`), with the
/// position after its closing `]`.
pub open spec fn attribute_at(t: Seq<char>, i: int) -> Result<(TokenV, int), ErrorV> {
    let n = ident_end(t, i);
    let name = t.subrange(i, n);
    let p = space_end(t, n);
    if p >= t.len() {
        Err(ErrorV::ParseError(attribute_end_message()))
    } else if t[p] == ']' {
        Ok((TokenV::Attribute { name, value: None, operator: AttributeOperator::Exists }, p + 1))
    } else if is_operator_char(t[p]) {
        let doubled = p + 1 < t.len() && t[p + 1] == '=';
        if t[p] == '=' && !doubled {
            attribute_value_at(t, name, AttributeOperator::Equals, p + 1)
        } else if t[p] != '=' && doubled {
            attribute_value_at(t, name, operator_of(t[p]), p + 2)
        } else {
            Err(ErrorV::ParseError(invalid_operator_message()))
        }
    } else {
        Err(ErrorV::ParseError(unexpected_in_attribute_message(t[p])))
    }
}

pub proof fn lemma_attribute_at_bounds(t: Seq<char>, i: int)
    requires
        0 <= i <= t.len(),
    ensures
        attribute_at(t, i) matches Ok((_, j)) ==> i < j <= t.len(),
{
    lemma_ident_end_bounds(t, i);
    let n = ident_end(t, i);
    lemma_space_end_bounds(t, n);
    let p = space_end(t, n);
    if p < t.len() && is_operator_char(t[p]) {
        let start = if p + 1 < t.len() && t[p + 1] == '=' { p + 2 } else { p + 1 };
        lemma_space_end_bounds(t, start);
        let v = space_end(t, start);
        if v < t.len() {
            lemma_ident_end_bounds(t, v);
            lemma_quote_end_bounds(t, v + 1, t[v]);
        }
    }
}

pub open spec fn ends_with_combinator(toks: Seq<TokenV>) -> bool {
    toks.len() > 0 && toks.last() is Combinator
}

/// Tokens of `t` from position `i` on, after the tokens `toks` already read.
pub open spec fn lex_from(t: Seq<char>, i: int, toks: Seq<TokenV>) -> Result<Seq<TokenV>, ErrorV>
    decreases t.len() - i,
{
    if i < 0 || i >= t.len() {
        Ok(toks)
    } else {
        let c = t[i];
        if space(c) {
            let j = space_end(t, i + 1);
            proof {
                lemma_space_end_bounds(t, i + 1);
            }
            if j < t.len() && !is_combinator_char(t[j]) && !ends_with_combinator(toks) {
                lex_from(t, j, toks.push(TokenV::Combinator(Combinator::Descendant)))
            } else {
                lex_from(t, j, toks)
            }
        } else if c == '>' {
            lex_from(t, i + 1, toks.push(TokenV::Combinator(Combinator::Child)))
        } else if c == '+' {
            lex_from(t, i + 1, toks.push(TokenV::Combinator(Combinator::NextSibling)))
        } else if c == '~' {
            lex_from(t, i + 1, toks.push(TokenV::Combinator(Combinator::GeneralSibling)))
        } else if c == '.' {
            let e = ident_end(t, i + 1);
            proof {
                lemma_ident_end_bounds(t, i + 1);
            }
            lex_from(t, e, toks.push(TokenV::Class(t.subrange(i + 1, e))))
        } else if c == '#' {
            let e = ident_end(t, i + 1);
            proof {
                lemma_ident_end_bounds(t, i + 1);
            }
            lex_from(t, e, toks.push(TokenV::Id(t.subrange(i + 1, e))))
        } else if c == '[' {
            proof {
                lemma_attribute_at_bounds(t, i + 1);
            }
            match attribute_at(t, i + 1) {
                Ok((tok, j)) => lex_from(t, j, toks.push(tok)),
                Err(e) => Err(e),
            }
        } else if c == '*' {
            lex_from(t, i + 1, toks)
        } else if letter(c) {
            let e = ident_end(t, i + 1);
            proof {
                lemma_ident_end_bounds(t, i + 1);
            }
            lex_from(t, e, toks.push(TokenV::TagName(t.subrange(i, e))))
        } else {
            Err(ErrorV::ParseError(unexpected_char_message(c)))
        }
    }
}

/// The tokens of a selector.
pub open spec fn lex(s: Seq<char>) -> Result<Seq<TokenV>, ErrorV> {
    lex_from(trimmed(s), 0, Seq::empty())
}

pub open spec fn tokens_result(r: Result<Vec<Token>, SelectorError>) -> Result<Seq<TokenV>, ErrorV> {
    match r {
        Ok(v) => Ok(tokens_view(v@)),
        Err(e) => Err(e@),
    }
}

pub open spec fn attribute_result(r: Result<(Token, usize), SelectorError>) -> Result<(TokenV, int), ErrorV> {
    match r {
        Ok((tok, j)) => Ok((tok@, j as int)),
        Err(e) => Err(e@),
    }
}

fn parse_error(prefix: &str, c: char) -> (r: SelectorError)
    ensures
        r@ == ErrorV::ParseError(prefix@ + seq![c]),
{
    let mut m = String::from_str(prefix);
    let cs = vec![c];
    let tail = string_from_chars(cs.as_slice());
    m.append(tail.as_str());
    proof {
        assert(cs@ =~= seq![c]);
    }
    SelectorError::ParseError(m)
}

fn skip_space(t: &Vec<char>, i: usize) -> (r: usize)
    requires
        i <= t.len(),
    ensures
        r == space_end(t@, i as int),
        i <= r <= t.len(),
{
    let mut j = i;
    while j < t.len() && is_space(t[j])
        invariant
            i <= j <= t.len(),
            space_end(t@, i as int) == space_end(t@, j as int),
        decreases t.len() - j,
    {
        j = j + 1;
    }
    j
}

fn ident_stop(t: &Vec<char>, i: usize) -> (r: usize)
    requires
        i <= t.len(),
    ensures
        r == ident_end(t@, i as int),
        i <= r <= t.len(),
{
    let mut j = i;
    while j < t.len() && is_ident_char(t[j])
        invariant
            i <= j <= t.len(),
            ident_end(t@, i as int) == ident_end(t@, j as int),
        decreases t.len() - j,
    {
        j = j + 1;
    }
    j
}

fn quote_stop(t: &Vec<char>, i: usize, q: char) -> (r: usize)
    requires
        i <= t.len(),
    ensures
        r == quote_end(t@, i as int, q),
        i <= r <= t.len(),
{
    let mut j = i;
    while j < t.len() && t[j] != q
        invariant
            i <= j <= t.len(),
            quote_end(t@, i as int, q) == quote_end(t@, j as int, q),
        decreases t.len() - j,
    {
        j = j + 1;
    }
    j
}

/// The text of `t` from `a` up to `b`, as a string.
fn text_between(t: &Vec<char>, a: usize, b: usize) -> (r: String)
    requires
        a <= b <= t.len(),
    ensures
        r@ == t@.subrange(a as int, b as int),
{
    let mut v: Vec<char> = Vec::new();
    let mut k = a;
    while k < b
        invariant
            a <= k <= b <= t.len(),
            v@ == t@.subrange(a as int, k as int),
        decreases b - k,
    {
        v.push(t[k]);
        proof {
            assert(v@ =~= t@.subrange(a as int, k + 1));
        }
        k = k + 1;
    }
    string_from_chars(v.as_slice())
}

/// The identifier that starts at `i`, and the position after it.
pub fn collect_identifier(t: &Vec<char>, i: usize) -> (r: (String, usize))
    requires
        i <= t.len(),
    ensures
        r.1 == ident_end(t@, i as int),
        i <= r.1 <= t.len(),
        r.0@ == t@.subrange(i as int, r.1 as int),
{
    let e = ident_stop(t, i);
    (text_between(t, i, e), e)
}

fn parse_attribute_value(t: &Vec<char>, name: String, op: AttributeOperator, p: usize) -> (r: Result<(Token, usize), SelectorError>)
    requires
        p <= t.len(),
    ensures
        attribute_result(r) == attribute_value_at(t@, name@, op, p as int),
{
    let v = skip_space(t, p);
    if v >= t.len() {
        return Err(SelectorError::ParseError(String::from_str("Expected attribute value")));
    }
    let q = t[v];
    let quoted = q == '"' || q == '\'';
    let (value, close) = if quoted {
        let e = quote_stop(t, v + 1, q);
        let close = if e < t.len() { e + 1 } else { e };
        (text_between(t, v + 1, e), close)
    } else {
        let (value, e) = collect_identifier(t, v);
        if e == v {
            return Err(SelectorError::ParseError(String::from_str("Expected attribute value")));
        }
        (value, e)
    };
    if close < t.len() && t[close] == ']' {
        Ok((Token::Attribute { name, value: Some(value), operator: op }, close + 1))
    } else {
        Err(SelectorError::ParseError(String::from_str("Expected closing bracket")))
    }
}

/// Reads the attribute clause whose text starts at `i`, just after its `[`.
pub fn parse_attribute(t: &Vec<char>, i: usize) -> (r: Result<(Token, usize), SelectorError>)
    requires
        i <= t.len(),
    ensures
        attribute_result(r) == attribute_at(t@, i as int),
{
    let (name, n) = collect_identifier(t, i);
    let p = skip_space(t, n);
    if p >= t.len() {
        return Err(SelectorError::ParseError(String::from_str("Unexpected end of attribute selector")));
    }
    let c = t[p];
    if c == ']' {
        Ok((Token::Attribute { name, value: None, operator: AttributeOperator::Exists }, p + 1))
    } else if c == '=' || c == '~' || c == '^' || c == '$' || c == '*' {
        let doubled = p + 1 < t.len() && t[p + 1] == '=';
        if c == '=' && !doubled {
            parse_attribute_value(t, name, AttributeOperator::Equals, p + 1)
        } else if c != '=' && doubled {
            let op = if c == '~' {
                AttributeOperator::WordMatch
            } else if c == '^' {
                AttributeOperator::StartsWith
            } else if c == '$' {
                AttributeOperator::EndsWith
            } else {
                AttributeOperator::Contains
            };
            parse_attribute_value(t, name, op, p + 2)
        } else {
            Err(SelectorError::ParseError(String::from_str("Invalid attribute operator")))
        }
    } else {
        Err(parse_error("Unexpected character in attribute selector: ", c))
    }
}

/// The characters of `s` without leading and trailing whitespace.
pub(crate) fn trim_chars(s: &Vec<char>) -> (r: Vec<char>)
    ensures
        r@ == trimmed(s@),
{
    let a = skip_space(s, 0);
    let mut b = s.len();
    while b > 0 && is_space(s[b - 1])
        invariant
            b <= s.len(),
            space_start(s@, s.len() as int) == space_start(s@, b as int),
        decreases b,
    {
        b = b - 1;
    }
    let mut r: Vec<char> = Vec::new();
    if a < b {
        let mut k = a;
        while k < b
            invariant
                a <= k <= b <= s.len(),
                r@ == s@.subrange(a as int, k as int),
            decreases b - k,
        {
            r.push(s[k]);
            proof {
                assert(r@ =~= s@.subrange(a as int, k + 1));
            }
            k = k + 1;
        }
    }
    proof {
        if a >= b {
            assert(r@ =~= trimmed(s@));
        }
    }
    r
}

/// Splits a selector into tokens: tag names, classes, ids, attribute clauses
/// and combinators.
pub fn tokenize(selector: &str) -> (r: Result<Vec<Token>, SelectorError>)
    ensures
        tokens_result(r) == lex(selector@),
{
    let all = chars_of(selector);
    let t = trim_chars(&all);
    let mut toks: Vec<Token> = Vec::new();
    let mut i: usize = 0;
    proof {
        assert(tokens_view(toks@) =~= Seq::<TokenV>::empty());
    }
    while i < t.len()
        invariant
            i <= t.len(),
            t@ == trimmed(selector@),
            lex_from(t@, i as int, tokens_view(toks@)) == lex(selector@),
        decreases t.len() - i,
    {
        let ghost before = tokens_view(toks@);
        let c = t[i];
        if is_space(c) {
            let j = skip_space(&t, i + 1);
            if j < t.len() && t[j] != '>' && t[j] != '+' && t[j] != '~' {
                let after_combinator = toks.len() > 0 && matches!(toks[toks.len() - 1], Token::Combinator(_));
                if !after_combinator {
                    toks.push(Token::Combinator(Combinator::Descendant));
                    proof {
                        assert(tokens_view(toks@) =~= before.push(TokenV::Combinator(Combinator::Descendant)));
                    }
                }
            }
            i = j;
        } else if c == '>' || c == '+' || c == '~' {
            let comb = if c == '>' {
                Combinator::Child
            } else if c == '+' {
                Combinator::NextSibling
            } else {
                Combinator::GeneralSibling
            };
            toks.push(Token::Combinator(comb));
            proof {
                assert(tokens_view(toks@) =~= before.push(TokenV::Combinator(comb)));
            }
            i = i + 1;
        } else if c == '.' || c == '#' {
            let (name, e) = collect_identifier(&t, i + 1);
            let tok = if c == '.' { Token::Class(name) } else { Token::Id(name) };
            toks.push(tok);
            proof {
                assert(tokens_view(toks@) =~= before.push(tok@));
            }
            i = e;
        } else if c == '[' {
            match parse_attribute(&t, i + 1) {
                Ok((tok, j)) => {
                    proof {
                        lemma_attribute_at_bounds(t@, i + 1);
                    }
                    toks.push(tok);
                    proof {
                        assert(tokens_view(toks@) =~= before.push(tok@));
                    }
                    i = j;
                },
                Err(e) => {
                    return Err(e);
                },
            }
        } else if c == '*' {
            i = i + 1;
        } else if is_letter(c) {
            let e = ident_stop(&t, i + 1);
            let tok = Token::TagName(text_between(&t, i, e));
            toks.push(tok);
            proof {
                assert(tokens_view(toks@) =~= before.push(tok@));
            }
            i = e;
        } else {
            return Err(parse_error("Unexpected character: ", c));
        }
    }
    Ok(toks)
}

} // verus!
