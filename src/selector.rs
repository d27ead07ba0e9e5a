//! Compiling a selector: the lexer followed by the generator.
use vstd::prelude::*;
use crate::generator::{generate, generate_sql, text_result};
use crate::lexer::{lex, tokenize};
use crate::token::{ErrorV, SelectorError};

verus! {

/// The query for a selector, or why there is none.
pub open spec fn compile(s: Seq<char>) -> Result<Seq<char>, ErrorV> {
    match lex(s) {
        Ok(toks) => generate(toks),
        Err(e) => Err(e),
    }
}

/// Compiles a CSS selector into a query over the node and attribute tables.
pub fn css_to_sql(selector: &str) -> (r: Result<String, SelectorError>)
    ensures
        text_result(r) == compile(selector@),
{
    match tokenize(selector) {
        Ok(tokens) => generate_sql(tokens.as_slice()),
        Err(e) => Err(e),
    }
}

} // verus!
