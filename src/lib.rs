//! Query markup documents with CSS selectors over a relational encoding of
//! their tree: a selector compiles to query text over a `nodes` table (with
//! parent links) and an `attributes` table; a parsed document flattens into
//! node records, parents before their descendants.
pub mod facts;
pub mod generator;
pub mod lexer;
pub mod load;
pub mod selector;
pub mod sql;
pub mod text;
pub mod token;
pub mod tree;

pub use lexer::tokenize;
pub use selector::css_to_sql;
pub use token::{AttributeOperator, Combinator, SelectorError, Token};
