//! Tokens of a selector, errors of the compiler, and their mathematical views.
use vstd::prelude::*;
use vstd::string::*;

verus! {

/// The structural relation between two compound selectors.
#[derive(Debug, Clone, Copy, PartialEq, Eq, Structural)]
pub enum Combinator {
    /// Written as whitespace.
    Descendant,
    /// Written as `>`.
    Child,
    /// Written as `+`.
    NextSibling,
    /// Written as `~`.
    GeneralSibling,
}

/// How an attribute selector compares the attribute's value.
#[derive(Debug, Clone, Copy, PartialEq, Eq, Structural)]
pub enum AttributeOperator {
    /// `[attr]`
    Exists,
    /// `[attr=value]`
    Equals,
    /// `[attr*=value]`
    Contains,
    /// `[attr^=value]`
    StartsWith,
    /// `[attr$=value]`
    EndsWith,
    /// `[attr~=value]`
    WordMatch,
}

#[derive(Debug, Clone, PartialEq, Eq)]
pub enum Token {
    TagName(String),
    Class(String),
    Id(String),
    Attribute { name: String, value: Option<String>, operator: AttributeOperator },
    Combinator(Combinator),
}

/// A token with its strings seen as character sequences.
pub enum TokenV {
    TagName(Seq<char>),
    Class(Seq<char>),
    Id(Seq<char>),
    Attribute { name: Seq<char>, value: Option<Seq<char>>, operator: AttributeOperator },
    Combinator(Combinator),
}

pub open spec fn opt_view(v: Option<String>) -> Option<Seq<char>> {
    match v {
        Some(s) => Some(s@),
        None => None,
    }
}

impl View for Token {
    type V = TokenV;

    open spec fn view(&self) -> TokenV {
        match self {
            Token::TagName(s) => TokenV::TagName(s@),
            Token::Class(s) => TokenV::Class(s@),
            Token::Id(s) => TokenV::Id(s@),
            Token::Attribute { name, value, operator } => TokenV::Attribute {
                name: name@,
                value: opt_view(*value),
                operator: *operator,
            },
            Token::Combinator(c) => TokenV::Combinator(*c),
        }
    }
}

pub open spec fn tokens_view(v: Seq<Token>) -> Seq<TokenV> {
    v.map_values(|t: Token| t@)
}

/// Why a selector could not be compiled.
#[derive(Debug, Clone, PartialEq, Eq)]
pub enum SelectorError {
    /// The text does not follow the selector grammar.
    ParseError(String),
    /// The text is well formed but asks for something not implemented.
    UnsupportedFeature(String),
}

pub enum ErrorV {
    ParseError(Seq<char>),
    UnsupportedFeature(Seq<char>),
}

impl View for SelectorError {
    type V = ErrorV;

    open spec fn view(&self) -> ErrorV {
        match self {
            SelectorError::ParseError(m) => ErrorV::ParseError(m@),
            SelectorError::UnsupportedFeature(m) => ErrorV::UnsupportedFeature(m@),
        }
    }
}

impl SelectorError {
    /// The error as a line of text, with its kind in front.
    pub fn message(&self) -> (r: String)
        ensures
            r@ == match self@ {
                ErrorV::ParseError(m) => "Parse error: "@ + m,
                ErrorV::UnsupportedFeature(m) => "Unsupported feature: "@ + m,
            },
    {
        match self {
            SelectorError::ParseError(m) => {
                let mut r = String::from_str("Parse error: ");
                r.append(m.as_str());
                r
            },
            SelectorError::UnsupportedFeature(m) => {
                let mut r = String::from_str("Unsupported feature: ");
                r.append(m.as_str());
                r
            },
        }
    }
}

} // verus!
