//! The declared types of the source language.

use crate::lexer::{RawToken, Token, TokenView};
use crate::parser::pretty::var_text;
use vstd::prelude::*;

verus! {

/// The type that a declaration gives to its variable.
#[derive(Debug, Clone, Copy, PartialEq, Eq, Structural)]
pub enum Var {
    Str,
    Int,
    Bool,
}

/// The type that a type keyword names.
pub open spec fn type_of(t: TokenView) -> Option<Var> {
    match t.kind {
        RawToken::Int => Some(Var::Int),
        RawToken::Str => Some(Var::Str),
        RawToken::Bool => Some(Var::Bool),
        _ => None,
    }
}

impl Var {
    /// The type that `tok` names, if it is a type keyword.
    pub fn from_token(tok: &Token) -> (r: Option<Var>)
        ensures
            r == type_of(tok@),
    {
        match tok {
            Token::Int => Some(Var::Int),
            Token::Str => Some(Var::Str),
            Token::Bool => Some(Var::Bool),
            _ => None,
        }
    }
}

impl Var {
    /// The keyword of this type.
    pub fn to_string(&self) -> (r: String)
        ensures
            r@ == var_text(*self),
    {
        match self {
            Var::Bool => "bool".to_owned(),
            Var::Str => "str".to_owned(),
            Var::Int => "int".to_owned(),
        }
    }
}

} // verus!
