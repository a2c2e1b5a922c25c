//! The recursive-descent parser and the tree it produces.

use vstd::prelude::*;

pub mod decls;
pub mod expr;
pub mod precedence;
pub mod pretty;
pub mod program;
pub mod stmts;
pub mod tokens;
pub mod var;

verus! {

/// Why a token stream is not a program.
#[derive(Debug, Clone, Copy, PartialEq, Eq, Structural)]
pub enum SyntaxError {
    /// A type keyword is not followed by a name, `=` and an expression.
    BadDeclaration,
    /// What follows the declarations and statements is not the end of input.
    UnexpectedToken,
}

} // verus!
