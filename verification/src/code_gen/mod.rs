//! The code generator: from the tree of a program to a control-flow graph of
//! 16-bit integer instructions, and from there to the IR builder.

use vstd::prelude::*;

pub mod compile;
pub mod dominance;
pub mod emit;
pub mod ir;
pub mod laws;
pub mod llvm;
pub mod lower;
pub mod passes;
pub mod scope;
pub mod shape;
pub mod symbols;

verus! {

/// Why a program cannot be lowered.
#[derive(Debug, Clone, Copy, PartialEq, Eq, Structural)]
pub enum CodeGenError {
    /// A declaration of type `str` or `bool`, or a string literal: they parse,
    /// but there is no lowering for them.
    Unimplemented,
    /// A name is read or assigned before any declaration of it.
    MissingSymbol,
}

} // verus!
