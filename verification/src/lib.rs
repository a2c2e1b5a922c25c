//! A verified front end and code generator for a small imperative language:
//! typed declarations followed by assignments, `print`, `if` and `while`.
//!
//! Source text is split into tokens by [`lexer::Lexer`], parsed into a tree by
//! [`parser::program::Program::new`], printed in a canonical form by
//! [`parser::program::Program::to_string`], lowered to a control-flow graph of
//! 16-bit integer instructions by [`code_gen::compile::Lowering`], and handed
//! to the IR builder by [`code_gen::emit::Compiler`]. [`driver`] runs the
//! stages in a row.

pub mod code_gen;
pub mod driver;
pub mod lexer;
pub mod parser;
pub mod text;

pub use lexer::{DataToken, Lexeme, Token};
