//! The stages in a row: from source text to the tree and to the lowered
//! function, with the error of the first stage that fails.

use crate::code_gen::compile::Lowering;
use crate::code_gen::ir::{Function, FunctionView};
use crate::code_gen::lower::lower_program;
use crate::code_gen::CodeGenError;
use crate::lexer::{lex, LexError, Lexer};
use crate::parser::program::{program_at, Program, ProgramView};
use crate::parser::SyntaxError;
use vstd::prelude::*;

verus! {

/// The error of the stage that failed.
#[derive(Debug, Clone, Copy, PartialEq, Eq, Structural)]
pub enum CompileError {
    Lex(LexError),
    Syntax(SyntaxError),
    CodeGen(CodeGenError),
}

/// The tree of the program that `src` holds.
pub open spec fn parsed(src: Seq<char>) -> Result<ProgramView, CompileError> {
    match lex(src) {
        Err(e) => Err(CompileError::Lex(e)),
        Ok(ts) => match program_at(ts, 0) {
            Err(e) => Err(CompileError::Syntax(e)),
            Ok((program, _)) => Ok(program),
        },
    }
}

/// The tree and the lowered function of the program that `src` holds.
pub open spec fn compiled(src: Seq<char>) -> Result<(ProgramView, FunctionView), CompileError> {
    match parsed(src) {
        Err(e) => Err(e),
        Ok(program) => match lower_program(program) {
            Err(e) => Err(CompileError::CodeGen(e)),
            Ok(function) => Ok((program, function)),
        },
    }
}

impl CompileError {
    /// The text of the diagnostic: it names the stage that failed.
    pub open spec fn diagnostic_text(self) -> Seq<char> {
        match self {
            CompileError::Lex(_) => "lexical error"@,
            CompileError::Syntax(_) => "syntax error"@,
            CompileError::CodeGen(_) => "code generation error"@,
        }
    }

    /// The diagnostic to print for this error.
    pub fn diagnostic(&self) -> (r: &'static str)
        ensures
            r@ == self.diagnostic_text(),
    {
        match self {
            CompileError::Lex(_) => "lexical error",
            CompileError::Syntax(_) => "syntax error",
            CompileError::CodeGen(_) => "code generation error",
        }
    }
}

/// Lexes and parses `source`.
pub fn parse_source(lexer: &Lexer, source: String) -> (r: Result<Program, CompileError>)
    ensures
        match parsed(source@) {
            Ok(program) => r matches Ok(p) && p@ == program,
            Err(e) => r matches Err(f) && f == e,
        },
{
    let lexeme = match lexer.tokenize(source) {
        Ok(lexeme) => lexeme,
        Err(e) => {
            return Err(CompileError::Lex(e));
        },
    };
    let mut lex_p: usize = 0;
    match Program::new(&lexeme, &mut lex_p) {
        Ok(program) => Ok(program),
        Err(e) => Err(CompileError::Syntax(e)),
    }
}

/// Lexes, parses and lowers `source`.
pub fn compile_source(lexer: &Lexer, source: String) -> (r: Result<(Program, Function), CompileError>)
    ensures
        match compiled(source@) {
            Ok((program, function)) => r matches Ok((p, f)) && p@ == program && f@ == function,
            Err(e) => r matches Err(f) && f == e,
        },
{
    let program = parse_source(lexer, source)?;
    match Lowering::compile_program(&program) {
        Ok(function) => Ok((program, function)),
        Err(e) => Err(CompileError::CodeGen(e)),
    }
}

} // verus!
