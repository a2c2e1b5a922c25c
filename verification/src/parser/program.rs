//! A whole program: declarations, then statements, then the end of input.

use crate::lexer::{terminated, token_at, RawToken, Token, TokenView};
use crate::parser::decls::{decls_at, decls_view, DeclView, Decls};
use crate::parser::stmts::{stmts_at, stmts_view, StmtView, Stmts};
use crate::parser::SyntaxError;
use crate::parser::pretty::program_text;
use vstd::string::StringExecFns;
use vstd::prelude::*;

verus! {

/// A program. Either block may be absent.
#[derive(Debug, PartialEq, Eq)]
pub struct Program {
    pub decls: Option<Box<Decls>>,
    pub stmts: Option<Box<Stmts>>,
}

/// The mathematical value of a program: its declarations and its
/// statements, in order.
pub struct ProgramView {
    pub decls: Seq<DeclView>,
    pub stmts: Seq<StmtView>,
}

impl View for Program {
    type V = ProgramView;

    open spec fn view(&self) -> ProgramView {
        ProgramView { decls: decls_view(self.decls), stmts: stmts_view(self.stmts) }
    }
}

/// The program that starts at position `p`, with the position of the end of
/// input that closes it: the declarations at `p`, the statements after them,
/// and then the end of input.
pub open spec fn program_at(ts: Seq<TokenView>, p: int) -> Result<(ProgramView, int), SyntaxError> {
    match decls_at(ts, p) {
        Err(e) => Err(e),
        Ok((decls, mid)) => match stmts_at(ts, mid) {
            Err(e) => Err(e),
            Ok((stmts, end)) => {
                if token_at(ts, end).kind == RawToken::EOF {
                    Ok((ProgramView { decls, stmts }, end))
                } else {
                    Err(SyntaxError::UnexpectedToken)
                }
            },
        },
    }
}

impl Program {
    /// Parses the program that starts at position `x` and moves `x` to the
    /// end of input that follows it. On an error `x` stays where it was.
    pub fn new(lex: &Vec<Token>, x: &mut usize) -> (r: Result<Program, SyntaxError>)
        requires
            terminated(lex.deep_view()),
            *old(x) < lex.len(),
        ensures
            *old(x) <= *final(x) < lex.len(),
            match program_at(lex.deep_view(), *old(x) as int) {
                Ok((program, end)) => r matches Ok(p) && p@ == program && *final(x) == end,
                Err(e) => r matches Err(f) && f == e && *final(x) == *old(x),
            },
    {
        let save: usize = *x;
        let ghost ts = lex.deep_view();
        let decls = match Decls::new(lex, x) {
            Ok(decls) => decls,
            Err(e) => {
                return Err(e);
            },
        };
        let stmts = match Stmts::new(lex, x) {
            Ok(stmts) => stmts,
            Err(e) => {
                *x = save;
                return Err(e);
            },
        };
        assert(ts[*x as int] == lex@[*x as int]@);
        match &lex[*x] {
            Token::EOF => Ok(Program { decls, stmts }),
            _ => {
                *x = save;
                Err(SyntaxError::UnexpectedToken)
            },
        }
    }
}

impl Program {
    /// The canonical text of this program.
    pub fn to_string(&self) -> (r: String)
        ensures
            r@ == program_text(self@),
    {
        let mut out = "Program {\n".to_owned();
        match &self.decls {
            None => {},
            Some(decls) => {
                out.append(decls.to_string().as_str());
            },
        }
        match &self.stmts {
            None => {},
            Some(stmts) => {
                out.append(stmts.to_string().as_str());
            },
        }
        out.append("\n}");
        out
    }
}

} // verus!
