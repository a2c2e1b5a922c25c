//! The canonical text of a program.

use crate::parser::decls::DeclView;
use crate::parser::expr::{ExprDataView, ExprView, Operation};
use crate::parser::program::ProgramView;
use crate::parser::stmts::{ControlType, StmtView};
use crate::parser::var::Var;
use crate::text::int_text;
use vstd::prelude::*;

verus! {

/// The keyword of a declared type.
pub open spec fn var_text(ty: Var) -> Seq<char> {
    match ty {
        Var::Bool => "bool"@,
        Var::Str => "str"@,
        Var::Int => "int"@,
    }
}

/// The symbol of an operator, as it stands in the source.
pub open spec fn operation_text(op: Operation) -> Seq<char> {
    match op {
        Operation::Equals => "=="@,
        Operation::Times => "*"@,
        Operation::Plus => "+"@,
        Operation::GT => ">"@,
        Operation::LT => "<"@,
    }
}

/// The keyword of a control statement.
pub open spec fn control_text(kind: ControlType) -> Seq<char> {
    match kind {
        ControlType::If => "if"@,
        ControlType::While => "while"@,
    }
}

/// A leaf prints as what it holds: the number in decimal, the text of the
/// string, or the name.
pub open spec fn leaf_text(data: ExprDataView) -> Seq<char> {
    match data {
        ExprDataView::StrLit(s) => s,
        ExprDataView::IntLit(n) => int_text(n as int),
        ExprDataView::Name(s) => s,
    }
}

/// An expression prints as its leaf, or as `(L OP R)`.
pub open spec fn expr_text(e: ExprView) -> Seq<char>
    decreases e,
{
    match e {
        ExprView::Unary(data) => leaf_text(data),
        ExprView::Binary(left, right, op) => "("@ + expr_text(*left) + " "@ + operation_text(op)
            + " "@ + expr_text(*right) + ")"@,
    }
}

/// A declaration prints as `TYPE name = expr`.
pub open spec fn decl_text(d: DeclView) -> Seq<char> {
    var_text(d.ty) + " "@ + d.name + " = "@ + expr_text(d.expr)
}

/// A list of declarations prints each one followed by a line break; every
/// declaration but the last adds one more line break after the rest of the
/// list.
pub open spec fn decls_text(ds: Seq<DeclView>) -> Seq<char>
    decreases ds.len(),
{
    if ds.len() == 0 {
        Seq::empty()
    } else if ds.len() == 1 {
        decl_text(ds[0]) + "\n"@
    } else {
        decl_text(ds[0]) + "\n"@ + decls_text(ds.drop_first()) + "\n"@
    }
}

/// A statement prints as `print(E)`, as `assign N = E`, or as `if(E){…}` or
/// `while(E){…}` with the declarations and the statements of the body
/// between the braces.
pub open spec fn stmt_text(s: StmtView) -> Seq<char>
    decreases s,
{
    match s {
        StmtView::Print(e) => "print("@ + expr_text(e) + ")"@,
        StmtView::Assign(name, e) => "assign "@ + name + " = "@ + expr_text(e),
        StmtView::Control(kind, cond, decls, stmts) => control_text(kind) + "("@ + expr_text(cond)
            + "){"@ + decls_text(decls) + stmts_text(stmts) + "}"@,
    }
}

/// A list of statements prints like a list of declarations: each statement
/// followed by a line break, and one more line break after the rest of the
/// list for every statement but the last.
pub open spec fn stmts_text(ss: Seq<StmtView>) -> Seq<char>
    decreases ss,
{
    if ss.len() == 0 {
        Seq::empty()
    } else if ss.len() == 1 {
        stmt_text(ss[0]) + "\n"@
    } else {
        stmt_text(ss[0]) + "\n"@ + stmts_text(ss.drop_first()) + "\n"@
    }
}

/// A program prints as its declarations and its statements between
/// `Program {` and `}`, each on a line of its own.
pub open spec fn program_text(p: ProgramView) -> Seq<char> {
    "Program {\n"@ + decls_text(p.decls) + stmts_text(p.stmts) + "\n}"@
}

} // verus!
