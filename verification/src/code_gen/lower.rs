//! The lowering rules: what the code generator builds for each construct of
//! the tree.

use crate::code_gen::ir::{FunctionView, Inst, Label, Predicate, StepView, Value};
use crate::code_gen::CodeGenError;
use crate::parser::decls::DeclView;
use crate::parser::expr::{ExprDataView, ExprView, Operation};
use crate::parser::program::ProgramView;
use crate::parser::stmts::{ControlType, StmtView};
use crate::parser::var::Var;
use vstd::prelude::*;

verus! {

/// The state of the code generator: the blocks created and the steps built
/// so far, the block that new steps are appended to, and the slot of every
/// name declared so far.
pub struct GenView {
    pub blocks: Seq<Label>,
    pub code: Seq<StepView>,
    pub current: usize,
    pub vars: Map<Seq<char>, usize>,
}

impl GenView {
    /// The state before anything is built.
    pub open spec fn fresh() -> GenView {
        GenView { blocks: Seq::empty(), code: Seq::empty(), current: 0, vars: Map::empty() }
    }

    /// The number that the next step will have.
    pub open spec fn next(self) -> usize {
        self.code.len() as usize
    }

    /// The position that the next block will have.
    pub open spec fn next_block(self) -> usize {
        self.blocks.len() as usize
    }

    /// Appends `inst` to the current block.
    pub open spec fn emit(self, inst: Inst, name: Seq<char>) -> GenView {
        GenView { code: self.code.push(StepView { block: self.current, inst, name }), ..self }
    }

    /// Creates a block after the blocks there are.
    pub open spec fn append_block(self, label: Label) -> GenView {
        GenView { blocks: self.blocks.push(label), ..self }
    }

    /// Makes `block` the block that new steps are appended to.
    pub open spec fn position_at_end(self, block: usize) -> GenView {
        GenView { current: block, ..self }
    }

    /// Binds `name` to the slot that step `slot` reserved.
    pub open spec fn bind(self, name: Seq<char>, slot: usize) -> GenView {
        GenView { vars: self.vars.insert(name, slot), ..self }
    }

    /// Whether this state holds the blocks and the steps of `earlier`, each
    /// in its place.
    pub open spec fn keeps(self, earlier: GenView) -> bool {
        &&& earlier.code.len() <= self.code.len()
        &&& earlier.blocks.len() <= self.blocks.len()
        &&& forall|i: int| 0 <= i < earlier.code.len() ==> self.code[i] == earlier.code[i]
        &&& forall|i: int| 0 <= i < earlier.blocks.len() ==> self.blocks[i] == earlier.blocks[i]
    }
}

/// A comparison, widened to 16 bits: the result is 0 or 1.
pub open spec fn lower_comparison(g: GenView, pred: Predicate, left: Value, right: Value) -> (
    GenView,
    Value,
) {
    let compared = g.emit(Inst::Compare { pred, left, right }, "tmp"@);
    (
        compared.emit(Inst::Extend { value: Value::Temp(g.next()) }, "cast"@),
        Value::Temp(compared.next()),
    )
}

/// An operator applied to two values: `+` adds, `*` multiplies, and `==`,
/// `>` and `<` compare as signed integers and widen the result.
pub open spec fn lower_operation(g: GenView, op: Operation, left: Value, right: Value) -> (
    GenView,
    Value,
) {
    match op {
        Operation::Plus => (g.emit(Inst::Add { left, right }, "tmp"@), Value::Temp(g.next())),
        Operation::Times => (g.emit(Inst::Mul { left, right }, "tmp"@), Value::Temp(g.next())),
        Operation::Equals => lower_comparison(g, Predicate::Equal, left, right),
        Operation::GT => lower_comparison(g, Predicate::Greater, left, right),
        Operation::LT => lower_comparison(g, Predicate::Less, left, right),
    }
}

/// An expression: an integer literal is a constant, a name is a load from
/// its slot, and an operator is applied to the value of its left operand and
/// then that of its right one. A string literal has no lowering, and a name
/// must have been declared.
pub open spec fn lower_expr(g: GenView, e: ExprView) -> Result<(GenView, Value), CodeGenError>
    decreases e,
{
    match e {
        ExprView::Unary(ExprDataView::StrLit(_)) => Err(CodeGenError::Unimplemented),
        ExprView::Unary(ExprDataView::IntLit(n)) => Ok((g, Value::Const(n))),
        ExprView::Unary(ExprDataView::Name(name)) => {
            if g.vars.contains_key(name) {
                Ok((g.emit(Inst::Load { slot: g.vars[name] }, name), Value::Temp(g.next())))
            } else {
                Err(CodeGenError::MissingSymbol)
            }
        },
        ExprView::Binary(left, right, op) => match lower_expr(g, *left) {
            Err(e) => Err(e),
            Ok((g1, l)) => match lower_expr(g1, *right) {
                Err(e) => Err(e),
                Ok((g2, r)) => Ok(lower_operation(g2, op, l, r)),
            },
        },
    }
}

/// A declaration: a slot named after the variable, then the initializer,
/// then a store of its value to the slot; from then on the name stands for
/// that slot. Only `int` has a lowering.
pub open spec fn lower_decl(g: GenView, d: DeclView) -> Result<GenView, CodeGenError> {
    match d.ty {
        Var::Int => match lower_expr(g.emit(Inst::Alloca, d.name), d.expr) {
            Err(e) => Err(e),
            Ok((g1, value)) => Ok(
                g1.emit(Inst::Store { slot: g.next(), value }, ""@).bind(d.name, g.next()),
            ),
        },
        _ => Err(CodeGenError::Unimplemented),
    }
}

/// Declarations are lowered in order.
pub open spec fn lower_decls(g: GenView, ds: Seq<DeclView>) -> Result<GenView, CodeGenError>
    decreases ds.len(),
{
    if ds.len() == 0 {
        Ok(g)
    } else {
        match lower_decl(g, ds[0]) {
            Err(e) => Err(e),
            Ok(g1) => lower_decls(g1, ds.drop_first()),
        }
    }
}

/// The end of an `if`: the body goes to `cont`, the empty else block goes to
/// `cont`, and what follows is built in `cont`.
pub open spec fn close_if(g: GenView, else_bb: usize, cont_bb: usize) -> GenView {
    g.emit(Inst::Br { target: cont_bb }, ""@).position_at_end(else_bb).emit(
        Inst::Br { target: cont_bb },
        ""@,
    ).position_at_end(cont_bb)
}

/// A statement.
///
/// `print` lowers its expression and calls the runtime with the value. An
/// assignment looks up the slot of its name, lowers its expression and
/// stores the value.
///
/// `if` lowers the condition and tests it against zero. It creates the
/// blocks `then`, `else` and `cont`, branches to `then` if the condition is
/// not zero and to `else` if it is, and builds the body in `then`.
///
/// `while` creates the blocks `loop body` and `afterloop` and goes to the
/// body. At the end of the body it lowers the condition, tests it against
/// zero, and branches to `afterloop` if it is zero and back to the body if
/// not. So the body runs once before the condition is first looked at.
pub open spec fn lower_stmt(g: GenView, s: StmtView) -> Result<GenView, CodeGenError>
    decreases s,
{
    match s {
        StmtView::Print(e) => match lower_expr(g, e) {
            Err(e) => Err(e),
            Ok((g1, value)) => Ok(g1.emit(Inst::Call { value }, "tmp"@)),
        },
        StmtView::Assign(name, e) => {
            if g.vars.contains_key(name) {
                match lower_expr(g, e) {
                    Err(e) => Err(e),
                    Ok((g1, value)) => Ok(
                        g1.emit(Inst::Store { slot: g.vars[name], value }, ""@),
                    ),
                }
            } else {
                Err(CodeGenError::MissingSymbol)
            }
        },
        StmtView::Control(ControlType::If, cond, decls, stmts) => match lower_expr(g, cond) {
            Err(e) => Err(e),
            Ok((g1, value)) => {
                let tested = g1.emit(
                    Inst::Compare { pred: Predicate::NotEqual, left: value, right: Value::Const(0) },
                    "if"@,
                );
                let then_bb = tested.next_block();
                let else_bb = (then_bb + 1) as usize;
                let cont_bb = (then_bb + 2) as usize;
                let branched = tested.append_block(Label::Then).append_block(
                    Label::Else,
                ).append_block(Label::Cont).emit(
                    Inst::CondBr { cond: Value::Temp(g1.next()), then_to: then_bb, else_to: else_bb },
                    ""@,
                ).position_at_end(then_bb);
                match lower_decls(branched, decls) {
                    Err(e) => Err(e),
                    Ok(g2) => match lower_stmts(g2, stmts) {
                        Err(e) => Err(e),
                        Ok(g3) => Ok(close_if(g3, else_bb, cont_bb)),
                    },
                }
            },
        },
        StmtView::Control(ControlType::While, cond, decls, stmts) => {
            let loop_bb = g.next_block();
            let after_bb = (loop_bb + 1) as usize;
            let entered = g.append_block(Label::LoopBody).append_block(Label::AfterLoop).emit(
                Inst::Br { target: loop_bb },
                ""@,
            ).position_at_end(loop_bb);
            match lower_decls(entered, decls) {
                Err(e) => Err(e),
                Ok(g1) => match lower_stmts(g1, stmts) {
                    Err(e) => Err(e),
                    Ok(g2) => match lower_expr(g2, cond) {
                        Err(e) => Err(e),
                        Ok((g3, value)) => Ok(
                            g3.emit(
                                Inst::Compare {
                                    pred: Predicate::Equal,
                                    left: value,
                                    right: Value::Const(0),
                                },
                                "if"@,
                            ).emit(
                                Inst::CondBr {
                                    cond: Value::Temp(g3.next()),
                                    then_to: after_bb,
                                else_to: loop_bb,
                                },
                                ""@,
                            ).position_at_end(after_bb),
                        ),
                    },
                },
            }
        },
    }
}

/// Statements are lowered in order.
pub open spec fn lower_stmts(g: GenView, ss: Seq<StmtView>) -> Result<GenView, CodeGenError>
    decreases ss,
{
    if ss.len() == 0 {
        Ok(g)
    } else {
        match lower_stmt(g, ss[0]) {
            Err(e) => Err(e),
            Ok(g1) => lower_stmts(g1, ss.drop_first()),
        }
    }
}

/// The state in which the body of the function starts: one block, `entry`,
/// that new steps are appended to.
pub open spec fn entered() -> GenView {
    GenView::fresh().append_block(Label::Entry).position_at_end(0)
}

/// A program: the block `entry`, the declarations, the statements, and a
/// return.
pub open spec fn lower_program(p: ProgramView) -> Result<FunctionView, CodeGenError> {
    match lower_decls(entered(), p.decls) {
        Err(e) => Err(e),
        Ok(g1) => match lower_stmts(g1, p.stmts) {
            Err(e) => Err(e),
            Ok(g2) => Ok(
                FunctionView { blocks: g2.blocks, code: g2.emit(Inst::Ret, ""@).code },
            ),
        },
    }
}

} // verus!
