//! What holds of everything that the code generator builds.

use crate::code_gen::ir::{Inst, Label, Predicate, StepView, Value};
use crate::code_gen::lower::{
    entered, lower_comparison, lower_decl, lower_decls, lower_expr, lower_operation, lower_program,
    lower_stmt, lower_stmts, GenView,
};
use crate::code_gen::shape::{
    int_in, is_closed, is_empty, is_open, lemma_empty_is_open, lemma_more_blocks,
    lemma_push_elsewhere, lemma_push_plain, lemma_push_step, lemma_push_terminator, no_return,
    slot_in, step_ok, steps_ok,
};
use crate::parser::decls::DeclView;
use crate::parser::expr::{ExprDataView, ExprView, Operation};
use crate::parser::program::ProgramView;
use crate::parser::stmts::{ControlType, StmtView};
use vstd::prelude::*;

verus! {

/// What block `b` must look like while the code generator works: the
/// current block is open, a block that was created for later is still
/// without steps, and every other block is closed.
pub open spec fn block_ok(g: GenView, pending: Set<usize>, b: usize) -> bool {
    if b == g.current {
        is_open(g.code, b)
    } else if pending.contains(b) {
        is_empty(g.code, b)
    } else {
        is_closed(g.code, b)
    }
}

/// The state of the code generator is sound: steps and blocks can be
/// numbered, the current block is a block of the function that is not kept
/// for later, every step is in order, every name stands for a slot, and
/// every block looks as it must.
pub open spec fn sound(g: GenView, pending: Set<usize>) -> bool {
    &&& g.code.len() <= usize::MAX
    &&& g.blocks.len() <= usize::MAX
    &&& g.current < g.blocks.len()
    &&& !pending.contains(g.current)
    &&& forall|b: usize| pending.contains(b) ==> b < g.blocks.len()
    &&& steps_ok(g.code, g.blocks.len() as int)
    &&& forall|name: Seq<char>| #[trigger]
        g.vars.contains_key(name) ==> slot_in(g.code, g.vars[name], g.code.len() as int)
    &&& forall|b: usize| b < g.blocks.len() ==> #[trigger] block_ok(g, pending, b)
}

/// `more` starts with the steps of `code`.
pub open spec fn extends(code: Seq<StepView>, more: Seq<StepView>) -> bool {
    &&& code.len() <= more.len()
    &&& forall|i: int| 0 <= i < code.len() ==> code[i] == more[i]
}

/// A step that is in order and no terminator keeps the state sound.
pub proof fn lemma_emit_plain(g: GenView, pending: Set<usize>, inst: Inst, name: Seq<char>)
    requires
        sound(g, pending),
        g.code.len() < usize::MAX,
        !inst.is_terminator(),
        step_ok(g.emit(inst, name).code, g.blocks.len() as int, g.code.len() as int),
    ensures
        sound(g.emit(inst, name), pending),
{
    let step = StepView { block: g.current, inst, name };
    let after = g.emit(inst, name);
    lemma_push_step(g.code, g.blocks.len() as int, step);
    assert forall|b: usize| b < after.blocks.len() implies #[trigger] block_ok(after, pending, b) by {
        assert(block_ok(g, pending, b));
        if b == g.current {
            lemma_push_plain(g.code, step);
        } else {
            lemma_push_elsewhere(g.code, step, b);
        }
    }
}

/// A terminator that is in order closes the current block; the state stays
/// sound when the code generator moves on to a block that was kept for
/// later.
pub proof fn lemma_emit_terminator(
    g: GenView,
    pending: Set<usize>,
    inst: Inst,
    name: Seq<char>,
    next: usize,
)
    requires
        sound(g, pending),
        g.code.len() < usize::MAX,
        inst.is_terminator(),
        step_ok(g.emit(inst, name).code, g.blocks.len() as int, g.code.len() as int),
        pending.contains(next),
    ensures
        sound(g.emit(inst, name).position_at_end(next), pending.remove(next)),
{
    let step = StepView { block: g.current, inst, name };
    let after = g.emit(inst, name).position_at_end(next);
    let fewer = pending.remove(next);
    lemma_push_step(g.code, g.blocks.len() as int, step);
    assert forall|b: usize| b < after.blocks.len() implies #[trigger] block_ok(after, fewer, b) by {
        assert(block_ok(g, pending, b));
        if b == g.current {
            lemma_push_terminator(g.code, step);
        } else {
            lemma_push_elsewhere(g.code, step, b);
            if b == next {
                lemma_empty_is_open(after.code, b);
            }
        }
    }
}

/// A new block is kept for later; the state stays sound.
pub proof fn lemma_append_block(g: GenView, pending: Set<usize>, label: Label)
    requires
        sound(g, pending),
        g.blocks.len() < usize::MAX,
    ensures
        sound(g.append_block(label), pending.insert(g.next_block())),
        g.append_block(label).next_block() == g.next_block() + 1,
{
    let after = g.append_block(label);
    let more = pending.insert(g.next_block());
    lemma_more_blocks(g.code, g.blocks.len() as int, after.blocks.len() as int);
    assert forall|b: usize| b < after.blocks.len() implies #[trigger] block_ok(after, more, b) by {
        if b < g.blocks.len() {
            assert(block_ok(g, pending, b));
        } else {
            assert forall|t: int| 0 <= t < g.code.len() implies (#[trigger] g.code[t]).block != b by {
                assert(step_ok(g.code, g.blocks.len() as int, t));
            }
        }
    }
}

/// A name bound to a slot keeps the state sound.
pub proof fn lemma_bind(g: GenView, pending: Set<usize>, name: Seq<char>, slot: usize)
    requires
        sound(g, pending),
        slot_in(g.code, slot, g.code.len() as int),
    ensures
        sound(g.bind(name, slot), pending),
{
    let after = g.bind(name, slot);
    assert forall|b: usize| b < after.blocks.len() implies #[trigger] block_ok(after, pending, b) by {
        assert(block_ok(g, pending, b));
    }
}

/// Lowering an expression only adds steps.
pub proof fn lemma_expr_grows(g: GenView, e: ExprView)
    ensures
        lower_expr(g, e) matches Ok((g1, _)) ==> g.code.len() <= g1.code.len() && g1.blocks
            == g.blocks,
    decreases e,
{
    match e {
        ExprView::Binary(left, right, op) => {
            lemma_expr_grows(g, *left);
            if let Ok((g1, l)) = lower_expr(g, *left) {
                lemma_expr_grows(g1, *right);
            }
        },
        _ => {},
    }
}

/// Lowering an expression keeps the state sound. It adds steps to the
/// current block and leaves everything else as it was, and the value that
/// it gives is an integer that the next step of the current block may use.
pub proof fn lemma_expr_sound(g: GenView, e: ExprView, pending: Set<usize>)
    requires
        sound(g, pending),
        lower_expr(g, e) matches Ok((g1, _)) && g1.code.len() <= usize::MAX,
    ensures
        lower_expr(g, e) matches Ok((g1, value)) && {
            &&& sound(g1, pending)
            &&& g1.blocks == g.blocks
            &&& g1.current == g.current
            &&& g1.vars == g.vars
            &&& extends(g.code, g1.code)
            &&& int_in(g1.code, value, g.current, g1.code.len() as int)
        },
    decreases e,
{
    match e {
        ExprView::Unary(ExprDataView::StrLit(_)) => {},
        ExprView::Unary(ExprDataView::IntLit(_)) => {},
        ExprView::Unary(ExprDataView::Name(name)) => {
            assert(g.vars.contains_key(name));
            lemma_emit_plain(g, pending, Inst::Load { slot: g.vars[name] }, name);
        },
        ExprView::Binary(left, right, op) => {
            let (g1, l) = lower_expr(g, *left)->Ok_0;
            let (g2, r) = lower_expr(g1, *right)->Ok_0;
            lemma_expr_grows(g1, *right);
            lemma_operation_sound(g2, op, l, r, pending);
            lemma_expr_sound(g, *left, pending);
            lemma_expr_sound(g1, *right, pending);
        },
    }
}

/// Lowering an operator keeps the state sound, adds steps to the current
/// block only, and gives an integer that the next step of the current block
/// may use.
pub proof fn lemma_operation_sound(
    g: GenView,
    op: Operation,
    left: Value,
    right: Value,
    pending: Set<usize>,
)
    ensures
        g.code.len() <= lower_operation(g, op, left, right).0.code.len(),
        sound(g, pending) && int_in(g.code, left, g.current, g.code.len() as int) && int_in(
            g.code,
            right,
            g.current,
            g.code.len() as int,
        ) && lower_operation(g, op, left, right).0.code.len() <= usize::MAX ==> {
            let (g1, value) = lower_operation(g, op, left, right);
            &&& sound(g1, pending)
            &&& g1.blocks == g.blocks
            &&& g1.current == g.current
            &&& g1.vars == g.vars
            &&& extends(g.code, g1.code)
            &&& int_in(g1.code, value, g.current, g1.code.len() as int)
        },
{
    if sound(g, pending) && int_in(g.code, left, g.current, g.code.len() as int) && int_in(
        g.code,
        right,
        g.current,
        g.code.len() as int,
    ) && lower_operation(g, op, left, right).0.code.len() <= usize::MAX {
        match op {
            Operation::Plus => {
                lemma_emit_plain(g, pending, Inst::Add { left, right }, "tmp"@);
            },
            Operation::Times => {
                lemma_emit_plain(g, pending, Inst::Mul { left, right }, "tmp"@);
            },
            Operation::Equals => {
                lemma_comparison_sound(g, Predicate::Equal, left, right, pending);
            },
            Operation::GT => {
                lemma_comparison_sound(g, Predicate::Greater, left, right, pending);
            },
            Operation::LT => {
                lemma_comparison_sound(g, Predicate::Less, left, right, pending);
            },
        }
    }
}

/// Lowering a comparison keeps the state sound, adds steps to the current
/// block only, and gives an integer that the next step may use.
proof fn lemma_comparison_sound(
    g: GenView,
    pred: Predicate,
    left: Value,
    right: Value,
    pending: Set<usize>,
)
    requires
        sound(g, pending),
        int_in(g.code, left, g.current, g.code.len() as int),
        int_in(g.code, right, g.current, g.code.len() as int),
        g.code.len() + 2 <= usize::MAX,
    ensures
        ({
            let (g1, value) = lower_comparison(g, pred, left, right);
            &&& sound(g1, pending)
            &&& g1.blocks == g.blocks
            &&& g1.current == g.current
            &&& g1.vars == g.vars
            &&& extends(g.code, g1.code)
            &&& int_in(g1.code, value, g.current, g1.code.len() as int)
        }),
{
    let compared = g.emit(Inst::Compare { pred, left, right }, "tmp"@);
    lemma_emit_plain(g, pending, Inst::Compare { pred, left, right }, "tmp"@);
    lemma_emit_plain(compared, pending, Inst::Extend { value: Value::Temp(g.next()) }, "cast"@);
}

/// The state `g1` holds at least the steps and the blocks of `g`.
pub open spec fn grows(g: GenView, g1: GenView) -> bool {
    g.code.len() <= g1.code.len() && g.blocks.len() <= g1.blocks.len()
}

/// Lowering a declaration only adds steps and blocks.
pub proof fn lemma_decl_grows(g: GenView, d: DeclView)
    ensures
        lower_decl(g, d) matches Ok(g1) ==> grows(g, g1),
{
    lemma_expr_grows(g.emit(Inst::Alloca, d.name), d.expr);
}

/// Lowering declarations only adds steps and blocks.
pub proof fn lemma_decls_grow(g: GenView, ds: Seq<DeclView>)
    ensures
        lower_decls(g, ds) matches Ok(g1) ==> grows(g, g1),
    decreases ds.len(),
{
    if ds.len() > 0 {
        lemma_decl_grows(g, ds[0]);
        if let Ok(g1) = lower_decl(g, ds[0]) {
            lemma_decls_grow(g1, ds.drop_first());
        }
    }
}

/// Lowering a statement only adds steps and blocks.
pub proof fn lemma_stmt_grows(g: GenView, s: StmtView)
    ensures
        lower_stmt(g, s) matches Ok(g1) ==> grows(g, g1),
    decreases s,
{
    match s {
        StmtView::Print(e) => {
            lemma_expr_grows(g, e);
        },
        StmtView::Assign(name, e) => {
            lemma_expr_grows(g, e);
        },
        StmtView::Control(ControlType::If, cond, decls, stmts) => {
            lemma_expr_grows(g, cond);
            if let Ok((g1, value)) = lower_expr(g, cond) {
                let tested = g1.emit(
                    Inst::Compare { pred: Predicate::NotEqual, left: value, right: Value::Const(0) },
                    "if"@,
                );
                let then_bb = tested.next_block();
                let else_bb = (then_bb + 1) as usize;
                let branched = tested.append_block(Label::Then).append_block(
                    Label::Else,
                ).append_block(Label::Cont).emit(
                    Inst::CondBr { cond: Value::Temp(g1.next()), then_to: then_bb, else_to: else_bb },
                    ""@,
                ).position_at_end(then_bb);
                lemma_decls_grow(branched, decls);
                if let Ok(g2) = lower_decls(branched, decls) {
                    lemma_stmts_grow(g2, stmts);
                }
            }
        },
        StmtView::Control(ControlType::While, cond, decls, stmts) => {
            let loop_bb = g.next_block();
            let entered = g.append_block(Label::LoopBody).append_block(Label::AfterLoop).emit(
                Inst::Br { target: loop_bb },
                ""@,
            ).position_at_end(loop_bb);
            lemma_decls_grow(entered, decls);
            if let Ok(g1) = lower_decls(entered, decls) {
                lemma_stmts_grow(g1, stmts);
                if let Ok(g2) = lower_stmts(g1, stmts) {
                    lemma_expr_grows(g2, cond);
                }
            }
        },
    }
}

/// Lowering statements only adds steps and blocks.
pub proof fn lemma_stmts_grow(g: GenView, ss: Seq<StmtView>)
    ensures
        lower_stmts(g, ss) matches Ok(g1) ==> grows(g, g1),
    decreases ss,
{
    if ss.len() > 0 {
        lemma_stmt_grows(g, ss[0]);
        if let Ok(g1) = lower_stmt(g, ss[0]) {
            lemma_stmts_grow(g1, ss.drop_first());
        }
    }
}

/// Lowering a declaration keeps the state sound and stays in the current
/// block.
pub proof fn lemma_decl_sound(g: GenView, d: DeclView, pending: Set<usize>)
    requires
        sound(g, pending),
        lower_decl(g, d) matches Ok(g1) && g1.code.len() <= usize::MAX,
    ensures
        lower_decl(g, d) matches Ok(g1) && sound(g1, pending) && g1.blocks == g.blocks
            && g1.current == g.current,
{
    let reserved = g.emit(Inst::Alloca, d.name);
    lemma_expr_grows(reserved, d.expr);
    lemma_emit_plain(g, pending, Inst::Alloca, d.name);
    lemma_expr_sound(reserved, d.expr, pending);
    let (g1, value) = lower_expr(reserved, d.expr)->Ok_0;
    assert(reserved.code[g.code.len() as int].inst is Alloca);
    lemma_emit_plain(g1, pending, Inst::Store { slot: g.next(), value }, ""@);
    lemma_bind(g1.emit(Inst::Store { slot: g.next(), value }, ""@), pending, d.name, g.next());
}

/// Lowering declarations keeps the state sound and stays in the current
/// block.
pub proof fn lemma_decls_sound(g: GenView, ds: Seq<DeclView>, pending: Set<usize>)
    requires
        sound(g, pending),
        lower_decls(g, ds) matches Ok(g1) && g1.code.len() <= usize::MAX,
    ensures
        lower_decls(g, ds) matches Ok(g1) && sound(g1, pending) && g1.blocks == g.blocks
            && g1.current == g.current,
    decreases ds.len(),
{
    if ds.len() > 0 {
        let g1 = lower_decl(g, ds[0])->Ok_0;
        lemma_decls_grow(g1, ds.drop_first());
        lemma_decl_sound(g, ds[0], pending);
        lemma_decls_sound(g1, ds.drop_first(), pending);
    }
}

/// Lowering a statement keeps the state sound. Afterwards the current block
/// is the one it was, or a block that the statement created.
pub proof fn lemma_stmt_sound(g: GenView, s: StmtView, pending: Set<usize>)
    requires
        sound(g, pending),
        lower_stmt(g, s) matches Ok(g1) && g1.code.len() <= usize::MAX && g1.blocks.len()
            <= usize::MAX,
    ensures
        lower_stmt(g, s) matches Ok(g1) && sound(g1, pending) && (g1.current == g.current
            || g1.current >= g.blocks.len()),
    decreases s,
{
    match s {
        StmtView::Print(e) => {
            lemma_expr_sound(g, e, pending);
            let (g1, value) = lower_expr(g, e)->Ok_0;
            lemma_emit_plain(g1, pending, Inst::Call { value }, "tmp"@);
        },
        StmtView::Assign(name, e) => {
            lemma_expr_sound(g, e, pending);
            let (g1, value) = lower_expr(g, e)->Ok_0;
            assert(g.vars.contains_key(name));
            lemma_emit_plain(g1, pending, Inst::Store { slot: g.vars[name], value }, ""@);
        },
        StmtView::Control(ControlType::If, cond, decls, stmts) => {
            let (g1, value) = lower_expr(g, cond)->Ok_0;
            let test = Inst::Compare {
                pred: Predicate::NotEqual,
                left: value,
                right: Value::Const(0),
            };
            let tested = g1.emit(test, "if"@);
            let then_bb = tested.next_block();
            let else_bb = (then_bb + 1) as usize;
            let cont_bb = (then_bb + 2) as usize;
            let b1 = tested.append_block(Label::Then);
            let b2 = b1.append_block(Label::Else);
            let b3 = b2.append_block(Label::Cont);
            let branch = Inst::CondBr {
                cond: Value::Temp(g1.next()),
                then_to: then_bb,
                else_to: else_bb,
            };
            let branched = b3.emit(branch, ""@).position_at_end(then_bb);
            let g2 = lower_decls(branched, decls)->Ok_0;
            let g3 = lower_stmts(g2, stmts)->Ok_0;
            lemma_decls_grow(branched, decls);
            lemma_stmts_grow(g2, stmts);
            lemma_expr_sound(g, cond, pending);
            lemma_emit_plain(g1, pending, test, "if"@);
            lemma_append_block(tested, pending, Label::Then);
            let p1 = pending.insert(then_bb);
            lemma_append_block(b1, p1, Label::Else);
            let p2 = p1.insert(else_bb);
            lemma_append_block(b2, p2, Label::Cont);
            let p3 = p2.insert(cont_bb);
            lemma_emit_terminator(b3, p3, branch, ""@, then_bb);
            let inside = p3.remove(then_bb);
            lemma_decls_sound(branched, decls, inside);
            lemma_stmts_sound(g2, stmts, inside);
            let jump = Inst::Br { target: cont_bb };
            lemma_emit_terminator(g3, inside, jump, ""@, else_bb);
            let g4 = g3.emit(jump, ""@).position_at_end(else_bb);
            lemma_emit_terminator(g4, inside.remove(else_bb), jump, ""@, cont_bb);
            assert(inside.remove(else_bb).remove(cont_bb) =~= pending);
        },
        StmtView::Control(ControlType::While, cond, decls, stmts) => {
            let loop_bb = g.next_block();
            let after_bb = (loop_bb + 1) as usize;
            let b1 = g.append_block(Label::LoopBody);
            let b2 = b1.append_block(Label::AfterLoop);
            let enter = Inst::Br { target: loop_bb };
            let entered = b2.emit(enter, ""@).position_at_end(loop_bb);
            let g1 = lower_decls(entered, decls)->Ok_0;
            let g2 = lower_stmts(g1, stmts)->Ok_0;
            let (g3, value) = lower_expr(g2, cond)->Ok_0;
            let test = Inst::Compare { pred: Predicate::Equal, left: value, right: Value::Const(0) };
            let tested = g3.emit(test, "if"@);
            let branch = Inst::CondBr {
                cond: Value::Temp(g3.next()),
                then_to: after_bb,
                else_to: loop_bb,
            };
            lemma_decls_grow(entered, decls);
            lemma_stmts_grow(g1, stmts);
            lemma_expr_grows(g2, cond);
            lemma_append_block(g, pending, Label::LoopBody);
            let p1 = pending.insert(loop_bb);
            lemma_append_block(b1, p1, Label::AfterLoop);
            let p2 = p1.insert(after_bb);
            lemma_emit_terminator(b2, p2, enter, ""@, loop_bb);
            let inside = p2.remove(loop_bb);
            lemma_decls_sound(entered, decls, inside);
            lemma_stmts_sound(g1, stmts, inside);
            lemma_expr_sound(g2, cond, inside);
            lemma_emit_plain(g3, inside, test, "if"@);
            lemma_emit_terminator(tested, inside, branch, ""@, after_bb);
            assert(inside.remove(after_bb) =~= pending);
        },
    }
}

/// Lowering statements keeps the state sound. Afterwards the current block
/// is the one it was, or a block that the statements created.
pub proof fn lemma_stmts_sound(g: GenView, ss: Seq<StmtView>, pending: Set<usize>)
    requires
        sound(g, pending),
        lower_stmts(g, ss) matches Ok(g1) && g1.code.len() <= usize::MAX && g1.blocks.len()
            <= usize::MAX,
    ensures
        lower_stmts(g, ss) matches Ok(g1) && sound(g1, pending) && (g1.current == g.current
            || g1.current >= g.blocks.len()),
    decreases ss,
{
    if ss.len() > 0 {
        let g1 = lower_stmt(g, ss[0])->Ok_0;
        lemma_stmts_grow(g1, ss.drop_first());
        lemma_stmt_grows(g, ss[0]);
        lemma_stmt_sound(g, ss[0], pending);
        lemma_stmts_sound(g1, ss.drop_first(), pending);
    }
}

/// Every function that the code generator gives is well formed: each step
/// uses only what was built before it in its block, slots are reserved
/// before they are read or written, branches go to blocks of the function,
/// and every block has exactly one terminator, which is its last step.
pub proof fn lemma_lowered_well_formed(p: ProgramView)
    requires
        lower_program(p) matches Ok(f) && f.fits(),
    ensures
        lower_program(p) matches Ok(f) && f.well_formed(),
{
    let start = entered();
    let none = Set::<usize>::empty();
    assert(sound(start, none)) by {
        assert forall|b: usize| b < start.blocks.len() implies #[trigger] block_ok(start, none, b) by {
        }
    }
    let g1 = lower_decls(start, p.decls)->Ok_0;
    let g2 = lower_stmts(g1, p.stmts)->Ok_0;
    lemma_stmts_grow(g1, p.stmts);
    lemma_decls_sound(start, p.decls, none);
    lemma_stmts_sound(g1, p.stmts, none);
    let done = g2.emit(Inst::Ret, ""@);
    let step = StepView { block: g2.current, inst: Inst::Ret, name: ""@ };
    lemma_push_step(g2.code, g2.blocks.len() as int, step);
    assert forall|b: usize| b < done.blocks.len() implies #[trigger] is_closed(done.code, b) by {
        assert(block_ok(g2, none, b));
        if b == g2.current {
            lemma_push_terminator(g2.code, step);
        } else {
            lemma_push_elsewhere(g2.code, step, b);
        }
    }
}

/// Lowering an expression keeps what was built, and leaves the blocks, the
/// current block and the names as they were.
pub proof fn lemma_expr_keeps(g: GenView, e: ExprView)
    ensures
        lower_expr(g, e) matches Ok((g1, _)) ==> g1.keeps(g) && g1.blocks == g.blocks && g1.current
            == g.current && g1.vars == g.vars,
    decreases e,
{
    match e {
        ExprView::Binary(left, right, op) => {
            lemma_expr_keeps(g, *left);
            if let Ok((g1, l)) = lower_expr(g, *left) {
                lemma_expr_keeps(g1, *right);
            }
        },
        _ => {},
    }
}

/// Lowering a declaration keeps what was built.
pub proof fn lemma_decl_keeps(g: GenView, d: DeclView)
    ensures
        lower_decl(g, d) matches Ok(g1) ==> g1.keeps(g),
{
    lemma_expr_keeps(g.emit(Inst::Alloca, d.name), d.expr);
}

/// Lowering declarations keeps what was built.
pub proof fn lemma_decls_keep(g: GenView, ds: Seq<DeclView>)
    ensures
        lower_decls(g, ds) matches Ok(g1) ==> g1.keeps(g),
    decreases ds.len(),
{
    if ds.len() > 0 {
        lemma_decl_keeps(g, ds[0]);
        if let Ok(g1) = lower_decl(g, ds[0]) {
            lemma_decls_keep(g1, ds.drop_first());
        }
    }
}

/// Lowering a statement keeps what was built.
pub proof fn lemma_stmt_keeps(g: GenView, s: StmtView)
    ensures
        lower_stmt(g, s) matches Ok(g1) ==> g1.keeps(g),
    decreases s,
{
    match s {
        StmtView::Print(e) => {
            lemma_expr_keeps(g, e);
        },
        StmtView::Assign(name, e) => {
            lemma_expr_keeps(g, e);
        },
        StmtView::Control(ControlType::If, cond, decls, stmts) => {
            lemma_expr_keeps(g, cond);
            if let Ok((g1, value)) = lower_expr(g, cond) {
                let tested = g1.emit(
                    Inst::Compare { pred: Predicate::NotEqual, left: value, right: Value::Const(0) },
                    "if"@,
                );
                let then_bb = tested.next_block();
                let else_bb = (then_bb + 1) as usize;
                let branched = tested.append_block(Label::Then).append_block(
                    Label::Else,
                ).append_block(Label::Cont).emit(
                    Inst::CondBr { cond: Value::Temp(g1.next()), then_to: then_bb, else_to: else_bb },
                    ""@,
                ).position_at_end(then_bb);
                assert(branched.keeps(g));
                lemma_decls_keep(branched, decls);
                if let Ok(g2) = lower_decls(branched, decls) {
                    lemma_stmts_keep(g2, stmts);
                }
            }
        },
        StmtView::Control(ControlType::While, cond, decls, stmts) => {
            let loop_bb = g.next_block();
            let entered = g.append_block(Label::LoopBody).append_block(Label::AfterLoop).emit(
                Inst::Br { target: loop_bb },
                ""@,
            ).position_at_end(loop_bb);
            assert(entered.keeps(g));
            lemma_decls_keep(entered, decls);
            if let Ok(g1) = lower_decls(entered, decls) {
                lemma_stmts_keep(g1, stmts);
                if let Ok(g2) = lower_stmts(g1, stmts) {
                    lemma_expr_keeps(g2, cond);
                }
            }
        },
    }
}

/// Lowering statements keeps what was built.
pub proof fn lemma_stmts_keep(g: GenView, ss: Seq<StmtView>)
    ensures
        lower_stmts(g, ss) matches Ok(g1) ==> g1.keeps(g),
    decreases ss,
{
    if ss.len() > 0 {
        lemma_stmt_keeps(g, ss[0]);
        if let Ok(g1) = lower_stmt(g, ss[0]) {
            lemma_stmts_keep(g1, ss.drop_first());
        }
    }
}

/// Lowering an expression adds no return.
pub proof fn lemma_expr_no_return(g: GenView, e: ExprView)
    requires
        no_return(g.code),
    ensures
        lower_expr(g, e) matches Ok((g1, _)) ==> no_return(g1.code),
    decreases e,
{
    match e {
        ExprView::Binary(left, right, op) => {
            lemma_expr_no_return(g, *left);
            if let Ok((g1, l)) = lower_expr(g, *left) {
                lemma_expr_no_return(g1, *right);
            }
        },
        _ => {},
    }
}

/// Lowering declarations adds no return.
pub proof fn lemma_decls_no_return(g: GenView, ds: Seq<DeclView>)
    requires
        no_return(g.code),
    ensures
        lower_decls(g, ds) matches Ok(g1) ==> no_return(g1.code),
    decreases ds.len(),
{
    if ds.len() > 0 {
        lemma_expr_no_return(g.emit(Inst::Alloca, ds[0].name), ds[0].expr);
        if let Ok(g1) = lower_decl(g, ds[0]) {
            lemma_decls_no_return(g1, ds.drop_first());
        }
    }
}

/// Lowering a statement adds no return.
pub proof fn lemma_stmt_no_return(g: GenView, s: StmtView)
    requires
        no_return(g.code),
    ensures
        lower_stmt(g, s) matches Ok(g1) ==> no_return(g1.code),
    decreases s,
{
    match s {
        StmtView::Print(e) => {
            lemma_expr_no_return(g, e);
        },
        StmtView::Assign(name, e) => {
            lemma_expr_no_return(g, e);
        },
        StmtView::Control(ControlType::If, cond, decls, stmts) => {
            lemma_expr_no_return(g, cond);
            if let Ok((g1, value)) = lower_expr(g, cond) {
                let tested = g1.emit(
                    Inst::Compare { pred: Predicate::NotEqual, left: value, right: Value::Const(0) },
                    "if"@,
                );
                let then_bb = tested.next_block();
                let else_bb = (then_bb + 1) as usize;
                let branched = tested.append_block(Label::Then).append_block(
                    Label::Else,
                ).append_block(Label::Cont).emit(
                    Inst::CondBr { cond: Value::Temp(g1.next()), then_to: then_bb, else_to: else_bb },
                    ""@,
                ).position_at_end(then_bb);
                assert(no_return(branched.code));
                lemma_decls_no_return(branched, decls);
                if let Ok(g2) = lower_decls(branched, decls) {
                    lemma_stmts_no_return(g2, stmts);
                }
            }
        },
        StmtView::Control(ControlType::While, cond, decls, stmts) => {
            let loop_bb = g.next_block();
            let entered = g.append_block(Label::LoopBody).append_block(Label::AfterLoop).emit(
                Inst::Br { target: loop_bb },
                ""@,
            ).position_at_end(loop_bb);
            assert(no_return(entered.code));
            lemma_decls_no_return(entered, decls);
            if let Ok(g1) = lower_decls(entered, decls) {
                lemma_stmts_no_return(g1, stmts);
                if let Ok(g2) = lower_stmts(g1, stmts) {
                    lemma_expr_no_return(g2, cond);
                }
            }
        },
    }
}

/// Lowering statements adds no return.
pub proof fn lemma_stmts_no_return(g: GenView, ss: Seq<StmtView>)
    requires
        no_return(g.code),
    ensures
        lower_stmts(g, ss) matches Ok(g1) ==> no_return(g1.code),
    decreases ss,
{
    if ss.len() > 0 {
        lemma_stmt_no_return(g, ss[0]);
        if let Ok(g1) = lower_stmt(g, ss[0]) {
            lemma_stmts_no_return(g1, ss.drop_first());
        }
    }
}

/// Every function that the code generator gives returns in one place: its
/// last step is a return, and no other step is. With one terminator to a
/// block, exactly one block ends in a return.
pub proof fn lemma_lowered_returns_once(p: ProgramView)
    ensures
        lower_program(p) matches Ok(f) ==> f.returns_once(),
{
    let start = entered();
    if let Ok(g1) = lower_decls(start, p.decls) {
        lemma_decls_no_return(start, p.decls);
        if let Ok(g2) = lower_stmts(g1, p.stmts) {
            lemma_stmts_no_return(g1, p.stmts);
            assert(g2.emit(Inst::Ret, ""@).code.drop_last() =~= g2.code);
        }
    }
}

} // verus!
