//! What makes a lowered function well formed: every operand is there
//! before it is used, every branch goes to a block of the function, and
//! every block ends with its one terminator.

use crate::code_gen::ir::{FunctionView, Inst, StepView, Value};
use vstd::prelude::*;

verus! {

/// `v` is a 16-bit integer that a step in block `block` may use at step
/// number `limit`: a constant, or the result of an earlier step of that
/// block that gives an integer.
pub open spec fn int_in(code: Seq<StepView>, v: Value, block: usize, limit: int) -> bool {
    match v {
        Value::Const(_) => true,
        Value::Temp(i) => i < limit && i < code.len() && code[i as int].inst.gives_int()
            && code[i as int].block == block,
    }
}

/// `v` is a bit that a step in block `block` may use at step number `limit`:
/// the result of an earlier comparison in that block.
pub open spec fn bit_in(code: Seq<StepView>, v: Value, block: usize, limit: int) -> bool {
    match v {
        Value::Const(_) => false,
        Value::Temp(i) => i < limit && i < code.len() && code[i as int].inst.gives_bit()
            && code[i as int].block == block,
    }
}

/// `slot` is the number of a step before `limit` that reserves a slot.
pub open spec fn slot_in(code: Seq<StepView>, slot: usize, limit: int) -> bool {
    slot < limit && slot < code.len() && code[slot as int].inst is Alloca
}

/// Step `t` is in a block of the function, uses only what was built before
/// it, and branches only to blocks of the function.
pub open spec fn step_ok(code: Seq<StepView>, blocks: int, t: int) -> bool {
    let block = code[t].block;
    &&& block < blocks
    &&& match code[t].inst {
        Inst::Alloca => true,
        Inst::Store { slot, value } => slot_in(code, slot, t) && int_in(code, value, block, t),
        Inst::Load { slot } => slot_in(code, slot, t),
        Inst::Add { left, right } => int_in(code, left, block, t) && int_in(code, right, block, t),
        Inst::Mul { left, right } => int_in(code, left, block, t) && int_in(code, right, block, t),
        Inst::Compare { pred, left, right } => int_in(code, left, block, t) && int_in(
            code,
            right,
            block,
            t,
        ),
        Inst::Extend { value } => bit_in(code, value, block, t),
        Inst::Call { value } => int_in(code, value, block, t),
        Inst::Br { target } => target < blocks,
        Inst::CondBr { cond, then_to, else_to } => bit_in(code, cond, block, t) && then_to < blocks
            && else_to < blocks,
        Inst::Ret => true,
    }
}

/// Every step is in order.
pub open spec fn steps_ok(code: Seq<StepView>, blocks: int) -> bool {
    forall|t: int| 0 <= t < code.len() ==> #[trigger] step_ok(code, blocks, t)
}

/// No step of block `b` is a terminator.
pub open spec fn is_open(code: Seq<StepView>, b: usize) -> bool {
    forall|t: int|
        0 <= t < code.len() && (#[trigger] code[t]).block == b ==> !code[t].inst.is_terminator()
}

/// Block `b` has no step.
pub open spec fn is_empty(code: Seq<StepView>, b: usize) -> bool {
    forall|t: int| 0 <= t < code.len() ==> (#[trigger] code[t]).block != b
}

/// Step `end` is the one terminator of block `b`, and the last step of it.
pub open spec fn closed_at(code: Seq<StepView>, b: usize, end: int) -> bool {
    &&& 0 <= end < code.len()
    &&& code[end].block == b
    &&& code[end].inst.is_terminator()
    &&& forall|t: int|
        0 <= t < code.len() && (#[trigger] code[t]).block == b && t != end ==> t < end
            && !code[t].inst.is_terminator()
}

/// Block `b` has exactly one terminator, and it is its last step.
pub open spec fn is_closed(code: Seq<StepView>, b: usize) -> bool {
    exists|end: int| closed_at(code, b, end)
}

/// No step returns from the function.
pub open spec fn no_return(code: Seq<StepView>) -> bool {
    forall|t: int| 0 <= t < code.len() ==> !((#[trigger] code[t]).inst is Ret)
}

impl FunctionView {
    /// The function returns in one place: its last step is a return, and no
    /// other step is.
    pub open spec fn returns_once(self) -> bool {
        &&& self.code.len() > 0
        &&& self.code.last().inst is Ret
        &&& no_return(self.code.drop_last())
    }

    /// The function is small enough for steps and blocks to be numbered.
    pub open spec fn fits(self) -> bool {
        self.code.len() <= usize::MAX && self.blocks.len() <= usize::MAX
    }

    /// The function is well formed: every step is in order, and every block
    /// ends with its one terminator.
    pub open spec fn well_formed(self) -> bool {
        &&& steps_ok(self.code, self.blocks.len() as int)
        &&& forall|b: usize| b < self.blocks.len() ==> #[trigger] is_closed(self.code, b)
    }
}

/// A step stays in order when steps are added after it and blocks are
/// created.
pub proof fn lemma_step_stable(
    code: Seq<StepView>,
    more: Seq<StepView>,
    blocks: int,
    more_blocks: int,
    t: int,
)
    requires
        0 <= t < code.len() <= more.len(),
        forall|i: int| 0 <= i < code.len() ==> code[i] == more[i],
        blocks <= more_blocks,
        step_ok(code, blocks, t),
    ensures
        step_ok(more, more_blocks, t),
{
}

/// Steps in order stay in order when one more step in order is added.
pub proof fn lemma_push_step(code: Seq<StepView>, blocks: int, step: StepView)
    requires
        steps_ok(code, blocks),
        step_ok(code.push(step), blocks, code.len() as int),
    ensures
        steps_ok(code.push(step), blocks),
{
    let more = code.push(step);
    assert forall|t: int| 0 <= t < more.len() implies #[trigger] step_ok(more, blocks, t) by {
        if t < code.len() {
            lemma_step_stable(code, more, blocks, blocks, t);
        }
    }
}

/// Steps in order stay in order when blocks are created.
pub proof fn lemma_more_blocks(code: Seq<StepView>, blocks: int, more_blocks: int)
    requires
        steps_ok(code, blocks),
        blocks <= more_blocks,
    ensures
        steps_ok(code, more_blocks),
{
    assert forall|t: int| 0 <= t < code.len() implies #[trigger] step_ok(code, more_blocks, t) by {
        lemma_step_stable(code, code, blocks, more_blocks, t);
    }
}

/// A step added to another block changes nothing for block `b`.
pub proof fn lemma_push_elsewhere(code: Seq<StepView>, step: StepView, b: usize)
    requires
        step.block != b,
    ensures
        is_open(code, b) ==> is_open(code.push(step), b),
        is_empty(code, b) ==> is_empty(code.push(step), b),
        is_closed(code, b) ==> is_closed(code.push(step), b),
{
    let more = code.push(step);
    if is_open(code, b) {
        assert forall|t: int| 0 <= t < more.len() && (#[trigger] more[t]).block == b implies
            !more[t].inst.is_terminator() by {
            assert(more[t] == code[t]);
        }
    }
    if is_empty(code, b) {
        assert forall|t: int| 0 <= t < more.len() implies (#[trigger] more[t]).block != b by {
            if t < code.len() {
                assert(more[t] == code[t]);
            }
        }
    }
    if is_closed(code, b) {
        let end = choose|end: int| closed_at(code, b, end);
        assert(more[end] == code[end]);
        assert forall|t: int|
            0 <= t < more.len() && (#[trigger] more[t]).block == b && t != end implies t < end
            && !more[t].inst.is_terminator() by {
            assert(more[t] == code[t]);
        }
        assert(closed_at(more, b, end));
    }
}

/// A step that is no terminator leaves its block open.
pub proof fn lemma_push_plain(code: Seq<StepView>, step: StepView)
    requires
        is_open(code, step.block),
        !step.inst.is_terminator(),
    ensures
        is_open(code.push(step), step.block),
{
    let more = code.push(step);
    assert forall|t: int| 0 <= t < more.len() && (#[trigger] more[t]).block == step.block implies
        !more[t].inst.is_terminator() by {
        if t < code.len() {
            assert(more[t] == code[t]);
        }
    }
}

/// A terminator closes the open block that it is added to.
pub proof fn lemma_push_terminator(code: Seq<StepView>, step: StepView)
    requires
        is_open(code, step.block),
        step.inst.is_terminator(),
    ensures
        is_closed(code.push(step), step.block),
{
    let more = code.push(step);
    let end = code.len() as int;
    assert forall|t: int|
        0 <= t < more.len() && (#[trigger] more[t]).block == step.block && t != end implies t < end
        && !more[t].inst.is_terminator() by {
        assert(more[t] == code[t]);
    }
    assert(closed_at(more, step.block, end));
}

/// A block without any step is open.
pub proof fn lemma_empty_is_open(code: Seq<StepView>, b: usize)
    requires
        is_empty(code, b),
    ensures
        is_open(code, b),
{
}

} // verus!
