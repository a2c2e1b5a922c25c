//! The instructions that the code generator gives out, in the order in which
//! it builds them, each with the basic block it is appended to.

use vstd::prelude::*;

verus! {

/// An operand: a constant, or the result of the step with the given number.
#[derive(Debug, Clone, Copy, PartialEq, Eq, Structural)]
pub enum Value {
    Const(i16),
    Temp(usize),
}

/// How two integers are compared; both are taken as signed.
#[derive(Debug, Clone, Copy, PartialEq, Eq, Structural)]
pub enum Predicate {
    Equal,
    NotEqual,
    Greater,
    Less,
}

/// The role, and with it the name, of a basic block.
#[derive(Debug, Clone, Copy, PartialEq, Eq, Structural)]
pub enum Label {
    Entry,
    Then,
    Else,
    Cont,
    LoopBody,
    AfterLoop,
}

/// One instruction. Blocks are named by their position among the blocks of
/// the function, slots and results by the number of the step that made them.
#[derive(Debug, Clone, Copy, PartialEq, Eq, Structural)]
pub enum Inst {
    /// Reserves a stack slot for one 16-bit integer.
    Alloca,
    /// Writes `value` to the slot that step `slot` reserved.
    Store { slot: usize, value: Value },
    /// Reads the slot that step `slot` reserved.
    Load { slot: usize },
    /// The sum of two integers.
    Add { left: Value, right: Value },
    /// The product of two integers.
    Mul { left: Value, right: Value },
    /// Compares two integers; the result is one bit.
    Compare { pred: Predicate, left: Value, right: Value },
    /// Extends the one-bit result of a comparison with zeros to 16 bits: the
    /// result is 0 or 1.
    Extend { value: Value },
    /// Calls the runtime's `print_int` with `value`.
    Call { value: Value },
    /// Goes to block `target`.
    Br { target: usize },
    /// Goes to block `then_to` if `cond` holds, to block `else_to` if not.
    CondBr { cond: Value, then_to: usize, else_to: usize },
    /// Returns from the function.
    Ret,
}

/// One step of the code generator: an instruction, the block it is appended
/// to, and the name given to its result.
#[derive(Debug, Clone, PartialEq, Eq)]
pub struct Step {
    pub block: usize,
    pub inst: Inst,
    pub name: String,
}

/// The mathematical value of a step.
pub struct StepView {
    pub block: usize,
    pub inst: Inst,
    pub name: Seq<char>,
}

impl View for Step {
    type V = StepView;

    open spec fn view(&self) -> StepView {
        StepView { block: self.block, inst: self.inst, name: self.name@ }
    }
}

impl DeepView for Step {
    type V = StepView;

    open spec fn deep_view(&self) -> StepView {
        self.view()
    }
}

/// A lowered function: its basic blocks in the order in which they were
/// created, and its instructions in the order in which they were built.
#[derive(Debug, Clone, PartialEq, Eq)]
pub struct Function {
    pub blocks: Vec<Label>,
    pub code: Vec<Step>,
}

/// The mathematical value of a lowered function.
pub struct FunctionView {
    pub blocks: Seq<Label>,
    pub code: Seq<StepView>,
}

impl View for Function {
    type V = FunctionView;

    open spec fn view(&self) -> FunctionView {
        FunctionView { blocks: self.blocks@, code: self.code.deep_view() }
    }
}

impl Label {
    /// The name of a block with this role.
    pub open spec fn text(self) -> Seq<char> {
        match self {
            Label::Entry => "entry"@,
            Label::Then => "then"@,
            Label::Else => "else"@,
            Label::Cont => "cont"@,
            Label::LoopBody => "loop body"@,
            Label::AfterLoop => "afterloop"@,
        }
    }

    /// The name of a block with this role.
    pub fn name(&self) -> (r: &'static str)
        ensures
            r@ == self.text(),
    {
        match self {
            Label::Entry => "entry",
            Label::Then => "then",
            Label::Else => "else",
            Label::Cont => "cont",
            Label::LoopBody => "loop body",
            Label::AfterLoop => "afterloop",
        }
    }
}

impl Inst {
    /// Whether this instruction ends a basic block.
    pub open spec fn is_terminator(self) -> bool {
        self is Br || self is CondBr || self is Ret
    }

    /// Whether this instruction gives a 16-bit integer.
    pub open spec fn gives_int(self) -> bool {
        self is Load || self is Add || self is Mul || self is Extend
    }

    /// Whether this instruction gives one bit.
    pub open spec fn gives_bit(self) -> bool {
        self is Compare
    }

    /// Whether this instruction may go to block `b`.
    pub open spec fn goes_to(self, b: usize) -> bool {
        match self {
            Inst::Br { target } => target == b,
            Inst::CondBr { cond, then_to, else_to } => then_to == b || else_to == b,
            _ => false,
        }
    }

    /// The slot that this instruction reads or writes.
    pub open spec fn slot(self) -> Option<usize> {
        match self {
            Inst::Load { slot } => Some(slot),
            Inst::Store { slot, value } => Some(slot),
            _ => None,
        }
    }
}

} // verus!
