//! From a lowered function to the IR builder: every step becomes one build
//! call, in the order in which the steps were made.

use crate::code_gen::compile::Lowering;
use crate::code_gen::ir::{Function, FunctionView, Inst, Value};
use crate::code_gen::llvm::{
    add_function, append_basic_block, build_alloca, build_call, build_conditional_branch,
    build_int_add, build_int_z_extend, build_int_compare, build_int_mul, build_load, build_return,
    build_store, build_unconditional_branch, const_int, fn_type, get_function, i16_type,
    position_at_end, run_on, verify, void_type,
};
use crate::code_gen::lower::lower_program;
use crate::code_gen::shape::{bit_in, int_in, slot_in, step_ok};
use crate::code_gen::CodeGenError;
use crate::parser::program::Program;
use inkwell::basic_block::BasicBlock;
use inkwell::builder::Builder;
use inkwell::context::Context;
use inkwell::module::Module;
use inkwell::passes::PassManager;
use inkwell::values::{FunctionValue, IntValue, PointerValue};
use vstd::prelude::*;

verus! {

/// Why no function was built.
#[derive(Debug, Clone, Copy, PartialEq, Eq, Structural)]
pub enum BuildError {
    /// The program cannot be lowered.
    CodeGen(CodeGenError),
    /// The module does not declare the runtime's `print_int`.
    MissingRuntime,
    /// A slot gave something that is not an integer.
    UnexpectedValue,
    /// The IR verifier refused the function.
    Verifier,
}

impl BuildError {
    /// The text of the diagnostic: it names the stage that failed.
    pub open spec fn diagnostic_text(self) -> Seq<char> {
        match self {
            BuildError::Verifier => "verifier error"@,
            _ => "code generation error"@,
        }
    }

    /// The diagnostic to print for this error.
    pub fn diagnostic(&self) -> (r: &'static str)
        ensures
            r@ == self.diagnostic_text(),
    {
        match self {
            BuildError::Verifier => "verifier error",
            _ => "code generation error",
        }
    }
}

/// The bits of `value` as a 16-bit pattern.
pub open spec fn bits_of(value: i16) -> int {
    if value >= 0 {
        value as int
    } else {
        value + 65536
    }
}

/// The bits of `value` as a 16-bit pattern.
pub fn constant_bits(value: i16) -> (r: u64)
    ensures
        r == bits_of(value),
{
    if value >= 0 {
        value as u64
    } else {
        (value as i32 + 65536) as u64
    }
}

/// What is returned once the IR verifier has judged the function.
pub fn conclude(verified: bool) -> (r: Result<(), BuildError>)
    ensures
        r == (if verified {
            Ok::<(), BuildError>(())
        } else {
            Err::<(), BuildError>(BuildError::Verifier)
        }),
{
    if verified {
        Ok(())
    } else {
        Err(BuildError::Verifier)
    }
}

/// The code generator at the IR builder: the handles it was given, the
/// function it builds, and the blocks, slots and values built so far, each
/// slot and value at the number of the step that made it.
pub struct Compiler<'a, 'ctx> {
    pub context: &'ctx Context,
    pub builder: &'a Builder<'ctx>,
    pub module: &'a Module<'ctx>,
    pub fpm: &'a PassManager<FunctionValue<'ctx>>,
    pub fn_val: FunctionValue<'ctx>,
    blocks: Vec<BasicBlock<'ctx>>,
    slots: Vec<Option<PointerValue<'ctx>>>,
    values: Vec<Option<IntValue<'ctx>>>,
}

impl<'a, 'ctx> Compiler<'a, 'ctx> {
    /// Whether the first `done` steps of `function` have been built: every
    /// block of the function has its handle, and every step that reserves a
    /// slot or gives a value has left it at its number.
    pub closed spec fn built(&self, function: FunctionView, done: int) -> bool {
        &&& self.blocks.len() == function.blocks.len()
        &&& self.slots.len() == done
        &&& self.values.len() == done
        &&& 0 <= done <= function.code.len()
        &&& forall|i: int|
            0 <= i < done && function.code[i].inst is Alloca ==> (#[trigger] self.slots[i]) is Some
        &&& forall|i: int|
            0 <= i < done && (function.code[i].inst.gives_int() || function.code[i].inst.gives_bit())
                ==> (#[trigger] self.values[i]) is Some
    }

    /// Lowers `program`, builds the function `main` from it in `module`,
    /// has the IR verifier judge it, and runs the passes on it if it stands.
    ///
    /// A program that cannot be lowered gives the error of the lowering and
    /// nothing is built. Whether a lowered program gives a function is for
    /// the module and the IR verifier to decide.
    pub fn compile(
        context: &'ctx Context,
        builder: &'a Builder<'ctx>,
        module: &'a Module<'ctx>,
        pass_manager: &'a PassManager<FunctionValue<'ctx>>,
        program: &Program,
    ) -> (r: Result<FunctionValue<'ctx>, BuildError>)
        ensures
            lower_program(program@) matches Err(e) ==> r matches Err(f) && f == BuildError::CodeGen(
                e,
            ),
            lower_program(program@) is Ok ==> !(r matches Err(BuildError::CodeGen(_))),
    {
        let function = match Lowering::compile_program(program) {
            Ok(function) => function,
            Err(e) => {
                return Err(BuildError::CodeGen(e));
            },
        };
        let ty = fn_type(void_type(context));
        let fn_val = add_function(module, "main", ty);
        let mut compiler = Compiler {
            context,
            builder,
            module,
            fpm: pass_manager,
            fn_val,
            blocks: Vec::new(),
            slots: Vec::new(),
            values: Vec::new(),
        };
        compiler.build_function(&function)?;
        conclude(verify(compiler.fn_val))?;
        run_on(compiler.fpm, &compiler.fn_val);
        Ok(compiler.fn_val)
    }

    /// Creates the blocks of `function` and builds its steps, in order, up to
    /// the first that cannot be built.
    fn build_function(&mut self, function: &Function) -> (r: Result<(), BuildError>)
        requires
            function@.well_formed(),
            old(self).blocks.len() == 0,
            old(self).slots.len() == 0,
            old(self).values.len() == 0,
        ensures
            r is Ok ==> final(self).built(function@, function.code.len() as int),
            r is Err ==> exists|done: int| final(self).built(function@, done),
            r matches Err(e) ==> e == BuildError::MissingRuntime || e == BuildError::UnexpectedValue,
    {
        let mut b: usize = 0;
        while b < function.blocks.len()
            invariant
                b <= function.blocks.len(),
                self.blocks.len() == b,
                self.slots.len() == 0,
                self.values.len() == 0,
            decreases function.blocks.len() - b,
        {
            let block = append_basic_block(self.context, self.fn_val, function.blocks[b].name());
            self.blocks.push(block);
            b += 1;
        }
        let mut t: usize = 0;
        while t < function.code.len()
            invariant
                function@.well_formed(),
                self.built(function@, t as int),
            decreases function.code.len() - t,
        {
            self.build_step(function, t)?;
            t += 1;
        }
        Ok(())
    }

    /// The integer that the operand `v` of step `t` stands for.
    fn operand(&self, function: &Function, t: usize, v: Value) -> (r: IntValue<'ctx>)
        requires
            self.built(function@, t as int),
            t < function.code.len(),
            int_in(function@.code, v, function@.code[t as int].block, t as int) || bit_in(
                function@.code,
                v,
                function@.code[t as int].block,
                t as int,
            ),
    {
        match v {
            Value::Const(c) => const_int(i16_type(self.context), constant_bits(c)),
            Value::Temp(i) => {
                assert(self.values[i as int] is Some);
                self.values[i].unwrap()
            },
        }
    }

    /// The slot that step `slot` reserved.
    fn slot(&self, function: &Function, t: usize, slot: usize) -> (r: PointerValue<'ctx>)
        requires
            self.built(function@, t as int),
            slot_in(function@.code, slot, t as int),
    {
        assert(self.slots[slot as int] is Some);
        self.slots[slot].unwrap()
    }

    /// Builds step `t` of `function` at the end of its block and notes what
    /// it gives. When the step cannot be built, nothing is noted.
    fn build_step(&mut self, function: &Function, t: usize) -> (r: Result<(), BuildError>)
        requires
            function@.well_formed(),
            old(self).built(function@, t as int),
            t < function.code.len(),
        ensures
            r is Ok ==> final(self).built(function@, t + 1),
            r is Err ==> *final(self) == *old(self),
            r matches Err(e) ==> e == BuildError::MissingRuntime || e == BuildError::UnexpectedValue,
    {
        let step = &function.code[t];
        assert(function@.code[t as int] == step@);
        assert(step_ok(function@.code, function@.blocks.len() as int, t as int));
        position_at_end(self.builder, self.blocks[step.block]);
        let name = step.name.as_str();
        let mut slot: Option<PointerValue<'ctx>> = None;
        let mut value: Option<IntValue<'ctx>> = None;
        match step.inst {
            Inst::Alloca => {
                slot = Some(build_alloca(self.builder, i16_type(self.context), name));
            },
            Inst::Store { slot, value } => {
                let ptr = self.slot(function, t, slot);
                let stored = self.operand(function, t, value);
                build_store(self.builder, ptr, stored);
            },
            Inst::Load { slot } => {
                let ptr = self.slot(function, t, slot);
                match build_load(self.builder, ptr, name) {
                    Some(loaded) => {
                        value = Some(loaded);
                    },
                    None => {
                        return Err(BuildError::UnexpectedValue);
                    },
                }
            },
            Inst::Add { left, right } => {
                let lhs = self.operand(function, t, left);
                let rhs = self.operand(function, t, right);
                value = Some(build_int_add(self.builder, lhs, rhs, name));
            },
            Inst::Mul { left, right } => {
                let lhs = self.operand(function, t, left);
                let rhs = self.operand(function, t, right);
                value = Some(build_int_mul(self.builder, lhs, rhs, name));
            },
            Inst::Compare { pred, left, right } => {
                let lhs = self.operand(function, t, left);
                let rhs = self.operand(function, t, right);
                value = Some(build_int_compare(self.builder, pred, lhs, rhs, name));
            },
            Inst::Extend { value: bit } => {
                let comp = self.operand(function, t, bit);
                value = Some(build_int_z_extend(self.builder, comp, i16_type(self.context), name));
            },
            Inst::Call { value: arg } => {
                let e = self.operand(function, t, arg);
                match get_function(self.module, "print_int") {
                    Some(func) => {
                        build_call(self.builder, func, e, name);
                    },
                    None => {
                        return Err(BuildError::MissingRuntime);
                    },
                }
            },
            Inst::Br { target } => {
                build_unconditional_branch(self.builder, self.blocks[target]);
            },
            Inst::CondBr { cond, then_to, else_to } => {
                let comparison = self.operand(function, t, cond);
                build_conditional_branch(
                    self.builder,
                    comparison,
                    self.blocks[then_to],
                    self.blocks[else_to],
                );
            },
            Inst::Ret => {
                build_return(self.builder);
            },
        }
        self.slots.push(slot);
        self.values.push(value);
        Ok(())
    }
}

} // verus!
