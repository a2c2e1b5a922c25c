//! The calls into the IR builder. Its values are handles into a module that
//! only the builder sees, so nothing is claimed of what a call gives back.
//! A build call appends to the block that the builder was last positioned
//! at; the code generator positions the builder before every build call.

use crate::code_gen::ir::Predicate;
use inkwell::basic_block::BasicBlock;
use inkwell::builder::Builder;
use inkwell::context::Context;
use inkwell::module::Module;
use inkwell::passes::PassManager;
use inkwell::types::{FunctionType, IntType, VoidType};
use inkwell::values::{BasicValueEnum, FunctionValue, IntValue, PointerValue};
use inkwell::IntPredicate;
use vstd::prelude::*;

verus! {

/// `inkwell::context::Context`: owns everything that the builder makes.
#[verifier::external_type_specification]
#[verifier::external_body]
pub struct ExContext(Context);

/// `inkwell::builder::Builder`: appends instructions to a block.
#[verifier::external_type_specification]
#[verifier::external_body]
pub struct ExBuilder<'ctx>(Builder<'ctx>);

/// `inkwell::module::Module`: holds functions.
#[verifier::external_type_specification]
#[verifier::external_body]
pub struct ExModule<'ctx>(Module<'ctx>);

/// `inkwell::passes::PassManager`: a row of optimization passes.
#[verifier::external_type_specification]
#[verifier::external_body]
#[verifier::reject_recursive_types(T)]
pub struct ExPassManager<T>(PassManager<T>);

/// `inkwell::basic_block::BasicBlock`: a handle to a block.
#[verifier::external_type_specification]
#[verifier::external_body]
pub struct ExBasicBlock<'ctx>(BasicBlock<'ctx>);

/// `inkwell::values::FunctionValue`: a handle to a function.
#[verifier::external_type_specification]
#[verifier::external_body]
pub struct ExFunctionValue<'ctx>(FunctionValue<'ctx>);

/// `inkwell::values::PointerValue`: a handle to a slot.
#[verifier::external_type_specification]
#[verifier::external_body]
pub struct ExPointerValue<'ctx>(PointerValue<'ctx>);

/// `inkwell::values::IntValue`: a handle to an integer value.
#[verifier::external_type_specification]
#[verifier::external_body]
pub struct ExIntValue<'ctx>(IntValue<'ctx>);

/// `inkwell::types::IntType`: a handle to an integer type.
#[verifier::external_type_specification]
#[verifier::external_body]
pub struct ExIntType<'ctx>(IntType<'ctx>);

/// `inkwell::types::VoidType`: a handle to the type of nothing.
#[verifier::external_type_specification]
#[verifier::external_body]
pub struct ExVoidType<'ctx>(VoidType<'ctx>);

/// `inkwell::types::FunctionType`: a handle to the type of a function.
#[verifier::external_type_specification]
#[verifier::external_body]
pub struct ExFunctionType<'ctx>(FunctionType<'ctx>);

/// `Context::i16_type`: the type of 16-bit integers.
#[verifier::external_body]
pub(crate) fn i16_type<'ctx>(context: &'ctx Context) -> IntType<'ctx> {
    context.i16_type()
}

/// `Context::void_type`: the type of nothing.
#[verifier::external_body]
pub(crate) fn void_type<'ctx>(context: &'ctx Context) -> VoidType<'ctx> {
    context.void_type()
}

/// `VoidType::fn_type` without parameter types: the type of a function that
/// takes nothing and gives nothing.
#[verifier::external_body]
pub(crate) fn fn_type<'ctx>(ty: VoidType<'ctx>) -> FunctionType<'ctx> {
    ty.fn_type(&[], false)
}

/// `Module::add_function` with default linkage: adds a function to the
/// module.
#[verifier::external_body]
pub(crate) fn add_function<'ctx>(
    module: &Module<'ctx>,
    name: &str,
    ty: FunctionType<'ctx>,
) -> FunctionValue<'ctx> {
    module.add_function(name, ty, None)
}

/// `Module::get_function`: the function of that name in the module, if the
/// module has one.
#[verifier::external_body]
pub(crate) fn get_function<'ctx>(module: &Module<'ctx>, name: &str) -> Option<FunctionValue<'ctx>> {
    module.get_function(name)
}

/// `Context::append_basic_block`: creates a block after the blocks of the
/// function.
#[verifier::external_body]
pub(crate) fn append_basic_block<'ctx>(
    context: &'ctx Context,
    function: FunctionValue<'ctx>,
    name: &str,
) -> BasicBlock<'ctx> {
    context.append_basic_block(function, name)
}

/// `Builder::position_at_end`: from now on the builder appends to `block`.
#[verifier::external_body]
pub(crate) fn position_at_end<'ctx>(builder: &Builder<'ctx>, block: BasicBlock<'ctx>) {
    builder.position_at_end(block)
}

/// `IntType::const_int` without sign extension: the constant of this type
/// with the bits of `value`.
#[verifier::external_body]
pub(crate) fn const_int<'ctx>(ty: IntType<'ctx>, value: u64) -> IntValue<'ctx> {
    ty.const_int(value, false)
}

/// `Builder::build_alloca`: reserves a stack slot of type `ty`.
#[verifier::external_body]
pub(crate) fn build_alloca<'ctx>(
    builder: &Builder<'ctx>,
    ty: IntType<'ctx>,
    name: &str,
) -> PointerValue<'ctx> {
    builder.build_alloca(ty, name)
}

/// `Builder::build_store`: writes `value` to the slot.
#[verifier::external_body]
pub(crate) fn build_store<'ctx>(
    builder: &Builder<'ctx>,
    ptr: PointerValue<'ctx>,
    value: IntValue<'ctx>,
) {
    builder.build_store(ptr, value);
}

/// `Builder::build_load`: reads the slot. The value read is handed on if it
/// is an integer.
#[verifier::external_body]
pub(crate) fn build_load<'ctx>(
    builder: &Builder<'ctx>,
    ptr: PointerValue<'ctx>,
    name: &str,
) -> Option<IntValue<'ctx>> {
    match builder.build_load(ptr, name) {
        BasicValueEnum::ArrayValue(_) => None,
        BasicValueEnum::IntValue(value) => Some(value),
        BasicValueEnum::FloatValue(_) => None,
        BasicValueEnum::PointerValue(_) => None,
        BasicValueEnum::StructValue(_) => None,
        BasicValueEnum::VectorValue(_) => None,
    }
}

/// `Builder::build_int_add`: the sum of two integers.
#[verifier::external_body]
pub(crate) fn build_int_add<'ctx>(
    builder: &Builder<'ctx>,
    lhs: IntValue<'ctx>,
    rhs: IntValue<'ctx>,
    name: &str,
) -> IntValue<'ctx> {
    builder.build_int_add(lhs, rhs, name)
}

/// `Builder::build_int_mul`: the product of two integers.
#[verifier::external_body]
pub(crate) fn build_int_mul<'ctx>(
    builder: &Builder<'ctx>,
    lhs: IntValue<'ctx>,
    rhs: IntValue<'ctx>,
    name: &str,
) -> IntValue<'ctx> {
    builder.build_int_mul(lhs, rhs, name)
}

/// `Builder::build_int_compare`: compares two integers as signed numbers.
#[verifier::external_body]
pub(crate) fn build_int_compare<'ctx>(
    builder: &Builder<'ctx>,
    op: Predicate,
    lhs: IntValue<'ctx>,
    rhs: IntValue<'ctx>,
    name: &str,
) -> IntValue<'ctx> {
    let op = match op {
        Predicate::Equal => IntPredicate::EQ,
        Predicate::NotEqual => IntPredicate::NE,
        Predicate::Greater => IntPredicate::SGT,
        Predicate::Less => IntPredicate::SLT,
    };
    builder.build_int_compare(op, lhs, rhs, name)
}

/// `Builder::build_int_z_extend`: extends an integer with zeros to the type
/// `ty`.
#[verifier::external_body]
pub(crate) fn build_int_z_extend<'ctx>(
    builder: &Builder<'ctx>,
    value: IntValue<'ctx>,
    ty: IntType<'ctx>,
    name: &str,
) -> IntValue<'ctx> {
    builder.build_int_z_extend(value, ty, name)
}

/// `Builder::build_call` with one argument: calls `function` with `arg`.
#[verifier::external_body]
pub(crate) fn build_call<'ctx>(
    builder: &Builder<'ctx>,
    function: FunctionValue<'ctx>,
    arg: IntValue<'ctx>,
    name: &str,
) {
    builder.build_call(function, &[arg.into()], name);
}

/// `Builder::build_unconditional_branch`: goes to `destination`.
#[verifier::external_body]
pub(crate) fn build_unconditional_branch<'ctx>(
    builder: &Builder<'ctx>,
    destination: BasicBlock<'ctx>,
) {
    builder.build_unconditional_branch(destination);
}

/// `Builder::build_conditional_branch`: goes to `then_block` if `comparison`
/// holds and to `else_block` if not.
#[verifier::external_body]
pub(crate) fn build_conditional_branch<'ctx>(
    builder: &Builder<'ctx>,
    comparison: IntValue<'ctx>,
    then_block: BasicBlock<'ctx>,
    else_block: BasicBlock<'ctx>,
) {
    builder.build_conditional_branch(comparison, then_block, else_block);
}

/// `Builder::build_return` without a value: returns from the function.
#[verifier::external_body]
pub(crate) fn build_return<'ctx>(builder: &Builder<'ctx>) {
    builder.build_return(None);
}

/// `FunctionValue::verify` with messages printed: whether the IR verifier
/// accepts the function.
#[verifier::external_body]
pub(crate) fn verify<'ctx>(function: FunctionValue<'ctx>) -> bool {
    function.verify(true)
}

/// `PassManager::run_on`: runs the passes on the function.
#[verifier::external_body]
pub(crate) fn run_on<'ctx>(
    passes: &PassManager<FunctionValue<'ctx>>,
    function: &FunctionValue<'ctx>,
) {
    passes.run_on(function);
}

} // verus!
