//! The optimization passes that run on a function that the IR verifier has
//! accepted.

use vstd::prelude::*;

verus! {

/// One function-level optimization pass.
#[derive(Debug, Clone, Copy, PartialEq, Eq, Structural)]
pub enum Pass {
    InstructionCombining,
    Reassociate,
    Gvn,
    CfgSimplification,
    BasicAliasAnalysis,
    PromoteMemoryToRegister,
}

/// The passes of the default pipeline, in the order in which they run.
pub open spec fn default_pipeline() -> Seq<Pass> {
    seq![
        Pass::InstructionCombining,
        Pass::Reassociate,
        Pass::Gvn,
        Pass::CfgSimplification,
        Pass::BasicAliasAnalysis,
        Pass::PromoteMemoryToRegister,
        Pass::InstructionCombining,
        Pass::Reassociate,
    ]
}

/// The passes of the default pipeline, in the order in which they run.
pub fn pipeline() -> (r: Vec<Pass>)
    ensures
        r@ == default_pipeline(),
{
    let r = vec![
        Pass::InstructionCombining,
        Pass::Reassociate,
        Pass::Gvn,
        Pass::CfgSimplification,
        Pass::BasicAliasAnalysis,
        Pass::PromoteMemoryToRegister,
        Pass::InstructionCombining,
        Pass::Reassociate,
    ];
    assert(r@ =~= default_pipeline());
    r
}

} // verus!
