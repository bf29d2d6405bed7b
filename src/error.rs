use vstd::prelude::*;

use crate::provider::ProviderKind;

verus! {

/// Why a build did not produce an image.
#[derive(Clone, Debug, PartialEq, Eq)]
pub enum BuildError {
    /// No detector matched the source tree; `providers` lists those tried, in order.
    NoProviderMatched { providers: Vec<ProviderKind> },
    /// An override names a phase that the provider does not define.
    InvalidPhaseOverride { phase: String },
    /// The named phases form a cycle: each depends on the next, the last on the first.
    CyclicPhaseDependency { phases: Vec<String> },
    /// Phase `phase` depends on `missing`, which the plan does not hold.
    DanglingPhaseReference { phase: String, missing: String },
    /// A command of phase `phase` exited with `exit_code`.
    PhaseExecution { phase: String, exit_code: i32, output: String },
    /// The container engine could not be reached or was busy.
    BackendUnavailable { output: String },
}

} // verus!
