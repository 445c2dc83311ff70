//! Values the container engine is driven with: the labels that mark the
//! hypervisor's containers, the per-container resource limits, and how
//! the engine's answers to a removal are read.

use vstd::prelude::*;

verus! {

/// Label present on every container the hypervisor creates.
pub const MANAGED_LABEL: &'static str = "io.smoothie.hypervisor";
/// Value of the managed label.
pub const MANAGED_LABEL_VALUE: &'static str = "1";
/// Label scoping a container to one hypervisor run.
pub const INSTANCE_LABEL: &'static str = "io.smoothie.instance";

/// Per-container resource limits, applied when a container is created;
/// an absent limit is not set.
pub struct ResourceLimits {
    pub memory_bytes: Option<i64>,
    pub memory_swap_bytes: Option<i64>,
    pub cpu_period_us: Option<i64>,
    pub cpu_quota_us: Option<i64>,
    pub pids: Option<i64>,
}

/// A failure the container engine reported: an answer of its API with
/// an HTTP status, or any other error (its text).
pub enum EngineFailure {
    Status { code: u16, message: String },
    Other(String),
}

/// Whether the engine answered that it does not know the container.
pub open spec fn not_found(result: Result<(), EngineFailure>) -> bool {
    result matches Err(EngineFailure::Status { code, .. }) && code == 404
}

/// The outcome of a forced container removal: a container the engine
/// does not know (404) counts as removed; any other outcome stands.
pub fn removal_outcome(result: Result<(), EngineFailure>) -> (r: Result<(), EngineFailure>)
    ensures
        not_found(result) ==> r is Ok,
        !not_found(result) ==> r == result,
{
    match result {
        Err(EngineFailure::Status { code, message }) => {
            if code == 404 {
                Ok(())
            } else {
                Err(EngineFailure::Status { code, message })
            }
        },
        other => other,
    }
}

} // verus!
