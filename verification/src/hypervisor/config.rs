//! The resource limits of the hypervisor's configuration and how they are
//! handed to the container engine.

use vstd::prelude::*;
use crate::hypervisor::defaults;
use crate::hypervisor::engine;

verus! {

/// Configured resource limits of a container: memory in bytes, CPU
/// period and quota in microseconds.
pub struct ResourceLimits {
    pub ram: u64,
    pub cpu_p: u64,
    pub cpu_q: u64,
}

impl Default for ResourceLimits {
    fn default() -> (r: Self)
        ensures
            r.ram == 26214400 && r.cpu_p == 50000 && r.cpu_q == 12500,
    {
        ResourceLimits { ram: defaults::ram(), cpu_p: defaults::cpu_p(), cpu_q: defaults::cpu_q() }
    }
}

/// A configured value as an engine limit: set when it fits an `i64`.
pub open spec fn as_limit(value: u64) -> Option<i64> {
    if value <= i64::MAX {
        Some(value as i64)
    } else {
        None
    }
}

fn limit_of(value: u64) -> (r: Option<i64>)
    ensures
        r == as_limit(value),
{
    if value <= 9223372036854775807u64 {
        Some(value as i64)
    } else {
        None
    }
}

impl ResourceLimits {
    /// The engine's limits: memory and memory-with-swap both the RAM limit
    /// (no swap beyond it), the CPU period and quota, no process limit.
    pub fn to_engine(&self) -> (r: engine::ResourceLimits)
        ensures
            r.memory_bytes == as_limit(self.ram),
            r.memory_swap_bytes == as_limit(self.ram),
            r.cpu_period_us == as_limit(self.cpu_p),
            r.cpu_quota_us == as_limit(self.cpu_q),
            r.pids is None,
    {
        engine::ResourceLimits {
            memory_bytes: limit_of(self.ram),
            memory_swap_bytes: limit_of(self.ram),
            cpu_period_us: limit_of(self.cpu_p),
            cpu_quota_us: limit_of(self.cpu_q),
            pids: None,
        }
    }
}

} // verus!
