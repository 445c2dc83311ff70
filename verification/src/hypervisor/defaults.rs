//! Default values of the hypervisor's configuration.

use vstd::prelude::*;

verus! {

/// Idle containers kept ready for packages.
pub fn idle_containers() -> (n: u32)
    ensures
        n == 5,
{
    5
}

/// Most hibernated containers kept.
pub fn max_hybernated_containers() -> (n: u32)
    ensures
        n == 20,
{
    20
}

/// Storage for snapshots, in bytes (200 MiB).
pub fn snapshots_storage_quota() -> (n: u64)
    ensures
        n == 209715200,
{
    209715200
}

/// Storage for cached packages, in bytes (500 MiB).
pub fn package_cache_quota() -> (n: u64)
    ensures
        n == 524288000,
{
    524288000
}

/// Memory limit of a container, in bytes (25 MiB).
pub fn ram() -> (n: u64)
    ensures
        n == 26214400,
{
    26214400
}

/// CPU period of a container, in microseconds.
pub fn cpu_p() -> (n: u64)
    ensures
        n == 50000,
{
    50000
}

/// CPU quota of a container per period, in microseconds.
pub fn cpu_q() -> (n: u64)
    ensures
        n == 12500,
{
    12500
}

/// Base image idle containers are started from, fully qualified so that
/// Podman resolves it without registry search configuration.
pub fn image() -> (s: String)
    ensures
        s@ == "docker.io/library/alpine:3.24"@,
{
    String::from_str("docker.io/library/alpine:3.24")
}

} // verus!
