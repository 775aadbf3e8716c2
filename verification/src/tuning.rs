//! Sizing rules that adapt the proxy to the machine it runs on.
//!
//! Every knob of the engine that scales with the number of logical CPU
//! cores is computed here, so that the policies are stated and checked in
//! one place.

use vstd::prelude::*;

verus! {

/// Capacity of the DNS cache: 500 entries on small machines (up to 2
/// cores), 1000 on mid-sized ones (up to 8), 2000 otherwise.
pub fn dns_cache_capacity(cores: usize) -> (cap: usize)
    ensures
        cap == spec_dns_cache_capacity(cores as int),
        cap >= 1,
{
    if cores <= 2 {
        500
    } else if cores <= 8 {
        1000
    } else {
        2000
    }
}

/// The capacity rule of [`dns_cache_capacity`].
pub open spec fn spec_dns_cache_capacity(cores: int) -> int {
    if cores <= 2 {
        500
    } else if cores <= 8 {
        1000
    } else {
        2000
    }
}

/// Relies on `num_cpus::get`: the number of logical cores, at least one.
#[verifier::external_body]
pub(crate) fn logical_cores() -> (n: usize)
    ensures
        n >= 1,
{
    num_cpus::get()
}

/// The connection-concurrency rule: five hundred per core, capped at ten
/// thousand on large machines.
pub open spec fn spec_max_connections(cores: int) -> int {
    if cores <= 8 {
        cores * 500
    } else if cores * 500 > 10000 {
        10000
    } else {
        cores * 500
    }
}

/// The bound on concurrent connections for a machine of `cores` cores.
pub fn max_connections_for(cores: usize) -> (n: usize)
    requires
        cores >= 1,
    ensures
        n == spec_max_connections(cores as int),
        500 <= n <= 10000,
{
    if cores <= 8 {
        cores * 500
    } else if cores >= 20 {
        10000
    } else {
        cores * 500
    }
}

/// The first-read buffer: 16 KiB on small machines (up to 2 cores), 32 KiB
/// on mid-sized ones (up to 8), 64 KiB otherwise.
pub fn buffer_size_for(cores: usize) -> (n: usize)
    ensures
        n == spec_buffer_size(cores as int),
{
    if cores <= 2 {
        16384
    } else if cores <= 8 {
        32768
    } else {
        65536
    }
}

/// The buffer rule of [`buffer_size_for`].
pub open spec fn spec_buffer_size(cores: int) -> int {
    if cores <= 2 {
        16384
    } else if cores <= 8 {
        32768
    } else {
        65536
    }
}

/// The ClientHello read deadline in seconds: 2, 3 or 5 by machine size.
pub fn read_timeout_secs_for(cores: usize) -> (n: u64)
    ensures
        n == spec_read_timeout_secs(cores as int),
{
    if cores <= 2 {
        2
    } else if cores <= 8 {
        3
    } else {
        5
    }
}

/// The deadline rule of [`read_timeout_secs_for`].
pub open spec fn spec_read_timeout_secs(cores: int) -> int {
    if cores <= 2 {
        2
    } else if cores <= 8 {
        3
    } else {
        5
    }
}

/// The upstream dial deadline in seconds: 3, 5 or 8 by machine size.
pub fn connect_timeout_secs_for(cores: usize) -> (n: u64)
    ensures
        n == spec_connect_timeout_secs(cores as int),
{
    if cores <= 2 {
        3
    } else if cores <= 8 {
        5
    } else {
        8
    }
}

/// The deadline rule of [`connect_timeout_secs_for`].
pub open spec fn spec_connect_timeout_secs(cores: int) -> int {
    if cores <= 2 {
        3
    } else if cores <= 8 {
        5
    } else {
        8
    }
}

} // verus!
