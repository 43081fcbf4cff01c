//! When the cached measurements of the processes are refreshed.
use vstd::prelude::*;

verus! {

/// The age, in nanoseconds, beyond which the cached measurements of the
/// processes are refreshed: two seconds.
pub const REFRESH_INTERVAL_NANOS: u128 = 2_000_000_000u128;

/// Whether measurements taken `elapsed_nanos` nanoseconds ago are to be
/// refreshed: when more than two seconds have passed.
pub fn refresh_needed(elapsed_nanos: u128) -> (b: bool)
    ensures
        b == (elapsed_nanos > REFRESH_INTERVAL_NANOS),
{
    elapsed_nanos > REFRESH_INTERVAL_NANOS
}

} // verus!
