//! Time as the store sees it.

use core::time::Duration;
use vstd::prelude::*;

verus! {

/// The length of a `Duration`, in nanoseconds.
pub uninterp spec fn duration_nanos(d: core::time::Duration) -> nat;

/// `Duration::as_secs` gives the whole seconds.
pub assume_specification[ core::time::Duration::as_secs ](d: &core::time::Duration) -> (secs: u64)
    ensures
        secs == duration_nanos(*d) / 1_000_000_000,
;

/// `Duration::as_nanos` gives the length in nanoseconds.
pub assume_specification[ core::time::Duration::as_nanos ](d: &core::time::Duration) -> (nanos: u128)
    ensures
        nanos == duration_nanos(*d),
;

/// `Duration::new` joins whole seconds and a fraction of one, in nanoseconds.
pub assume_specification[ core::time::Duration::new ](secs: u64, nanos: u32) -> (d:
    core::time::Duration)
    requires
        nanos < 1_000_000_000,
    ensures
        duration_nanos(d) == secs * 1_000_000_000 + nanos,
;

/// A moment: seconds since the Unix epoch, and the same instant in words.
#[derive(Debug)]
pub struct Moment {
    pub secs: i64,
    pub timestamp: String,
}

/// The whole seconds of a duration, as far as a signed 64-bit column can hold them.
pub open spec fn column_secs(d: Duration) -> int {
    let secs = duration_nanos(d) / 1_000_000_000;
    if secs <= i64::MAX {
        secs as int
    } else {
        i64::MAX as int
    }
}

/// The whole seconds of a duration, as far as a signed 64-bit column can hold them.
pub fn secs_for_column(d: Duration) -> (secs: i64)
    ensures
        secs == column_secs(d),
{
    let secs: u64 = d.as_secs();
    if secs <= i64::MAX as u64 {
        secs as i64
    } else {
        i64::MAX
    }
}

/// How often to look for leases that have run out: every half of the lease time, but not more
/// often than every second.
pub open spec fn sweep_nanos(timeout: Duration) -> nat {
    if duration_nanos(timeout) / 2 < 1_000_000_000 {
        1_000_000_000
    } else {
        duration_nanos(timeout) / 2
    }
}

/// How often to look for leases that have run out.
pub fn sweep_interval(timeout: Duration) -> (interval: Duration)
    ensures
        duration_nanos(interval) == sweep_nanos(timeout),
{
    let half: u128 = timeout.as_nanos() / 2;
    if half < 1_000_000_000 {
        return Duration::new(1, 0);
    }
    let secs: u64 = timeout.as_secs();
    let whole: u128 = half / 1_000_000_000;
    let rest: u128 = half % 1_000_000_000;
    assert(whole <= secs);
    Duration::new(whole as u64, rest as u32)
}

} // verus!
