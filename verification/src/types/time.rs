//! The raw monotonic clock, which all processes share.
use vstd::prelude::*;

verus! {

/// A clock reading in nanoseconds. Negative parts, which the clock never
/// gives, count as 0.
pub fn mono_ns(sec: i64, nsec: i64) -> (r: u64)
    requires
        (if sec > 0 {
            sec as int
        } else {
            0
        }) * 1_000_000_000 + (if nsec > 0 {
            nsec as int
        } else {
            0
        }) <= u64::MAX,
    ensures
        r == (if sec > 0 {
            sec as int
        } else {
            0
        }) * 1_000_000_000 + (if nsec > 0 {
            nsec as int
        } else {
            0
        }),
{
    let s: u64 = if sec > 0 {
        sec as u64
    } else {
        0
    };
    let n: u64 = if nsec > 0 {
        nsec as u64
    } else {
        0
    };
    s * 1_000_000_000 + n
}

} // verus!
