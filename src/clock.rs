//! The fixed thirty-second window shown beside every code.

use vstd::prelude::*;

verus! {

/// Seconds left in the fixed thirty-second window that contains `time`.
pub open spec fn remaining_spec(time: int) -> int {
    30 - time % 30
}

/// Seconds left in the thirty-second window that contains `time`
/// (seconds since the Unix epoch).
pub fn seconds_remaining_at(time: u64) -> (r: u64)
    ensures
        r as int == remaining_spec(time as int),
        1 <= r <= 30,
{
    30 - time % 30
}

/// Relies on `SystemTime::now` and `SystemTime::duration_since`: whole
/// seconds since the Unix epoch, read from the system clock; a clock set
/// before the epoch reads as zero.
#[verifier::external_body]
pub(crate) fn unix_now() -> (r: u64) {
    std::time::SystemTime::now().duration_since(std::time::UNIX_EPOCH).map_or(0, |d| d.as_secs())
}

/// Seconds left in the current thirty-second window, by the system clock.
pub fn seconds_remaining() -> (r: u64)
    ensures
        1 <= r <= 30,
        exists|t: u64| r as int == remaining_spec(t as int),
{
    let t = unix_now();
    seconds_remaining_at(t)
}

/// The remaining time always lies between 1 and 30, and one second later it
/// is one less, except that after 1 it starts again at 30.
pub proof fn lemma_remaining_counts_down(time: nat)
    ensures
        1 <= remaining_spec(time as int) <= 30,
        remaining_spec(time as int + 1) == if remaining_spec(time as int) == 1 {
            30
        } else {
            remaining_spec(time as int) - 1
        },
{
    let t = time as int;
    assert(t % 30 == 29 ==> (t + 1) % 30 == 0) by (nonlinear_arith);
    assert(t % 30 < 29 && t >= 0 ==> (t + 1) % 30 == t % 30 + 1) by (nonlinear_arith);
    assert(0 <= t % 30 < 30) by (nonlinear_arith);
}

} // verus!
