//! Monotonic time as nanoseconds since the start of the process.
use vstd::prelude::*;

verus! {

/// The time from `since` to `now`, none where the clock reads earlier.
pub open spec fn elapsed(since: u64, now: u64) -> u64 {
    if now >= since {
        (now - since) as u64
    } else {
        0
    }
}

/// Whether at least `millis` milliseconds lie between `since` and `now`.
pub open spec fn has_elapsed(since: u64, now: u64, millis: u64) -> bool {
    elapsed(since, now) >= millis * 1_000_000
}

/// The time from `since` to `now` in nanoseconds.
pub fn elapsed_ns(since: u64, now: u64) -> (nanos: u64)
    ensures
        nanos == elapsed(since, now),
{
    now.saturating_sub(since)
}

/// The time from `since` to `now` in whole microseconds.
pub fn elapsed_us(since: u64, now: u64) -> (micros: u64)
    ensures
        micros == elapsed(since, now) / 1000,
{
    elapsed_ns(since, now) / 1000
}

/// Whether at least `millis` milliseconds lie between `since` and `now`.
pub fn elapsed_at_least(since: u64, now: u64, millis: u64) -> (reached: bool)
    ensures
        reached == has_elapsed(since, now, millis),
{
    elapsed_ns(since, now) as u128 >= millis as u128 * 1_000_000
}

/// The sum, or the largest `u64` where it does not fit.
pub open spec fn saturating_sum(a: int, b: int) -> u64 {
    if a + b > u64::MAX {
        u64::MAX
    } else {
        (a + b) as u64
    }
}

/// The product, or the largest `u64` where it does not fit.
pub open spec fn saturating_product(a: int, b: int) -> u64 {
    if a * b > u64::MAX {
        u64::MAX
    } else {
        (a * b) as u64
    }
}

/// The product, or the largest `u64` where it does not fit.
pub fn saturating_mul(a: u64, b: u64) -> (product: u64)
    ensures
        product == saturating_product(a as int, b as int),
{
    match a.checked_mul(b) {
        Some(product) => product,
        None => u64::MAX,
    }
}

} // verus!
