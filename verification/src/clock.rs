//! Wall-clock time (crate `chrono`), as Unix milliseconds.

use vstd::prelude::*;

verus! {

/// Every instant that `chrono::DateTime<Utc>` can represent lies within
/// the years -262144..=262143, so its Unix time in milliseconds is
/// smaller than 10^16 in magnitude.
pub open spec fn in_clock_range(t: i64) -> bool {
    -10_000_000_000_000_000 < t < 10_000_000_000_000_000
}

/// Calls `chrono::Utc::now` and returns it as Unix milliseconds.
/// Trusted: only that the value lies in the range that `DateTime<Utc>`
/// can represent; which instant it is depends on the clock.
#[verifier::external_body]
pub(crate) fn now_millis() -> (t: i64)
    ensures
        in_clock_range(t),
{
    chrono::Utc::now().timestamp_millis()
}

/// Calls `chrono::Utc::now().format("%Y%m%d%H%M%S")`. Nothing is claimed
/// of the text: it depends on the clock.
#[verifier::external_body]
pub(crate) fn now_stamp() -> (s: String) {
    chrono::Utc::now().format("%Y%m%d%H%M%S").to_string()
}

/// Calls `chrono::Utc::now().to_rfc3339()`. Nothing is claimed of the
/// text: it depends on the clock.
#[verifier::external_body]
pub(crate) fn now_rfc3339() -> (s: String) {
    chrono::Utc::now().to_rfc3339()
}

/// Truncation toward zero of a signed quotient, as Rust's `/` does.
pub open spec fn div_trunc(a: int, b: int) -> int
    recommends
        b > 0,
{
    if a >= 0 {
        a / b
    } else {
        -((-a) / b)
    }
}

/// Whole seconds in a span of milliseconds, truncated toward zero (as
/// `chrono::TimeDelta::num_seconds` does).
pub fn whole_seconds(span_ms: i128) -> (s: i128)
    requires
        -(u64::MAX as int) <= span_ms <= u64::MAX,
    ensures
        s == div_trunc(span_ms as int, 1000),
{
    if span_ms >= 0 {
        span_ms / 1000
    } else {
        let neg: i128 = -span_ms;
        -(neg / 1000)
    }
}

} // verus!

verus! {

/// Whole seconds of a Unix time in milliseconds, rounded down (the `%s`
/// field of `chrono`'s formatting).
pub fn floor_seconds(ms: i64) -> (s: i64)
    ensures
        s == ms / 1000,
{
    if ms >= 0 {
        ms / 1000
    } else {
        -((-(ms + 1)) / 1000) - 1
    }
}

} // verus!
