//! The clock as the scheduler sees it.
//!
//! Time is consumed, never computed: the scheduler reads a monotonic instant,
//! asks how long ago it was, and compares two durations. The functions in this
//! module are the only places where the standard clock is touched; none of them
//! is verified, and each states no more than the standard library documents.

use std::time::{Duration, Instant};
use vstd::prelude::*;

verus! {

/// `std::time::Instant`, carried through the library as an opaque value.
#[verifier::external_type_specification]
#[verifier::external_body]
pub struct ExInstant(Instant);

/// The length of a duration in whole nanoseconds (`Duration::as_nanos`).
pub uninterp spec fn duration_nanos(d: Duration) -> nat;

/// Trusted: `Duration::from_secs`. A duration made from `secs` seconds lasts
/// `secs * 10^9` nanoseconds.
#[verifier::external_body]
pub(crate) fn duration_from_secs(secs: u64) -> (d: Duration)
    ensures
        duration_nanos(d) == secs * 1_000_000_000,
{
    Duration::from_secs(secs)
}

/// Trusted: `>=` on `std::time::Duration`, which orders durations by their
/// length.
#[verifier::external_body]
pub(crate) fn duration_at_least(elapsed: Duration, target: Duration) -> (reached: bool)
    ensures
        reached == (duration_nanos(elapsed) >= duration_nanos(target)),
{
    elapsed >= target
}

/// The text that `Debug` prints for a duration of the given length.
pub uninterp spec fn duration_debug_text(nanos: nat) -> Seq<char>;

/// Trusted: the `Debug` formatting of `std::time::Duration`, which is a
/// function of the duration's length alone.
#[verifier::external_body]
pub(crate) fn duration_debug(d: Duration) -> (text: String)
    ensures
        text@ == duration_debug_text(duration_nanos(d)),
{
    format!("{:?}", d)
}

/// Trusted: `Instant::now`. Nothing is claimed of the instant that comes back.
#[verifier::external_body]
pub(crate) fn instant_now() -> Instant {
    Instant::now()
}

/// Trusted: `Instant::elapsed`. Nothing is claimed of the duration that comes
/// back: it depends on when the call is made.
#[verifier::external_body]
pub(crate) fn instant_elapsed(since: &Instant) -> Duration {
    since.elapsed()
}

} // verus!
