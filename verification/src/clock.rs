//! The tick counter that all durations are measured on.

use vstd::prelude::*;

verus! {

/// Reads the monotonic tick counter; one tick is one nanosecond.
///
/// Trusted: calls `minstant::Instant::now` and expresses the instant as the
/// nanoseconds that `minstant::Instant::duration_since` counts from
/// `Instant::ZERO`. Nothing is claimed of the value: it is whatever the
/// clock shows.
#[verifier::external_body]
pub(crate) fn now() -> (ticks: u64) {
    minstant::Instant::now().duration_since(minstant::Instant::ZERO).as_nanos() as u64
}

} // verus!
