//! The wall clock behind the search deadline. A time stamp is opaque; the
//! search only ever asks how many milliseconds have passed since one was
//! taken, and nothing is promised of the answer: every caller must hold for
//! every value the clock may return.

use vstd::prelude::*;

verus! {

#[verifier::external_type_specification]
#[verifier::external_body]
pub struct ExInstant(std::time::Instant);

/// Relies on std::time::Instant::now: an opaque stamp of the present moment.
/// Nothing is promised of the value.
#[verifier::external_body]
pub fn instant_now() -> std::time::Instant {
    std::time::Instant::now()
}

/// Relies on std::time::Instant::elapsed: the wall-clock time since the
/// stamp was taken, here in whole milliseconds. Wall time depends on the
/// machine, so nothing is promised of the value.
#[verifier::external_body]
pub fn elapsed_millis(start: &std::time::Instant) -> u64 {
    start.elapsed().as_millis() as u64
}

} // verus!
