//! The monotonic clock that stamps the ticks.

use vstd::prelude::*;

verus! {

/// `Instant` of `bevy::utils`, which on this platform is that of `std::time`.
#[verifier::external_type_specification]
#[verifier::external_body]
pub struct ExInstant(bevy::utils::Instant);

/// `Instant::now`: the moment of the call. Nothing is said of it.
#[verifier::external_body]
pub(crate) fn clock_start() -> (start: bevy::utils::Instant) {
    bevy::utils::Instant::now()
}

/// `Instant::now` and `Instant::duration_since`: the whole milliseconds that
/// have gone by since `start`. Nothing is said of their number.
#[verifier::external_body]
pub(crate) fn clock_millis(start: &bevy::utils::Instant) -> (millis: u64) {
    bevy::utils::Instant::now().duration_since(*start).as_millis() as u64
}

} // verus!
