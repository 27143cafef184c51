use vstd::prelude::*;
use std::time::{Instant, SystemTime, UNIX_EPOCH};

verus! {

/// `std::time::Instant`, carried opaquely as the rate limiter's clock origin.
#[verifier::external_type_specification]
#[verifier::external_body]
pub struct ExInstant(Instant);

/// Relies on `SystemTime::now` and `duration_since(UNIX_EPOCH)`: whole
/// milliseconds since the Unix epoch, or zero for a clock set before it.
#[verifier::external_body]
pub(crate) fn unix_millis() -> (r: u64) {
    match SystemTime::now().duration_since(UNIX_EPOCH) {
        Ok(d) => d.as_millis() as u64,
        Err(_) => 0,
    }
}

/// Relies on `Instant::now`: a reading of the monotonic clock.
#[verifier::external_body]
pub(crate) fn monotonic_now() -> (r: Instant) {
    Instant::now()
}

/// Relies on `Instant::elapsed`: whole milliseconds since `origin`.
#[verifier::external_body]
pub(crate) fn millis_since(origin: &Instant) -> (r: u64) {
    origin.elapsed().as_millis() as u64
}

} // verus!
