//! Wall-clock timing of a single operation.

use std::time::Duration;
use std::time::Instant;
use vstd::prelude::*;

verus! {

/// `std::time::Instant`, opaque to the verifier.
#[verifier::external_type_specification]
#[verifier::external_body]
pub struct ExInstant(Instant);

/// `Instant::now` reads the clock; nothing is claimed of what it returns.
pub assume_specification[ Instant::now ]() -> Instant;

/// `Instant::elapsed` reads the clock again; nothing is claimed of the
/// duration it returns.
pub assume_specification[ Instant::elapsed ](start: &Instant) -> Duration;

/// Runs `operation` once and returns its result with the time it took.
///
/// The first component is exactly what `operation` returned; the second is
/// whatever the clock measured and carries no guarantee.
pub fn time_operation<T, F: FnOnce() -> T>(operation: F) -> (timed: (T, Duration))
    requires
        operation.requires(()),
    ensures
        operation.ensures((), timed.0),
{
    let start = Instant::now();
    let result = operation();
    let duration = start.elapsed();
    (result, duration)
}

} // verus!
