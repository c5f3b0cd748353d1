//! Reading the clocks of the system.
//!
//! The wall clock is read through std's `SystemTime`, and the monotonic clock through std's `Instant`; what they
//! return depends on the moment of the call, so nothing is promised about a reading that comes back. The time
//! between two readings of the monotonic clock is named by [`instant_duration_since`].
use vstd::prelude::*;

verus! {

/// `std::time::SystemTime`, carried through opaquely.
#[verifier::external_type_specification]
#[verifier::external_body]
pub struct ExSystemTime(std::time::SystemTime);

/// Calls `std::time::SystemTime::now`. Nothing is promised about the result: it is the moment of the call.
#[verifier::external_body]
fn system_time_now() -> (t: std::time::SystemTime) {
    std::time::SystemTime::now()
}

/// Calls `std::time::SystemTime::duration_since` with `UNIX_EPOCH`, turning its error into `None`.
/// Nothing is promised about the duration: it depends on the time `t` holds.
#[verifier::external_body]
fn duration_since_unix_epoch(t: std::time::SystemTime) -> (d: Option<std::time::Duration>) {
    t.duration_since(std::time::UNIX_EPOCH).ok()
}

/// std's monotonic `Instant`, carried through opaquely.
#[verifier::external_type_specification]
#[verifier::external_body]
pub struct ExStdInstant(std::time::Instant);

/// The whole nanoseconds of a duration, as `Duration::as_nanos` gives them: a function of the duration alone.
pub uninterp spec fn duration_nanos(d: std::time::Duration) -> u128;

/// The time from the reading `earlier` of the monotonic clock to the reading `later`, as
/// `Instant::duration_since` gives it (zero when `earlier` is the later one): a function of the two readings
/// alone.
pub uninterp spec fn instant_duration_since(later: std::time::Instant, earlier: std::time::Instant) -> std::time::Duration;

/// Calls `std::time::Duration::as_nanos`: the whole nanoseconds of the duration, which are [`duration_nanos`] of
/// it.
#[verifier::external_body]
pub(crate) fn duration_as_nanos(d: &std::time::Duration) -> (n: u128)
    ensures
        n == duration_nanos(*d),
{
    d.as_nanos()
}

/// Calls `std::time::Instant::now`: a reading of the monotonic clock. Nothing is promised about it: it is the
/// moment of the call.
#[verifier::external_body]
pub(crate) fn monotonic_now() -> (t: std::time::Instant) {
    std::time::Instant::now()
}

/// Calls `std::time::Instant::duration_since`: the time from the reading `earlier` to the reading `later`, which
/// is [`instant_duration_since`] of them.
#[verifier::external_body]
pub(crate) fn duration_since(later: &std::time::Instant, earlier: &std::time::Instant) -> (d: std::time::Duration)
    ensures
        d == instant_duration_since(*later, *earlier),
{
    later.duration_since(*earlier)
}

/// The number of nanoseconds since the Unix epoch according to the system clock, or `None` when the clock
/// reads a moment before that epoch.
pub fn unix_nanos_now() -> (n: Option<u128>) {
    let t = system_time_now();
    match duration_since_unix_epoch(t) {
        Some(d) => Some(duration_as_nanos(&d)),
        None => None,
    }
}

} // verus!
