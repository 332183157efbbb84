//! Clocks.  Nothing is known of the time a clock reads; the logic that
//! depends on time takes the reading as an argument and is verified for
//! every reading.
use vstd::prelude::*;

verus! {

#[verifier::external_type_specification]
#[verifier::external_body]
pub struct ExInstant(std::time::Instant);

/// `Instant::now()`: a reading of the monotonic clock.
#[verifier::external_body]
pub(crate) fn instant_now() -> std::time::Instant {
    std::time::Instant::now()
}

/// `Instant::elapsed`: the time passed on the monotonic clock since
/// `origin`.  Nothing is stated of it: it depends on when it is read.
#[verifier::external_body]
fn elapsed_since(origin: &std::time::Instant) -> core::time::Duration {
    origin.elapsed()
}

/// Nanoseconds elapsed on the monotonic clock since `origin`, in whole
/// nanoseconds truncated to 64 bits.
pub(crate) fn nanos_since(origin: &std::time::Instant) -> u64 {
    let d = elapsed_since(origin);
    let n = nanos_of(&d);
    #[verifier::truncate]
    (n as u64)
}

#[verifier::external_type_specification]
#[verifier::external_body]
pub struct ExSystemTime(std::time::SystemTime);

/// `SystemTime::now()`: a reading of the wall clock.
#[verifier::external_body]
fn system_now() -> std::time::SystemTime {
    std::time::SystemTime::now()
}

/// `SystemTime::duration_since(UNIX_EPOCH)`: the time since the epoch, or
/// `None` when the reading is earlier.  Nothing is stated of it.
#[verifier::external_body]
fn since_epoch(t: &std::time::SystemTime) -> Option<core::time::Duration> {
    t.duration_since(std::time::UNIX_EPOCH).ok()
}

/// Current wall-clock time in whole milliseconds since the UNIX epoch,
/// truncated to 64 bits (0 if the clock reads before the epoch).
pub(crate) fn now_ms() -> u64 {
    let t = system_now();
    match since_epoch(&t) {
        Some(d) => {
            let ms = nanos_of(&d) / 1_000_000;
            #[verifier::truncate]
            (ms as u64)
        },
        None => 0,
    }
}

/// The whole nanoseconds in a duration.
pub uninterp spec fn duration_nanos(d: core::time::Duration) -> u128;

/// `Duration::as_nanos`: the whole nanoseconds a duration holds.
#[verifier::external_body]
pub(crate) fn nanos_of(d: &core::time::Duration) -> (r: u128)
    ensures
        r == duration_nanos(*d),
{
    d.as_nanos()
}

/// A duration in nanoseconds, saturated to 64 bits.
pub open spec fn saturated_nanos(d: core::time::Duration) -> u64 {
    if duration_nanos(d) > u64::MAX {
        u64::MAX
    } else {
        duration_nanos(d) as u64
    }
}

/// A duration's whole nanoseconds, saturated to 64 bits.
pub fn duration_as_nanos(d: &core::time::Duration) -> (r: u64)
    ensures
        r == saturated_nanos(*d),
{
    let n = nanos_of(d);
    if n > u64::MAX as u128 {
        u64::MAX
    } else {
        n as u64
    }
}

} // verus!
