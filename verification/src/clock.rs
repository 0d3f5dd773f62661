//! The clock: wall time for log timestamps and monotonic time for deadlines.
use std::time::{Duration, Instant, SystemTime};
use vstd::prelude::*;

verus! {

#[verifier::external_type_specification]
#[verifier::external_body]
pub struct ExSystemTime(std::time::SystemTime);

#[verifier::external_type_specification]
#[verifier::external_body]
pub struct ExInstant(std::time::Instant);

/// `SystemTime::now`: the current wall-clock time.
#[verifier::external_body]
pub(crate) fn system_now() -> SystemTime {
    SystemTime::now()
}

/// What `SystemTime::duration_since(UNIX_EPOCH)` gives for a wall-clock
/// time, its error dropped: the time elapsed since the Unix epoch, or
/// `None` for a time before it. It depends on the time alone.
pub uninterp spec fn epoch_offset_of(t: SystemTime) -> Option<Duration>;

/// `SystemTime::duration_since(UNIX_EPOCH)`, its error dropped: the time
/// elapsed since the Unix epoch, or `None` for a time before it.
#[verifier::external_body]
pub(crate) fn since_unix_epoch(t: SystemTime) -> (r: Option<Duration>)
    ensures
        r == epoch_offset_of(t),
{
    t.duration_since(std::time::UNIX_EPOCH).ok()
}

/// The whole seconds of a duration, as `Duration::as_secs` gives them.
pub uninterp spec fn secs_of(d: Duration) -> u64;

/// `Duration::as_secs`: the whole seconds of a duration.
#[verifier::external_body]
pub(crate) fn duration_secs(d: &Duration) -> (r: u64)
    ensures
        r == secs_of(*d),
{
    d.as_secs()
}

/// The whole milliseconds of a duration's fractional second, as
/// `Duration::subsec_millis` gives them.
pub uninterp spec fn subsec_millis_of(d: Duration) -> u32;

/// `Duration::subsec_millis`: the whole milliseconds of the fractional
/// second, always below 1000.
#[verifier::external_body]
pub(crate) fn duration_subsec_millis(d: &Duration) -> (r: u32)
    ensures
        r == subsec_millis_of(*d),
        r < 1000,
{
    d.subsec_millis()
}

/// The whole milliseconds of a duration, as `Duration::as_millis` gives
/// them.
pub uninterp spec fn millis_of(d: Duration) -> u128;

/// `Duration::as_millis`: the whole milliseconds of a duration, a function
/// of the duration alone.
#[verifier::external_body]
pub(crate) fn duration_millis(d: &Duration) -> (r: u128)
    ensures
        r == millis_of(*d),
{
    d.as_millis()
}

/// `Instant::now`: the current monotonic time.
#[verifier::external_body]
pub(crate) fn instant_now() -> Instant {
    Instant::now()
}

/// What `Instant::saturating_duration_since` gives: the time from
/// `earlier` to `later`, zero when `later` is not after `earlier`. It
/// depends on the two instants alone.
pub uninterp spec fn since_of(later: Instant, earlier: Instant) -> Duration;

/// `Instant::saturating_duration_since`: the time from `earlier` to `later`,
/// zero when `later` is not after `earlier`.
#[verifier::external_body]
pub(crate) fn saturating_since(later: Instant, earlier: Instant) -> (r: Duration)
    ensures
        r == since_of(later, earlier),
{
    later.saturating_duration_since(earlier)
}

} // verus!
