//! The system clock.

use vstd::prelude::*;

verus! {

/// `std::time::SystemTime`, a point in time.
#[verifier::external_type_specification]
#[verifier::external_body]
pub struct ExSystemTime(std::time::SystemTime);

/// How far a point in time lies behind the Unix epoch; nothing if it lies before it.
pub uninterp spec fn epoch_distance(t: std::time::SystemTime) -> Option<std::time::Duration>;

/// The whole microseconds of a duration.
pub uninterp spec fn duration_micros(d: std::time::Duration) -> u128;

/// `std::time::SystemTime::now`: the current time. Nothing is known of it.
#[verifier::external_body]
fn system_time() -> (t: std::time::SystemTime) {
    std::time::SystemTime::now()
}

/// `std::time::SystemTime::duration_since` the Unix epoch: nothing if the time
/// lies before it.
#[verifier::external_body]
fn since_epoch(t: std::time::SystemTime) -> (d: Option<std::time::Duration>)
    ensures
        d == epoch_distance(t),
{
    t.duration_since(std::time::UNIX_EPOCH).ok()
}

/// `std::time::Duration::as_micros`: whole microseconds.
#[verifier::external_body]
fn whole_micros(d: std::time::Duration) -> (us: u128)
    ensures
        us == duration_micros(d),
{
    d.as_micros()
}

/// `std::time::Duration::as_secs`: whole seconds, which are as many as the whole
/// microseconds make.
#[verifier::external_body]
fn whole_seconds(d: std::time::Duration) -> (secs: u64)
    ensures
        secs == duration_micros(d) / 1_000_000,
{
    d.as_secs()
}

/// A number of microseconds as a `u64`, the greatest one if it does not fit.
pub open spec fn clamped(us: u128) -> u64 {
    if us <= u64::MAX {
        us as u64
    } else {
        u64::MAX
    }
}

/// Microseconds from the Unix epoch to a point in time, 0 before it.
pub open spec fn micros_at(t: std::time::SystemTime) -> u64 {
    match epoch_distance(t) {
        Some(d) => clamped(duration_micros(d)),
        None => 0,
    }
}

/// Whole seconds from the Unix epoch to a point in time, 0 before it.
pub open spec fn seconds_at(t: std::time::SystemTime) -> u64 {
    match epoch_distance(t) {
        Some(d) => (duration_micros(d) / 1_000_000) as u64,
        None => 0,
    }
}

/// A number of microseconds as a `u64`, the greatest one if it does not fit.
pub fn clamp_micros(us: u128) -> (r: u64)
    ensures
        r == clamped(us),
{
    if us <= u64::MAX as u128 {
        us as u64
    } else {
        u64::MAX
    }
}

/// Microseconds since the Unix epoch, 0 before it, at some point in time.
pub fn now_us() -> (us: u64)
    ensures
        exists|t: std::time::SystemTime| us == #[trigger] micros_at(t),
{
    let t = system_time();
    let us: u64 = match since_epoch(t) {
        Some(d) => clamp_micros(whole_micros(d)),
        None => 0,
    };
    assert(us == micros_at(t));
    us
}

/// Whole seconds since the Unix epoch, 0 before it, at some point in time.
pub fn unix_now() -> (secs: u64)
    ensures
        exists|t: std::time::SystemTime| secs == #[trigger] seconds_at(t),
{
    let t = system_time();
    let secs: u64 = match since_epoch(t) {
        Some(d) => whole_seconds(d),
        None => 0,
    };
    assert(secs == seconds_at(t));
    secs
}

} // verus!
