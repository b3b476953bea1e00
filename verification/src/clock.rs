use vstd::prelude::*;

verus! {

/// A clock reading of `now` seconds is later than `bound`: what a refusal for a clock that
/// reads too late says of the reading it got.
pub open spec fn reads_past(now: u64, bound: int) -> bool {
    now > bound
}

/// The system clock's time type, carried through opaquely.
#[verifier::external_type_specification]
#[verifier::external_body]
pub struct ExSystemTime(std::time::SystemTime);

/// The system clock's current reading: `std::time::SystemTime::now`. Nothing is promised of
/// it; it depends on the machine's clock.
#[verifier::external_body]
fn system_now() -> std::time::SystemTime {
    std::time::SystemTime::now()
}

/// The time from the Unix epoch to `t`: `SystemTime::duration_since(UNIX_EPOCH)`, `None` when
/// `t` lies before the epoch.
#[verifier::external_body]
fn since_epoch(t: std::time::SystemTime) -> Option<std::time::Duration> {
    t.duration_since(std::time::UNIX_EPOCH).ok()
}

/// The whole seconds of `d`: `Duration::as_secs`.
#[verifier::external_body]
fn whole_secs(d: std::time::Duration) -> u64 {
    d.as_secs()
}

/// The whole milliseconds of `d`: `Duration::as_millis`.
#[verifier::external_body]
fn whole_millis(d: std::time::Duration) -> u128 {
    d.as_millis()
}

/// The whole microseconds of `d`: `Duration::as_micros`.
#[verifier::external_body]
fn whole_micros(d: std::time::Duration) -> u128 {
    d.as_micros()
}

/// The wall clock, in whole seconds since the Unix epoch (0 if the clock stands before it).
pub(crate) fn now_secs() -> u64 {
    match since_epoch(system_now()) {
        Some(d) => whole_secs(d),
        None => 0,
    }
}

/// The wall clock, in whole milliseconds since the Unix epoch, kept to its low 64 bits (0 if
/// the clock stands before the epoch).
pub(crate) fn now_millis() -> u64 {
    match since_epoch(system_now()) {
        Some(d) => whole_millis(d) as u64,
        None => 0,
    }
}

/// The wall clock, in whole microseconds since the Unix epoch (0 if the clock stands before
/// it, saturated at `u64::MAX`).
pub(crate) fn now_micros() -> u64 {
    match since_epoch(system_now()) {
        Some(d) => {
            let m = whole_micros(d);
            if m > u64::MAX as u128 {
                u64::MAX
            } else {
                m as u64
            }
        },
        None => 0,
    }
}

} // verus!
