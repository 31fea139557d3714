//! The wall clock.

use vstd::prelude::*;

verus! {

/// `std::time::SystemTime`, a reading of the wall clock.
#[verifier::external_type_specification]
#[verifier::external_body]
pub struct ExSystemTime(std::time::SystemTime);

/// `std::time::SystemTimeError`, a reading that lies before the epoch.
#[verifier::external_type_specification]
#[verifier::external_body]
pub struct ExSystemTimeError(std::time::SystemTimeError);

/// `std::time::Instant`, a reading of the monotonic clock.
#[verifier::external_type_specification]
#[verifier::external_body]
pub struct ExInstant(std::time::Instant);

/// `SystemTime::now`. Nothing is claimed of the reading.
#[verifier::external_body]
fn system_now() -> (now: std::time::SystemTime) {
    std::time::SystemTime::now()
}

/// What `SystemTime::duration_since` gives from the Unix epoch to a reading: nothing where the
/// reading lies before it.
pub uninterp spec fn elapsed_since_epoch(time: std::time::SystemTime) -> Option<
    core::time::Duration,
>;

/// The whole milliseconds that `Duration::as_millis` counts.
pub uninterp spec fn duration_millis(duration: core::time::Duration) -> u128;

/// `SystemTime::duration_since`, from the Unix epoch.
#[verifier::external_body]
fn since_epoch(time: &std::time::SystemTime) -> (elapsed: Result<
    core::time::Duration,
    std::time::SystemTimeError,
>)
    ensures
        match elapsed {
            Ok(duration) => elapsed_since_epoch(*time) == Some(duration),
            Err(_) => elapsed_since_epoch(*time) is None,
        },
{
    time.duration_since(std::time::UNIX_EPOCH)
}

/// `Duration::as_millis`.
#[verifier::external_body]
fn whole_millis(duration: &core::time::Duration) -> (millis: u128)
    ensures
        millis == duration_millis(*duration),
{
    duration.as_millis()
}

/// `Instant::now`. Nothing is claimed of the reading.
#[verifier::external_body]
pub(crate) fn instant_now() -> (now: std::time::Instant) {
    std::time::Instant::now()
}

/// The milliseconds of a reading: those that elapsed since the epoch, or zero before it.
pub fn epoch_ms(elapsed: Option<u128>) -> (millis: i64)
    ensures
        elapsed is None ==> millis == 0,
        elapsed is Some ==> millis == elapsed->0 as i64,
{
    match elapsed {
        Some(millis) => millis as i64,
        None => 0,
    }
}

/// A reading of the wall clock in milliseconds: those since the epoch, or zero before it.
pub open spec fn reading_ms(time: std::time::SystemTime) -> i64 {
    match elapsed_since_epoch(time) {
        Some(elapsed) => duration_millis(elapsed) as i64,
        None => 0,
    }
}

/// Whether a number is what some reading of the wall clock comes to.
pub open spec fn is_reading(millis: i64) -> bool {
    exists|time: std::time::SystemTime| millis == #[trigger] reading_ms(time)
}

/// The wall clock in milliseconds.
pub(crate) fn now_ms() -> (millis: i64)
    ensures
        is_reading(millis),
{
    let now = system_now();
    let millis = match since_epoch(&now) {
        Ok(elapsed) => epoch_ms(Some(whole_millis(&elapsed))),
        Err(_) => epoch_ms(None),
    };
    assert(millis == reading_ms(now));
    millis
}

} // verus!
