//! The wall clock.

use std::time::{Duration, SystemTime, SystemTimeError};
use vstd::prelude::*;

verus! {

#[verifier::external_type_specification]
#[verifier::external_body]
pub struct ExSystemTime(SystemTime);

#[verifier::external_type_specification]
#[verifier::external_body]
pub struct ExSystemTimeError(SystemTimeError);

/// How long after the Unix epoch `SystemTime::duration_since` finds a time to be; nothing for a time
/// before it.
pub uninterp spec fn since_unix_epoch(time: SystemTime) -> Option<Duration>;

/// The whole milliseconds that `Duration::as_millis` finds in a duration.
pub uninterp spec fn whole_millis(duration: Duration) -> u128;

/// The whole milliseconds from the Unix epoch to a time; nothing for a time before it.
pub open spec fn ms_at(time: SystemTime) -> Option<u128> {
    match since_unix_epoch(time) {
        Some(elapsed) => Some(whole_millis(elapsed)),
        None => None,
    }
}

/// Whether `ms` is what some time comes to.
pub open spec fn reads_clock(ms: Option<u128>) -> bool {
    exists|time: SystemTime| ms == #[trigger] ms_at(time)
}

/// Whether `ms` is what some time comes to, or zero for a time before the Unix epoch.
pub open spec fn reads_clock_or_zero(ms: u128) -> bool {
    exists|time: SystemTime|
        ms == match #[trigger] ms_at(time) {
            Some(known) => known,
            None => 0,
        }
}

/// `SystemTime::now`: whatever the machine's clock shows. Which time that is, and that it does not
/// run backwards, is not said.
pub assume_specification[ SystemTime::now ]() -> SystemTime;

/// `SystemTime::duration_since` the Unix epoch: the result depends on the time alone.
#[verifier::external_body]
fn since_epoch(time: SystemTime) -> (r: Result<Duration, SystemTimeError>)
    ensures
        r is Ok <==> since_unix_epoch(time) is Some,
        r matches Ok(elapsed) ==> since_unix_epoch(time) == Some(elapsed),
{
    time.duration_since(SystemTime::UNIX_EPOCH)
}

/// `Duration::as_millis`: the result depends on the duration alone.
pub assume_specification[ Duration::as_millis ](duration: &Duration) -> (r: u128)
    ensures
        r == whole_millis(*duration),
;

/// Milliseconds from the Unix epoch to a time, or `None` for a time before it.
pub fn ms_since_epoch(time: SystemTime) -> (r: Option<u128>)
    ensures
        r == ms_at(time),
{
    match since_epoch(time) {
        Ok(elapsed) => Some(elapsed.as_millis()),
        Err(_) => None,
    }
}

/// Milliseconds since the Unix epoch, or `None` when the clock stands before it.
pub(crate) fn epoch_ms() -> (r: Option<u128>)
    ensures
        reads_clock(r),
{
    ms_since_epoch(SystemTime::now())
}

/// Milliseconds since the Unix epoch, or zero when the clock stands before it.
pub fn now_ms() -> (r: u128)
    ensures
        reads_clock_or_zero(r),
{
    let time = SystemTime::now();
    match ms_since_epoch(time) {
        Some(ms) => ms,
        None => {
            assert(ms_at(time) is None);
            0
        },
    }
}

/// A time is counted in the whole milliseconds of what lies between it and the Unix epoch; a time
/// before the epoch is not counted, and stands as zero where a number is needed.
pub proof fn times_are_counted_from_the_epoch(time: SystemTime, ms: u128)
    ensures
        since_unix_epoch(time) matches Some(elapsed) ==> ms_at(time) == Some(whole_millis(elapsed)),
        since_unix_epoch(time) is None ==> ms_at(time) is None,
        reads_clock(Some(ms)) <==> exists|t: SystemTime| Some(ms) == #[trigger] ms_at(t),
        reads_clock(None) <==> exists|t: SystemTime| (#[trigger] ms_at(t)) is None,
        reads_clock_or_zero(ms) <==> reads_clock(Some(ms)) || (ms == 0 && reads_clock(None)),
{
    if reads_clock(Some(ms)) {
        let t = choose|t: SystemTime| Some(ms) == #[trigger] ms_at(t);
        assert(ms_at(t) == Some(ms));
    }
    if exists|t: SystemTime| (#[trigger] ms_at(t)) is None {
        let t = choose|t: SystemTime| (#[trigger] ms_at(t)) is None;
        assert(ms_at(t) is None);
    }
    if reads_clock_or_zero(ms) {
        let t = choose|t: SystemTime|
            ms == match #[trigger] ms_at(t) {
                Some(known) => known,
                None => 0,
            };
        assert(ms_at(t) == Some(ms) || ms_at(t) is None);
    }
}

} // verus!
