//! The wall clock, in seconds since the Unix epoch and as text.
use std::time::{Duration, SystemTime, SystemTimeError};
use vstd::prelude::*;
use crate::calendar::{law_utc_text_reads_back, tells_second, utc_from_epoch, utc_text};

verus! {

/// A reading of the system clock. It is only handed on.
#[verifier::external_type_specification]
#[verifier::external_body]
pub struct ExSystemTime(SystemTime);

/// The error of a clock that is set before the time it is compared with. It is only told
/// apart from a duration.
#[verifier::external_type_specification]
#[verifier::external_body]
pub struct ExSystemTimeError(SystemTimeError);

/// `SystemTime::now` reads the system clock. Nothing is claimed of what it shows.
pub assume_specification[ SystemTime::now ]() -> (r: SystemTime);

/// `Duration::as_secs` gives the whole seconds of a duration. A duration only
/// passes through here on its way from the clock, so nothing is claimed of it.
pub assume_specification[ Duration::as_secs ](d: &Duration) -> (r: u64);

/// `SystemTime::duration_since` with the Unix epoch as the earlier time. Nothing
/// is claimed: what comes back rests on the clock, and it is an error for a clock
/// that is set before the epoch.
#[verifier::external_body]
fn since_epoch(t: &SystemTime) -> (r: Result<Duration, SystemTimeError>) {
    t.duration_since(SystemTime::UNIX_EPOCH)
}

/// The unix time for what the clock showed: a clock that is set before the epoch
/// shows nothing and counts as 0.
pub fn unix_time(shown: Option<u64>) -> (r: u64)
    ensures
        r == (match shown {
            Some(secs) => secs,
            None => 0,
        }),
{
    match shown {
        Some(secs) => secs,
        None => 0,
    }
}

/// The system clock can show `secs` when it is read: it shows the whole seconds between
/// the epoch and the time read, or 0 for a time before the epoch.
pub closed spec fn clock_shows(secs: u64) -> bool {
    exists|t: SystemTime, elapsed: Result<Duration, SystemTimeError>|
        #[trigger] call_ensures(SystemTime::now, (), t) && #[trigger] call_ensures(
            since_epoch,
            (&t,),
            elapsed,
        ) && (match elapsed {
            Ok(d) => call_ensures(Duration::as_secs, (&d,), secs),
            Err(_) => secs == 0,
        })
}

/// Current unix time in seconds.
pub fn unix_now() -> (r: u64)
    ensures
        clock_shows(r),
{
    let t = SystemTime::now();
    let elapsed = since_epoch(&t);
    assert(call_ensures(SystemTime::now, (), t));
    assert(call_ensures(since_epoch, (&t,), elapsed));
    let shown = match elapsed {
        Ok(d) => Some(d.as_secs()),
        Err(_) => None,
    };
    unix_time(shown)
}

/// Current UTC time as `YYYY-MM-DDTHH:MM:SSZ`.
pub fn utc_now() -> (r: String)
    ensures
        exists|secs: u64| clock_shows(secs) && r@ == #[trigger] utc_text(secs as nat),
{
    utc_from_epoch(unix_now())
}

/// The time that the clock showed is taken as it is, and 0 where it showed none.
pub proof fn law_unix_time(shown: Option<u64>, r: u64)
    requires
        call_ensures(unix_time, (shown,), r),
    ensures
        shown matches Some(secs) ==> r == secs,
        shown is None ==> r == 0,
{
}

/// The text of the current time reads as a second that the clock can show.
pub proof fn law_utc_now(r: String)
    requires
        call_ensures(utc_now, (), r),
    ensures
        exists|secs: u64| #[trigger] clock_shows(secs) && tells_second(r@, secs as nat),
{
    let secs = choose|secs: u64| clock_shows(secs) && r@ == #[trigger] utc_text(secs as nat);
    law_utc_text_reads_back(secs as nat);
    assert(clock_shows(secs) && tells_second(r@, secs as nat));
}

/// The current unix time is the whole seconds of a duration, taken as they are, or 0.
pub proof fn law_unix_now(r: u64)
    requires
        call_ensures(unix_now, (), r),
    ensures
        r == 0 || exists|d: Duration| #[trigger] call_ensures(Duration::as_secs, (&d,), r),
{
}

} // verus!
