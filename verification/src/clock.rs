use chrono::NaiveDateTime;
use vstd::prelude::*;

verus! {

/// `chrono::NaiveDateTime`, a calendar date and time without a time zone.
#[verifier::external_type_specification]
#[verifier::external_body]
pub struct ExNaiveDateTime(NaiveDateTime);

/// A time given as seconds and nanoseconds since the UNIX epoch, beside the date
/// and time that chrono made of them.
pub struct Timestamp {
    secs: i64,
    nsecs: u32,
    value: NaiveDateTime,
}

impl Timestamp {
    pub closed spec fn seconds(&self) -> i64 {
        self.secs
    }

    pub closed spec fn nanoseconds(&self) -> u32 {
        self.nsecs
    }
}

/// Nanoseconds since the epoch of the time `secs` seconds and `nsecs` nanoseconds after it.
pub open spec fn epoch_nanoseconds(secs: i64, nsecs: u32) -> int {
    secs * 1_000_000_000 + nsecs
}

/// A whole number as an `i64`, where it fits one.
pub open spec fn fit_i64(v: int) -> Option<i64> {
    if i64::MIN <= v <= i64::MAX {
        Some(v as i64)
    } else {
        None
    }
}

/// The earliest second since the epoch that chrono dates: the first second of
/// the year -262143.
pub const EARLIEST_SECOND: i64 = -8_334_601_228_800;

/// The latest second since the epoch that chrono dates: the last second of the
/// year 262142.
pub const LATEST_SECOND: i64 = 8_210_266_876_799;

/// Whether chrono makes a date and time of `secs` seconds and `nsecs` nanoseconds
/// after the epoch: the second must fall in chrono's years, and the nanosecond
/// part must be below one second, or below two seconds for a leap second in the
/// last second of a minute.
pub open spec fn chrono_valid(secs: i64, nsecs: u32) -> bool {
    &&& EARLIEST_SECOND <= secs <= LATEST_SECOND
    &&& (nsecs < 1_000_000_000 || (nsecs < 2_000_000_000 && secs % 60 == 59))
}

/// The span, in nanoseconds, from the time `secs2`/`nsecs2` to the time
/// `secs1`/`nsecs1` as chrono measures it: the difference of their nanoseconds
/// since the epoch, corrected by one second where a leap second lies between
/// them (chrono counts a leap second only at the time that holds it).
pub open spec fn chrono_span(secs1: i64, nsecs1: u32, secs2: i64, nsecs2: u32) -> int {
    let day1 = secs1 % 86_400;
    let day2 = secs2 % 86_400;
    epoch_nanoseconds(secs1, nsecs1) - epoch_nanoseconds(secs2, nsecs2) + (if day1 > day2
        && nsecs2 >= 1_000_000_000 {
        1_000_000_000int
    } else if day1 < day2 && nsecs1 >= 1_000_000_000 {
        -1_000_000_000int
    } else {
        0int
    })
}

/// Calls `chrono::NaiveDateTime::from_timestamp_opt`, which builds the date and time
/// `secs` seconds and `nsecs` nanoseconds after the UNIX epoch, and keeps the two
/// numbers beside it. Claimed: it builds one exactly when `chrono_valid` holds.
#[verifier::external_body]
#[allow(deprecated)]
pub(crate) fn timestamp_from_parts(secs: i64, nsecs: u32) -> (r: Option<Timestamp>)
    ensures
        r is Some <==> chrono_valid(secs, nsecs),
        r matches Some(t) ==> t.seconds() == secs && t.nanoseconds() == nsecs,
{
    match NaiveDateTime::from_timestamp_opt(secs, nsecs) {
        Some(value) => Some(Timestamp { secs, nsecs, value }),
        None => None,
    }
}

/// Calls `chrono::NaiveDateTime::signed_duration_since` (what `later - earlier`
/// computes) and reads the span it returns with `chrono::TimeDelta::num_nanoseconds`.
/// Claimed: the span is `chrono_span` of the two times, given where it fits an
/// `i64` and `None` where it does not.
#[verifier::external_body]
pub(crate) fn nanoseconds_between(later: &Timestamp, earlier: &Timestamp) -> (r: Option<i64>)
    ensures
        r == fit_i64(
            chrono_span(
                later.seconds(),
                later.nanoseconds(),
                earlier.seconds(),
                earlier.nanoseconds(),
            ),
        ),
{
    later.value.signed_duration_since(earlier.value).num_nanoseconds()
}

} // verus!
