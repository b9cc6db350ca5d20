//! The calls into the `time` crate. Nothing in this file is proved: each
//! contract states what the crate's code does, and the rest of the library
//! is proved from these contracts.

use crate::calendar::{DateTime, MAX_UNIX_SECONDS, MIN_UNIX_SECONDS};
use crate::rfc3339::{is_canonical, rfc3339_text};
use time::format_description::well_known::Rfc3339;
use vstd::prelude::*;

verus! {

/// What `time::OffsetDateTime::parse` with the `Rfc3339` description makes
/// of a text: the date-time it reads, or the words in which it rejects the
/// text.
pub uninterp spec fn rfc3339_parsed(text: Seq<char>) -> Result<DateTime, Seq<char>>;

/// The words in which the `time` crate rejects a count of nanoseconds that
/// lies outside its years.
pub open spec fn range_words() -> Seq<char> {
    "timestamp was not in range"@
}

/// The words in which the `time` crate rejects a year that RFC 3339 cannot
/// show.
pub open spec fn year_words() -> Seq<char> {
    "The year component cannot be formatted into the requested format."@
}

/// What a call that read a text gave, in the terms of `rfc3339_parsed`:
/// the date-time, or the words of the rejection as characters.
pub open spec fn outcome(r: Result<DateTime, String>) -> Result<DateTime, Seq<char>> {
    match r {
        Ok(dt) => Ok(dt),
        Err(message) => Err(message@),
    }
}

/// `time::OffsetDateTime::unix_timestamp`, on the date-time that `dt`
/// shows: the days from 1970-01-01 to its date, as seconds, plus the
/// seconds of its time of day, less its offset.
#[verifier::external_body]
pub(crate) fn unix_timestamp(dt: &DateTime) -> (seconds: i64)
    requires
        dt.well_formed(),
    ensures
        seconds == dt.epoch_seconds(),
{
    let month = time::Month::try_from(dt.month).unwrap();
    let date = time::Date::from_calendar_date(dt.year, month, dt.day).unwrap();
    let time = time::Time::from_hms_nano(dt.hour, dt.minute, dt.second, dt.nanosecond).unwrap();
    let offset = time::UtcOffset::from_whole_seconds(dt.offset_seconds).unwrap();
    time::OffsetDateTime::new_in_offset(date, time, offset).unix_timestamp()
}

/// `time::OffsetDateTime::from_unix_timestamp_nanos`: the date-time at UTC
/// that shows the instant `nanos` nanoseconds after 1970-01-01T00:00:00Z.
/// It fails, in the words of `range_words`, exactly when the whole seconds
/// of `nanos`, rounded down, lie before year -9999 or after year 9999.
#[verifier::external_body]
pub(crate) fn from_unix_timestamp_nanos(nanos: i128) -> (r: Result<DateTime, String>)
    ensures
        r is Ok <==> MIN_UNIX_SECONDS <= (nanos as int) / 1_000_000_000 <= MAX_UNIX_SECONDS,
        r matches Ok(dt) ==> dt.is_utc_at(nanos as int),
        r matches Err(message) ==> message@ == range_words(),
{
    match time::OffsetDateTime::from_unix_timestamp_nanos(nanos) {
        Ok(t) => Ok(
            DateTime {
                year: t.year(),
                month: u8::from(t.month()),
                day: t.day(),
                hour: t.hour(),
                minute: t.minute(),
                second: t.second(),
                nanosecond: t.nanosecond(),
                offset_seconds: t.offset().whole_seconds(),
            },
        ),
        Err(e) => Err(e.to_string()),
    }
}

/// `time::OffsetDateTime::format` with the `Rfc3339` description, on the
/// date-time at UTC that `dt` shows. It fails, in the words of
/// `year_words`, exactly when the year is negative; else it gives the text
/// that `rfc3339_text` states.
#[verifier::external_body]
pub(crate) fn format_rfc3339(dt: &DateTime) -> (r: Result<String, String>)
    requires
        dt.well_formed(),
        dt.offset_seconds == 0,
    ensures
        r is Ok <==> 0 <= dt.year,
        r matches Ok(text) ==> text@ == rfc3339_text(*dt),
        r matches Err(message) ==> message@ == year_words(),
{
    let month = time::Month::try_from(dt.month).unwrap();
    let date = time::Date::from_calendar_date(dt.year, month, dt.day).unwrap();
    let time = time::Time::from_hms_nano(dt.hour, dt.minute, dt.second, dt.nanosecond).unwrap();
    match time::OffsetDateTime::new_utc(date, time).format(&Rfc3339) {
        Ok(text) => Ok(text),
        Err(e) => Err(e.to_string()),
    }
}

/// `time::OffsetDateTime::parse` with the `Rfc3339` description. What comes
/// back is `rfc3339_parsed` of the text: a date-time, which is well-formed,
/// or the words of the rejection. The text that `rfc3339_text` states for a
/// date-time at UTC in the years 0 to 9999 is read as that date-time.
#[verifier::external_body]
pub(crate) fn parse_rfc3339(text: &str) -> (r: Result<DateTime, String>)
    ensures
        r matches Ok(dt) ==> dt.well_formed(),
        rfc3339_parsed(text@) == outcome(r),
        forall|dt: DateTime|
            is_canonical(dt) && #[trigger] rfc3339_text(dt) == text@ ==> r is Ok && r->Ok_0 == dt,
{
    match time::OffsetDateTime::parse(text, &Rfc3339) {
        Ok(t) => Ok(
            DateTime {
                year: t.year(),
                month: u8::from(t.month()),
                day: t.day(),
                hour: t.hour(),
                minute: t.minute(),
                second: t.second(),
                nanosecond: t.nanosecond(),
                offset_seconds: t.offset().whole_seconds(),
            },
        ),
        Err(e) => Err(e.to_string()),
    }
}

} // verus!
