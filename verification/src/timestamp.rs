//! The timestamp value, its bridge to calendar date-times and its text
//! codec.

use crate::calendar::{DateTime, MAX_UNIX_SECONDS, MIN_UNIX_SECONDS, YEAR_ZERO_UNIX_SECONDS};
use crate::error::{ErrorKind, Failure, TimestampError};
use crate::rfc3339::{lemma_reading_of_text, rfc3339_reading, rfc3339_text};
use crate::time_calls::{
    format_rfc3339,
    from_unix_timestamp_nanos,
    outcome,
    parse_rfc3339,
    range_words,
    unix_timestamp,
    year_words,
};
use vstd::pervasive::unreached;
use vstd::prelude::*;

verus! {

/// Nanoseconds in one second.
pub const NANOS_PER_SECOND: i128 = 1_000_000_000;

/// A point in time as whole seconds since 1970-01-01T00:00:00Z plus a
/// sub-second offset in nanoseconds.
///
/// Equality is structural: two values are equal exactly when both fields
/// are equal, even where different field pairs denote the same instant.
#[derive(Clone, Copy, Debug, PartialEq, Eq, Structural, Hash)]
pub struct Timestamp {
    pub seconds: i64,
    pub nanos: i32,
}

impl Timestamp {
    /// The instant that the value denotes, in nanoseconds since the epoch.
    pub open spec fn total_nanos(self) -> int {
        self.seconds * 1_000_000_000 + self.nanos
    }

    /// The whole seconds of the instant, rounded down.
    pub open spec fn whole_seconds(self) -> int {
        self.total_nanos() / 1_000_000_000
    }

    /// Whether `nanos` lies in `[0, 1_000_000_000)`.
    pub open spec fn is_normalized(self) -> bool {
        0 <= self.nanos < 1_000_000_000
    }

    /// Whether the instant lies in the years that the calendar covers,
    /// -9999 to 9999.
    pub open spec fn is_representable(self) -> bool {
        MIN_UNIX_SECONDS <= self.whole_seconds() <= MAX_UNIX_SECONDS
    }

    /// The date-time at UTC that shows the instant; it exists, and is the
    /// only one, for a representable value.
    pub open spec fn date_time(self) -> DateTime {
        choose|dt: DateTime| dt.is_utc_at(self.total_nanos())
    }

    /// The timestamp of the instant that a date-time shows.
    pub open spec fn of_date_time(dt: DateTime) -> Timestamp {
        Timestamp { seconds: dt.epoch_seconds() as i64, nanos: dt.nanosecond as i32 }
    }

    /// What `serialize` gives: the RFC 3339 text of the instant at UTC, or
    /// the way in which it fails. The calendar does not reach an instant
    /// that is not representable, and years before 0 have no such text.
    pub open spec fn serialized(self) -> Result<Seq<char>, Failure> {
        if !self.is_representable() {
            Err(Failure { kind: ErrorKind::ConversionOverflow, message: range_words() })
        } else if self.whole_seconds() < YEAR_ZERO_UNIX_SECONDS {
            Err(Failure { kind: ErrorKind::Format, message: year_words() })
        } else {
            Ok(rfc3339_text(self.date_time()))
        }
    }

    /// What `deserialize` gives: the timestamp of the date-time that is
    /// read from the text, or `Parse` with the words in which the text is
    /// rejected.
    pub open spec fn deserialized(text: Seq<char>) -> Result<Timestamp, Failure> {
        match rfc3339_reading(text) {
            Ok(dt) => Ok(Self::of_date_time(dt)),
            Err(message) => Err(Failure { kind: ErrorKind::Parse, message }),
        }
    }

    /// The denoted instant as one wide integer, which cannot overflow.
    pub fn unix_nanos(&self) -> (total: i128)
        ensures
            total == self.total_nanos(),
    {
        let seconds: i128 = self.seconds as i128;
        let nanos: i128 = self.nanos as i128;
        seconds * NANOS_PER_SECOND + nanos
    }

    /// The timestamp of the instant that a date-time shows: the seconds
    /// from the epoch to it, and its nanoseconds. The result is normalized.
    pub fn from_date_time(dt: DateTime) -> (ts: Timestamp)
        requires
            dt.well_formed(),
        ensures
            ts.seconds == dt.epoch_seconds(),
            ts.nanos == dt.nanosecond,
            ts == Self::of_date_time(dt),
            ts.is_normalized(),
            ts.total_nanos() == dt.epoch_nanos(),
    {
        let seconds: i64 = unix_timestamp(&dt);
        let nanos: i32 = dt.nanosecond as i32;
        Timestamp { seconds, nanos }
    }

    /// The date-time at UTC that shows the instant, for a value within the
    /// years that the calendar covers.
    pub fn to_date_time(self) -> (dt: DateTime)
        requires
            self.is_representable(),
        ensures
            dt.is_utc_at(self.total_nanos()),
            dt == self.date_time(),
    {
        match from_unix_timestamp_nanos(self.unix_nanos()) {
            Ok(dt) => {
                proof {
                    dt.lemma_same_instant_same_value(self.date_time());
                }
                dt
            },
            Err(_) => unreached(),
        }
    }

    /// The date-time at UTC that shows the instant, or `ConversionOverflow`
    /// for a value outside the years that the calendar covers.
    pub fn checked_to_date_time(self) -> (r: Result<DateTime, TimestampError>)
        ensures
            r is Ok <==> self.is_representable(),
            r matches Ok(dt) ==> dt.is_utc_at(self.total_nanos()) && dt == self.date_time(),
            r matches Err(e) ==> e.kind == ErrorKind::ConversionOverflow && e.message@
                == range_words(),
    {
        match from_unix_timestamp_nanos(self.unix_nanos()) {
            Ok(dt) => {
                proof {
                    dt.lemma_same_instant_same_value(self.date_time());
                }
                Ok(dt)
            },
            Err(message) => Err(TimestampError { kind: ErrorKind::ConversionOverflow, message }),
        }
    }

    /// The RFC 3339 text of the instant at UTC. Fails with
    /// `ConversionOverflow` for an instant outside the years -9999 to 9999,
    /// and with `Format` for one in a year before 0.
    pub fn serialize(&self) -> (r: Result<String, TimestampError>)
        ensures
            r matches Ok(text) ==> self.serialized() == Ok::<Seq<char>, Failure>(text@),
            r matches Err(e) ==> self.serialized() == Err::<Seq<char>, Failure>(e@),
    {
        match self.checked_to_date_time() {
            Ok(dt) => {
                proof {
                    dt.lemma_local_seconds_bounds();
                }
                match format_rfc3339(&dt) {
                    Ok(text) => Ok(text),
                    Err(message) => Err(TimestampError { kind: ErrorKind::Format, message }),
                }
            },
            Err(e) => Err(e),
        }
    }

    /// The timestamp of the date-time that an RFC 3339 text shows. Fails
    /// with `Parse` and the parser's own words for a text that is not one.
    pub fn deserialize(text: &str) -> (r: Result<Timestamp, TimestampError>)
        ensures
            r matches Ok(ts) ==> Self::deserialized(text@) == Ok::<Timestamp, Failure>(ts),
            r matches Ok(ts) ==> ts.is_normalized(),
            r matches Err(e) ==> Self::deserialized(text@) == Err::<Timestamp, Failure>(e@),
    {
        let read = parse_rfc3339(text);
        assert(rfc3339_reading(text@) == outcome(read));
        match read {
            Ok(dt) => Ok(Self::from_date_time(dt)),
            Err(message) => Err(TimestampError { kind: ErrorKind::Parse, message }),
        }
    }

    /// A representable value has a date-time at UTC that shows its instant.
    pub proof fn lemma_date_time(self)
        requires
            self.is_representable(),
        ensures
            self.date_time().is_utc_at(self.total_nanos()),
    {
        let shown = DateTime::lemma_utc_exists(self.total_nanos());
        assert(shown.is_utc_at(self.total_nanos()));
    }

    /// Equality compares the two fields and nothing else.
    pub proof fn lemma_equality_is_structural(self, other: Timestamp)
        ensures
            self == other <==> self.seconds == other.seconds && self.nanos == other.nanos,
    {
    }

    /// Normalized values that denote the same instant are equal. (Values
    /// that are not normalized can denote one instant and differ.)
    pub proof fn lemma_normalized_instant_unique(self, other: Timestamp)
        requires
            self.is_normalized(),
            other.is_normalized(),
            self.total_nanos() == other.total_nanos(),
        ensures
            self == other,
    {
    }

    /// A value that holds a second or more in `nanos` denotes the instant
    /// of the value that holds that second in `seconds`, and the two are
    /// not equal.
    pub proof fn lemma_carried_second_is_unequal(self, carried: Timestamp)
        requires
            carried.seconds == self.seconds + 1,
            carried.nanos == self.nanos - 1_000_000_000,
        ensures
            carried.total_nanos() == self.total_nanos(),
            carried != self,
    {
    }

    /// From a normalized, representable timestamp to its date-time and
    /// back gives the timestamp again.
    pub proof fn lemma_date_time_round_trip(self)
        requires
            self.is_normalized(),
            self.is_representable(),
        ensures
            Self::of_date_time(self.date_time()) == self,
    {
        self.lemma_date_time();
    }

    /// From a date-time at UTC to its timestamp and back gives the
    /// date-time again.
    pub proof fn lemma_timestamp_round_trip(dt: DateTime)
        requires
            dt.well_formed(),
            dt.offset_seconds == 0,
        ensures
            Self::of_date_time(dt).is_representable(),
            Self::of_date_time(dt).date_time() == dt,
    {
        dt.lemma_local_seconds_bounds();
        let ts = Self::of_date_time(dt);
        ts.lemma_date_time();
        dt.lemma_same_instant_same_value(ts.date_time());
    }

    /// Writing a normalized timestamp of the years 0 to 9999 and reading
    /// the text gives the timestamp again.
    pub proof fn lemma_text_round_trip(self)
        requires
            self.is_normalized(),
            YEAR_ZERO_UNIX_SECONDS <= self.seconds <= MAX_UNIX_SECONDS,
        ensures
            self.serialized() is Ok,
            Self::deserialized(self.serialized()->Ok_0) == Ok::<Timestamp, Failure>(self),
    {
        self.lemma_date_time();
        let dt = self.date_time();
        dt.lemma_local_seconds_bounds();
        lemma_reading_of_text(dt);
    }
}

} // verus!
