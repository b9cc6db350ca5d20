//! The proleptic Gregorian calendar, as far as a date-time has to be
//! related to a count of seconds since 1970-01-01T00:00:00Z.

use vstd::prelude::*;

verus! {

/// The first year that a date-time can lie in.
pub const MIN_YEAR: i32 = -9999;

/// The last year that a date-time can lie in.
pub const MAX_YEAR: i32 = 9999;

/// The largest distance from UTC, in seconds, that an offset can have
/// (25 hours, 59 minutes and 59 seconds).
pub const MAX_OFFSET_SECONDS: i32 = 93_599;

/// The count of seconds at -9999-01-01T00:00:00Z.
pub const MIN_UNIX_SECONDS: i64 = -377_705_116_800;

/// The count of seconds at 9999-12-31T23:59:59Z.
pub const MAX_UNIX_SECONDS: i64 = 253_402_300_799;

/// The count of seconds at 0000-01-01T00:00:00Z.
pub const YEAR_ZERO_UNIX_SECONDS: i64 = -62_167_219_200;

/// Whether `year` has a 29th of February.
pub open spec fn is_leap_year(year: int) -> bool {
    year % 4 == 0 && (year % 100 != 0 || year % 400 == 0)
}

/// The number of days of `year`.
pub open spec fn days_in_year(year: int) -> int {
    if is_leap_year(year) {
        366
    } else {
        365
    }
}

/// The number of days of the month `month` (1 to 12) of `year`.
pub open spec fn days_in_month(year: int, month: int) -> int {
    if month == 2 {
        if is_leap_year(year) {
            29
        } else {
            28
        }
    } else if month == 4 || month == 6 || month == 9 || month == 11 {
        30
    } else {
        31
    }
}

/// The number of days of `year` that lie before the first of `month`.
pub open spec fn days_before_month(year: int, month: int) -> int
    decreases month,
{
    if month <= 1 {
        0
    } else {
        days_before_month(year, month - 1) + days_in_month(year, month - 1)
    }
}

/// The number of leap years from year 1 up to, and without, `year`
/// (negative where `year` lies before year 1).
pub open spec fn leap_years_before(year: int) -> int {
    (year - 1) / 4 - (year - 1) / 100 + (year - 1) / 400
}

/// The number of days from 1970-01-01 to the first of January of `year`
/// (negative where `year` lies before 1970).
pub open spec fn days_before_year(year: int) -> int {
    365 * (year - 1970) + leap_years_before(year) - leap_years_before(1970)
}

/// The number of days from 1970-01-01 to the given day.
pub open spec fn days_from_epoch(year: int, month: int, day: int) -> int {
    days_before_year(year) + days_before_month(year, month) + (day - 1)
}

/// Whether `month` and `day` name a day of `year`.
pub open spec fn is_date(year: int, month: int, day: int) -> bool {
    1 <= month <= 12 && 1 <= day <= days_in_month(year, month)
}

/// Days are counted from the first of January 1970, and each year adds its
/// own length to the count.
pub proof fn lemma_days_before_next_year(year: int)
    ensures
        days_before_year(1970) == 0,
        days_before_year(year + 1) == days_before_year(year) + days_in_year(year),
{
}

/// A later year begins after the earlier year has ended.
pub proof fn lemma_days_before_year_increases(earlier: int, later: int)
    requires
        earlier < later,
    ensures
        days_before_year(earlier) + days_in_year(earlier) <= days_before_year(later),
    decreases later - earlier,
{
    lemma_days_before_next_year(earlier);
    if earlier + 1 < later {
        lemma_days_before_next_year(later - 1);
        lemma_days_before_year_increases(earlier, later - 1);
    }
}

/// A later month begins after the earlier month has ended.
pub proof fn lemma_days_before_month_increases(year: int, earlier: int, later: int)
    requires
        1 <= earlier < later,
    ensures
        days_before_month(year, earlier) + days_in_month(year, earlier) <= days_before_month(
            year,
            later,
        ),
    decreases later - earlier,
{
    if earlier + 1 < later {
        lemma_days_before_month_increases(year, earlier, later - 1);
    }
}

/// The twelve months of a year make up its length.
pub proof fn lemma_days_before_month_total(year: int)
    ensures
        days_before_month(year, 13) == days_in_year(year),
{
    reveal_with_fuel(days_before_month, 13);
}

/// A day of a year lies within that year.
pub proof fn lemma_day_of_year(year: int, month: int, day: int)
    requires
        is_date(year, month, day),
    ensures
        0 <= days_before_month(year, month) + (day - 1) < days_in_year(year),
{
    lemma_days_before_month_total(year);
    lemma_days_before_month_increases(year, month, 13);
    if 1 < month {
        lemma_days_before_month_increases(year, 1, month);
    }
}

/// The count of days grows with the date: it is smaller for the earlier of
/// two days, compared by year, then month, then day.
pub proof fn lemma_days_from_epoch_increases(
    year1: int,
    month1: int,
    day1: int,
    year2: int,
    month2: int,
    day2: int,
)
    requires
        is_date(year1, month1, day1),
        is_date(year2, month2, day2),
        year1 < year2 || (year1 == year2 && (month1 < month2 || (month1 == month2 && day1
            < day2))),
    ensures
        days_from_epoch(year1, month1, day1) < days_from_epoch(year2, month2, day2),
{
    lemma_day_of_year(year1, month1, day1);
    lemma_day_of_year(year2, month2, day2);
    if year1 < year2 {
        lemma_days_before_year_increases(year1, year2);
    } else if month1 < month2 {
        lemma_days_before_month_increases(year1, month1, month2);
    }
}

/// No two days have the same count.
pub proof fn lemma_days_from_epoch_unique(
    year1: int,
    month1: int,
    day1: int,
    year2: int,
    month2: int,
    day2: int,
)
    requires
        is_date(year1, month1, day1),
        is_date(year2, month2, day2),
        days_from_epoch(year1, month1, day1) == days_from_epoch(year2, month2, day2),
    ensures
        year1 == year2,
        month1 == month2,
        day1 == day2,
{
    if year1 < year2 || (year1 == year2 && (month1 < month2 || (month1 == month2 && day1
        < day2))) {
        lemma_days_from_epoch_increases(year1, month1, day1, year2, month2, day2);
    } else if year2 < year1 || (year2 == year1 && (month2 < month1 || (month2 == month1 && day2
        < day1))) {
        lemma_days_from_epoch_increases(year2, month2, day2, year1, month1, day1);
    }
}

/// Every count of days within the years covered is the count of a day of
/// one of these years, which is returned as year, month and day.
pub proof fn lemma_day_exists(days: int) -> (date: (int, int, int))
    requires
        days_before_year(MIN_YEAR as int) <= days < days_before_year(MAX_YEAR + 1),
    ensures
        is_date(date.0, date.1, date.2),
        MIN_YEAR <= date.0 <= MAX_YEAR,
        days_from_epoch(date.0, date.1, date.2) == days,
    decreases
            if days >= 0 {
                days
            } else {
                -days
            },
{
    if days == 0 {
        reveal_with_fuel(days_before_month, 2);
        (1970, 1, 1)
    } else if days > 0 {
        let (year, month, day) = lemma_day_exists(days - 1);
        if day < days_in_month(year, month) {
            (year, month, day + 1)
        } else if month < 12 {
            (year, month + 1, 1)
        } else {
            lemma_days_before_month_total(year);
            lemma_days_before_next_year(year);
            if year == MAX_YEAR {
                assert(false);
            }
            (year + 1, 1, 1)
        }
    } else {
        let (year, month, day) = lemma_day_exists(days + 1);
        if day > 1 {
            (year, month, day - 1)
        } else if month > 1 {
            (year, month - 1, days_in_month(year, month - 1))
        } else {
            lemma_days_before_month_total(year - 1);
            lemma_days_before_next_year(year - 1);
            if year == MIN_YEAR {
                assert(false);
            }
            (year - 1, 12, 31)
        }
    }
}

/// Whether `year` has a 29th of February.
pub fn leap_year(year: i32) -> (leap: bool)
    requires
        MIN_YEAR <= year <= MAX_YEAR,
    ensures
        leap == is_leap_year(year as int),
{
    // 10_000 is a multiple of 400, so the shifted year is a leap year
    // exactly when `year` is, and it is never negative.
    let shifted: i32 = year + 10_000;
    shifted % 4 == 0 && (shifted % 100 != 0 || shifted % 400 == 0)
}

/// The number of days of the month `month` of `year`.
pub fn month_length(year: i32, month: u8) -> (days: u8)
    requires
        MIN_YEAR <= year <= MAX_YEAR,
        1 <= month <= 12,
    ensures
        days == days_in_month(year as int, month as int),
{
    if month == 2 {
        if leap_year(year) {
            29
        } else {
            28
        }
    } else if month == 4 || month == 6 || month == 9 || month == 11 {
        30
    } else {
        31
    }
}

/// A date and a time of day in the proleptic Gregorian calendar, as a clock
/// shows them that runs `offset_seconds` ahead of UTC.
#[derive(Clone, Copy, Debug, PartialEq, Eq, Structural)]
pub struct DateTime {
    pub year: i32,
    pub month: u8,
    pub day: u8,
    pub hour: u8,
    pub minute: u8,
    pub second: u8,
    pub nanosecond: u32,
    pub offset_seconds: i32,
}

impl DateTime {
    /// Whether the fields name a day that exists, a time of day and an
    /// offset within the limits.
    pub open spec fn well_formed(self) -> bool {
        &&& MIN_YEAR <= self.year <= MAX_YEAR
        &&& 1 <= self.month <= 12
        &&& 1 <= self.day <= days_in_month(self.year as int, self.month as int)
        &&& self.hour < 24
        &&& self.minute < 60
        &&& self.second < 60
        &&& self.nanosecond < 1_000_000_000
        &&& -MAX_OFFSET_SECONDS <= self.offset_seconds <= MAX_OFFSET_SECONDS
    }

    /// The number of days from 1970-01-01 to the date shown.
    pub open spec fn epoch_days(self) -> int {
        days_from_epoch(self.year as int, self.month as int, self.day as int)
    }

    /// The seconds of the day shown that have passed.
    pub open spec fn second_of_day(self) -> int {
        self.hour * 3600 + self.minute * 60 + self.second
    }

    /// The whole seconds from 1970-01-01T00:00:00Z to the instant.
    pub open spec fn epoch_seconds(self) -> int {
        self.epoch_days() * 86_400 + self.second_of_day() - self.offset_seconds
    }

    /// The nanoseconds from 1970-01-01T00:00:00Z to the instant.
    pub open spec fn epoch_nanos(self) -> int {
        self.epoch_seconds() * 1_000_000_000 + self.nanosecond
    }

    /// Whether the value shows the instant `nanos` nanoseconds after
    /// 1970-01-01T00:00:00Z on a clock at UTC.
    pub open spec fn is_utc_at(self, nanos: int) -> bool {
        &&& self.well_formed()
        &&& self.offset_seconds == 0
        &&& self.epoch_nanos() == nanos
    }

    /// Tests what `well_formed` states.
    pub fn is_well_formed(&self) -> (ok: bool)
        ensures
            ok == self.well_formed(),
    {
        MIN_YEAR <= self.year && self.year <= MAX_YEAR && 1 <= self.month && self.month <= 12
            && 1 <= self.day && self.day <= month_length(self.year, self.month) && self.hour < 24
            && self.minute < 60 && self.second < 60 && self.nanosecond < 1_000_000_000
            && -MAX_OFFSET_SECONDS <= self.offset_seconds && self.offset_seconds
            <= MAX_OFFSET_SECONDS
    }

    /// The instant of a well-formed value, taken on its own clock, lies
    /// between the first second of the first year and the last second of
    /// the last year, and in a year from 0 on exactly when it is not before
    /// 0000-01-01T00:00:00.
    pub proof fn lemma_local_seconds_bounds(self)
        requires
            self.well_formed(),
        ensures
            MIN_UNIX_SECONDS <= self.epoch_seconds() + self.offset_seconds <= MAX_UNIX_SECONDS,
            0 <= self.year <==> YEAR_ZERO_UNIX_SECONDS <= self.epoch_seconds()
                + self.offset_seconds,
    {
        let year = self.year as int;
        lemma_day_of_year(year, self.month as int, self.day as int);
        if MIN_YEAR < year {
            lemma_days_before_year_increases(MIN_YEAR as int, year);
        }
        lemma_days_before_year_increases(year, MAX_YEAR + 1);
        if year < 0 {
            lemma_days_before_year_increases(year, 0);
        } else if 0 < year {
            lemma_days_before_year_increases(0, year);
        }
    }

    /// Two well-formed values with the same offset that show the same
    /// instant are the same value.
    pub proof fn lemma_same_instant_same_value(self, other: DateTime)
        requires
            self.well_formed(),
            other.well_formed(),
            self.offset_seconds == other.offset_seconds,
            self.epoch_nanos() == other.epoch_nanos(),
        ensures
            self == other,
    {
        assert(self.epoch_seconds() == other.epoch_seconds());
        assert(self.epoch_days() == other.epoch_days());
        lemma_days_from_epoch_unique(
            self.year as int,
            self.month as int,
            self.day as int,
            other.year as int,
            other.month as int,
            other.day as int,
        );
    }

    /// Every instant within the years covered is shown by a date-time at
    /// UTC, which is returned.
    pub proof fn lemma_utc_exists(nanos: int) -> (dt: DateTime)
        requires
            MIN_UNIX_SECONDS <= nanos / 1_000_000_000 <= MAX_UNIX_SECONDS,
        ensures
            dt.is_utc_at(nanos),
    {
        let seconds = nanos / 1_000_000_000;
        let days = seconds / 86_400;
        let second_of_day = seconds % 86_400;
        let (year, month, day) = lemma_day_exists(days);
        DateTime {
            year: year as i32,
            month: month as u8,
            day: day as u8,
            hour: (second_of_day / 3600) as u8,
            minute: (second_of_day % 3600 / 60) as u8,
            second: (second_of_day % 60) as u8,
            nanosecond: (nanos % 1_000_000_000) as u32,
            offset_seconds: 0,
        }
    }
}

} // verus!
