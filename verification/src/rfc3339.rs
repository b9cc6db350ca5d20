//! The RFC 3339 text of a date-time at UTC: what is written, and that no
//! two date-times are written alike.

use crate::calendar::DateTime;
use crate::time_calls::rfc3339_parsed;
use vstd::prelude::*;

verus! {

/// 10 to the power `exponent`.
pub open spec fn pow10(exponent: nat) -> int
    decreases exponent,
{
    if exponent == 0 {
        1
    } else {
        10 * pow10((exponent - 1) as nat)
    }
}

/// The character for one decimal digit, `value` being 0 to 9.
pub open spec fn digit(value: int) -> char {
    (value + 48) as char
}

/// The last `width` decimal digits of `value`, the most significant first,
/// with zeros in front where `value` has fewer.
pub open spec fn padded(value: int, width: nat) -> Seq<char>
    decreases width,
{
    if width == 0 {
        Seq::empty()
    } else {
        padded(value / 10, (width - 1) as nat).push(digit(value % 10))
    }
}

/// The digits of `value` as a fraction of `width` decimal places, without
/// the zeros at its end; empty for 0.
pub open spec fn fraction(value: int, width: nat) -> Seq<char>
    decreases width,
{
    if width == 0 {
        Seq::empty()
    } else if value % 10 == 0 {
        fraction(value / 10, (width - 1) as nat)
    } else {
        padded(value, width)
    }
}

/// Nothing for a whole second; else a point and the nanoseconds as a
/// fraction of a second, without zeros at the end.
pub open spec fn subsecond_text(nanosecond: int) -> Seq<char> {
    if nanosecond == 0 {
        Seq::empty()
    } else {
        seq!['.'] + fraction(nanosecond, 9)
    }
}

/// The date as `YYYY-MM-DD`.
pub open spec fn date_text(dt: DateTime) -> Seq<char> {
    padded(dt.year as int, 4) + seq!['-'] + padded(dt.month as int, 2) + seq!['-'] + padded(
        dt.day as int,
        2,
    )
}

/// The time of day as `HH:MM:SS`.
pub open spec fn time_text(dt: DateTime) -> Seq<char> {
    padded(dt.hour as int, 2) + seq![':'] + padded(dt.minute as int, 2) + seq![':'] + padded(
        dt.second as int,
        2,
    )
}

/// The RFC 3339 text of a date-time at UTC:
/// `YYYY-MM-DDTHH:MM:SS`, the fraction of the second if there is one, `Z`.
pub open spec fn rfc3339_text(dt: DateTime) -> Seq<char> {
    date_text(dt) + seq!['T'] + time_text(dt) + subsecond_text(dt.nanosecond as int) + seq!['Z']
}

/// Whether `dt` is a date-time that this text form can show: well-formed,
/// at UTC, and in a year of four digits.
pub open spec fn is_canonical(dt: DateTime) -> bool {
    dt.well_formed() && dt.offset_seconds == 0 && 0 <= dt.year
}

/// What reading a text yields: the date-time, or the words in which the
/// text is rejected. The text of a date-time that this text form can show
/// is read as that date-time; any other text is read as the parser of the
/// `time` crate reads it.
pub open spec fn rfc3339_reading(text: Seq<char>) -> Result<DateTime, Seq<char>> {
    if exists|dt: DateTime| is_canonical(dt) && #[trigger] rfc3339_text(dt) == text {
        Ok(choose|dt: DateTime| is_canonical(dt) && #[trigger] rfc3339_text(dt) == text)
    } else {
        rfc3339_parsed(text)
    }
}

/// Two sequences that are equal after something of equal length was put
/// behind each are equal, and so is what was put behind them.
pub proof fn lemma_concat_unique(a1: Seq<char>, b1: Seq<char>, a2: Seq<char>, b2: Seq<char>)
    requires
        a1 + b1 == a2 + b2,
        a1.len() == a2.len() || b1.len() == b2.len(),
    ensures
        a1 == a2,
        b1 == b2,
{
    assert((a1 + b1).len() == a1.len() + b1.len());
    assert((a2 + b2).len() == a2.len() + b2.len());
    assert(a1 =~= (a1 + b1).subrange(0, a1.len() as int));
    assert(a2 =~= (a2 + b2).subrange(0, a2.len() as int));
    assert(b1 =~= (a1 + b1).subrange(a1.len() as int, (a1 + b1).len() as int));
    assert(b2 =~= (a2 + b2).subrange(a2.len() as int, (a2 + b2).len() as int));
}

/// `padded` gives exactly `width` characters.
pub proof fn lemma_padded_len(value: int, width: nat)
    ensures
        padded(value, width).len() == width,
    decreases width,
{
    if width > 0 {
        lemma_padded_len(value / 10, (width - 1) as nat);
    }
}

/// Numbers of at most `width` digits that `padded` writes alike are equal.
pub proof fn lemma_padded_unique(value1: int, value2: int, width: nat)
    requires
        0 <= value1 < pow10(width),
        0 <= value2 < pow10(width),
        padded(value1, width) == padded(value2, width),
    ensures
        value1 == value2,
    decreases width,
{
    if width > 0 {
        let rest1 = padded(value1 / 10, (width - 1) as nat);
        let rest2 = padded(value2 / 10, (width - 1) as nat);
        let last1 = digit(value1 % 10);
        let last2 = digit(value2 % 10);
        assert(rest1.push(last1).last() == last1);
        assert(rest2.push(last2).last() == last2);
        assert(rest1.push(last1).drop_last() =~= rest1);
        assert(rest2.push(last2).drop_last() =~= rest2);
        lemma_padded_unique(value1 / 10, value2 / 10, (width - 1) as nat);
    }
}

/// `fraction` gives at most `width` characters, and at least one for a
/// number that is not 0.
pub proof fn lemma_fraction_len(value: int, width: nat)
    requires
        0 <= value < pow10(width),
    ensures
        fraction(value, width).len() <= width,
        value != 0 ==> fraction(value, width).len() >= 1,
    decreases width,
{
    if width > 0 {
        if value % 10 == 0 {
            lemma_fraction_len(value / 10, (width - 1) as nat);
        } else {
            lemma_padded_len(value, width);
        }
    }
}

/// Numbers of at most `width` digits that `fraction` writes alike are equal.
pub proof fn lemma_fraction_unique(value1: int, value2: int, width: nat)
    requires
        0 <= value1 < pow10(width),
        0 <= value2 < pow10(width),
        fraction(value1, width) == fraction(value2, width),
    ensures
        value1 == value2,
    decreases width,
{
    if width > 0 {
        lemma_padded_len(value1, width);
        lemma_padded_len(value2, width);
        if value1 % 10 == 0 {
            lemma_fraction_len(value1 / 10, (width - 1) as nat);
        }
        if value2 % 10 == 0 {
            lemma_fraction_len(value2 / 10, (width - 1) as nat);
        }
        if value1 % 10 == 0 && value2 % 10 == 0 {
            lemma_fraction_unique(value1 / 10, value2 / 10, (width - 1) as nat);
        } else if value1 % 10 != 0 && value2 % 10 != 0 {
            lemma_padded_unique(value1, value2, width);
        }
    }
}

/// The text of the fraction tells the nanoseconds.
pub proof fn lemma_subsecond_text_unique(nanosecond1: int, nanosecond2: int)
    requires
        0 <= nanosecond1 < 1_000_000_000,
        0 <= nanosecond2 < 1_000_000_000,
        subsecond_text(nanosecond1) == subsecond_text(nanosecond2),
    ensures
        nanosecond1 == nanosecond2,
{
    reveal_with_fuel(pow10, 10);
    lemma_fraction_len(nanosecond1, 9);
    lemma_fraction_len(nanosecond2, 9);
    if nanosecond1 != 0 && nanosecond2 != 0 {
        lemma_concat_unique(
            seq!['.'],
            fraction(nanosecond1, 9),
            seq!['.'],
            fraction(nanosecond2, 9),
        );
        lemma_fraction_unique(nanosecond1, nanosecond2, 9);
    } else {
        assert(subsecond_text(nanosecond1).len() == subsecond_text(nanosecond2).len());
    }
}

/// No two date-times that the text form can show are written alike.
pub proof fn lemma_rfc3339_text_unique(dt1: DateTime, dt2: DateTime)
    requires
        is_canonical(dt1),
        is_canonical(dt2),
        rfc3339_text(dt1) == rfc3339_text(dt2),
    ensures
        dt1 == dt2,
{
    reveal_with_fuel(pow10, 5);
    lemma_padded_len(dt1.year as int, 4);
    lemma_padded_len(dt2.year as int, 4);
    lemma_padded_len(dt1.month as int, 2);
    lemma_padded_len(dt2.month as int, 2);
    lemma_padded_len(dt1.day as int, 2);
    lemma_padded_len(dt2.day as int, 2);
    lemma_padded_len(dt1.hour as int, 2);
    lemma_padded_len(dt2.hour as int, 2);
    lemma_padded_len(dt1.minute as int, 2);
    lemma_padded_len(dt2.minute as int, 2);
    lemma_padded_len(dt1.second as int, 2);
    lemma_padded_len(dt2.second as int, 2);
    let sub1 = subsecond_text(dt1.nanosecond as int);
    let sub2 = subsecond_text(dt2.nanosecond as int);
    let head1 = date_text(dt1) + seq!['T'] + time_text(dt1);
    let head2 = date_text(dt2) + seq!['T'] + time_text(dt2);
    assert(date_text(dt1).len() == 10 && date_text(dt2).len() == 10);
    assert(time_text(dt1).len() == 8 && time_text(dt2).len() == 8);
    lemma_concat_unique(head1 + sub1, seq!['Z'], head2 + sub2, seq!['Z']);
    lemma_concat_unique(head1, sub1, head2, sub2);
    lemma_subsecond_text_unique(dt1.nanosecond as int, dt2.nanosecond as int);
    lemma_concat_unique(
        date_text(dt1) + seq!['T'],
        time_text(dt1),
        date_text(dt2) + seq!['T'],
        time_text(dt2),
    );
    lemma_concat_unique(date_text(dt1), seq!['T'], date_text(dt2), seq!['T']);
    // The date, field by field from the right.
    let year1 = padded(dt1.year as int, 4);
    let year2 = padded(dt2.year as int, 4);
    let month1 = padded(dt1.month as int, 2);
    let month2 = padded(dt2.month as int, 2);
    let day1 = padded(dt1.day as int, 2);
    let day2 = padded(dt2.day as int, 2);
    lemma_concat_unique(
        year1 + seq!['-'] + month1 + seq!['-'],
        day1,
        year2 + seq!['-'] + month2 + seq!['-'],
        day2,
    );
    lemma_concat_unique(
        year1 + seq!['-'] + month1,
        seq!['-'],
        year2 + seq!['-'] + month2,
        seq!['-'],
    );
    lemma_concat_unique(year1 + seq!['-'], month1, year2 + seq!['-'], month2);
    lemma_concat_unique(year1, seq!['-'], year2, seq!['-']);
    lemma_padded_unique(dt1.year as int, dt2.year as int, 4);
    lemma_padded_unique(dt1.month as int, dt2.month as int, 2);
    lemma_padded_unique(dt1.day as int, dt2.day as int, 2);
    // The time of day likewise.
    let hour1 = padded(dt1.hour as int, 2);
    let hour2 = padded(dt2.hour as int, 2);
    let minute1 = padded(dt1.minute as int, 2);
    let minute2 = padded(dt2.minute as int, 2);
    let second1 = padded(dt1.second as int, 2);
    let second2 = padded(dt2.second as int, 2);
    lemma_concat_unique(
        hour1 + seq![':'] + minute1 + seq![':'],
        second1,
        hour2 + seq![':'] + minute2 + seq![':'],
        second2,
    );
    lemma_concat_unique(
        hour1 + seq![':'] + minute1,
        seq![':'],
        hour2 + seq![':'] + minute2,
        seq![':'],
    );
    lemma_concat_unique(hour1 + seq![':'], minute1, hour2 + seq![':'], minute2);
    lemma_concat_unique(hour1, seq![':'], hour2, seq![':']);
    lemma_padded_unique(dt1.hour as int, dt2.hour as int, 2);
    lemma_padded_unique(dt1.minute as int, dt2.minute as int, 2);
    lemma_padded_unique(dt1.second as int, dt2.second as int, 2);
}

/// The text of a date-time is read as that date-time.
pub proof fn lemma_reading_of_text(dt: DateTime)
    requires
        is_canonical(dt),
    ensures
        rfc3339_reading(rfc3339_text(dt)) == Ok::<DateTime, Seq<char>>(dt),
{
    let text = rfc3339_text(dt);
    let read = choose|read: DateTime| is_canonical(read) && #[trigger] rfc3339_text(read) == text;
    lemma_rfc3339_text_unique(read, dt);
}

} // verus!
