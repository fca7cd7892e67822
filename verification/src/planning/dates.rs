//! Dates as the store serialises them.
use vstd::prelude::*;
use vstd::slice::*;
use vstd::string::*;
use crate::number;

verus! {

/// Whether a Gregorian year is a leap year.
pub open spec fn is_leap(year: int) -> bool {
    year % 4 == 0 && (year % 100 != 0 || year % 400 == 0)
}

/// How many leap years come before a year, counted from year zero; a constant
/// apart.
pub open spec fn leap_years_before(year: int) -> int {
    (year - 1) / 4 - (year - 1) / 100 + (year - 1) / 400
}

/// How many days of a year come before a month.
pub open spec fn days_before_month(month: int, leap: bool) -> int {
    (if month == 1 { 0 }
    else if month == 2 { 31 }
    else if month == 3 { 59 }
    else if month == 4 { 90 }
    else if month == 5 { 120 }
    else if month == 6 { 151 }
    else if month == 7 { 181 }
    else if month == 8 { 212 }
    else if month == 9 { 243 }
    else if month == 10 { 273 }
    else if month == 11 { 304 }
    else { 334int }) + if leap && month > 2 { 1int } else { 0int }
}

/// How many days lie between the first of January 1970 and a date. A day past
/// the end of its month counts on into the next.
pub open spec fn civil_days(year: int, month: int, day: int) -> int {
    365 * (year - 1970) + leap_years_before(year) - leap_years_before(1970) + days_before_month(
        month,
        is_leap(year),
    ) + day - 1
}

/// The number that the digits from `start` to `end` spell, where there are
/// such digits.
pub open spec fn field(bytes: Seq<u8>, start: int, end: int) -> Option<int> {
    if end <= bytes.len() && number::all_digits(bytes.subrange(start, end)) {
        Some(number::digits_value(bytes.subrange(start, end)) as int)
    } else {
        None
    }
}

/// Whether a byte stands at a position.
pub open spec fn has_byte(bytes: Seq<u8>, position: int, byte: u8) -> bool {
    position < bytes.len() && bytes[position] == byte
}

/// How many digits follow from a position on.
pub open spec fn digit_run(bytes: Seq<u8>, start: int) -> nat
    decreases bytes.len() - start,
{
    if 0 <= start < bytes.len() && number::is_digit(bytes[start]) {
        1 + digit_run(bytes, start + 1)
    } else {
        0
    }
}

/// Where the offset starts: after the seconds and an optional fraction.
pub open spec fn offset_start(bytes: Seq<u8>) -> int {
    if has_byte(bytes, 19, 46) {
        20int + digit_run(bytes, 20)
    } else {
        19
    }
}

/// The offset from universal time in seconds: `Z`, or a sign, hours, a colon
/// and minutes, at the end of the text.
pub open spec fn offset_seconds(bytes: Seq<u8>, start: int) -> Option<int> {
    if has_byte(bytes, start, 90) && start + 1 == bytes.len() {
        Some(0)
    } else if (has_byte(bytes, start, 43) || has_byte(bytes, start, 45)) && start + 6
        == bytes.len() && has_byte(bytes, start + 3, 58) {
        match (field(bytes, start + 1, start + 3), field(bytes, start + 4, start + 6)) {
            (Some(hours), Some(minutes)) => if has_byte(bytes, start, 43) {
                Some((hours * 60 + minutes) * 60)
            } else {
                Some(-((hours * 60 + minutes) * 60))
            },
            _ => None,
        }
    } else {
        None
    }
}

/// Whether the separators of a date and time stand where they belong.
pub open spec fn has_separators(bytes: Seq<u8>) -> bool {
    &&& has_byte(bytes, 4, 45)
    &&& has_byte(bytes, 7, 45)
    &&& has_byte(bytes, 10, 84)
    &&& has_byte(bytes, 13, 58)
    &&& has_byte(bytes, 16, 58)
}

/// Seconds since the epoch of a date and time with an offset.
pub open spec fn epoch_seconds(bytes: Seq<u8>) -> Option<int> {
    if !has_separators(bytes) {
        None
    } else {
        match (
            field(bytes, 0, 4),
            field(bytes, 5, 7),
            field(bytes, 8, 10),
            field(bytes, 11, 13),
            field(bytes, 14, 16),
            field(bytes, 17, 19),
            offset_seconds(bytes, offset_start(bytes)),
        ) {
            (
                Some(year),
                Some(month),
                Some(day),
                Some(hour),
                Some(minute),
                Some(second),
                Some(offset),
            ) => if 1 <= month <= 12 && 1 <= day <= 31 {
                Some(
                    civil_days(year, month, day) * 86_400 + hour * 3_600 + minute * 60 + second
                        - offset,
                )
            } else {
                None
            },
            _ => None,
        }
    }
}

/// Reads the digits from `start` to `end`.
fn read_field(bytes: &[u8], start: usize, end: usize) -> (value: Option<i64>)
    requires
        start <= end <= start + 4,
    ensures
        match value {
            Some(number) => field(bytes@, start as int, end as int) == Some(number as int) && 0
                <= number <= 9999,
            None => field(bytes@, start as int, end as int) is None,
        },
        end - start == 2 && value is Some ==> value->0 <= 99,
{
    if end > bytes.len() {
        return None;
    }
    let digits = slice_subrange(bytes, start, end);
    let mut value: i64 = 0;
    let mut index: usize = 0;
    assert(digits@.take(0) =~= Seq::empty());
    while index < digits.len()
        invariant
            index <= digits@.len() <= 4,
            forall|i: int| 0 <= i < index ==> number::is_digit(#[trigger] digits@[i]),
            value == number::digits_value(digits@.take(index as int)),
            0 <= value,
            index == 0 ==> value == 0,
            index == 1 ==> value <= 9,
            index == 2 ==> value <= 99,
            index == 3 ==> value <= 999,
            index == 4 ==> value <= 9999,
            end <= bytes@.len(),
            digits@ == bytes@.subrange(start as int, end as int),
        decreases digits@.len() - index,
    {
        let byte = digits[index];
        if byte < 48 || byte > 57 {
            assert(!number::is_digit(digits@[index as int]));
            return None;
        }
        proof {
            let longer = digits@.take(index as int + 1);
            assert(longer.drop_last() =~= digits@.take(index as int));
            assert(longer.last() == byte);
        }
        value = value * 10 + (byte - 48) as i64;
        index = index + 1;
    }
    assert(digits@.take(index as int) =~= digits@);
    Some(value)
}

fn byte_stands(bytes: &[u8], position: usize, byte: u8) -> (stands: bool)
    ensures
        stands == has_byte(bytes@, position as int, byte),
{
    position < bytes.len() && bytes[position] == byte
}

/// The era computation agrees with counting years and leap years.
proof fn lemma_civil_days(year: int, month: int, day: int)
    requires
        0 <= year <= 9999,
        1 <= month <= 12,
    ensures
        ({
            let adjusted = if month <= 2 { year - 1 } else { year };
            let era = adjusted / 400;
            let year_of_era = adjusted - era * 400;
            let month_shifted = if month > 2 { month - 3 } else { month + 9 };
            let day_of_year = (153 * month_shifted + 2) / 5 + day - 1;
            let day_of_era = year_of_era * 365 + year_of_era / 4 - year_of_era / 100 + day_of_year;
            era * 146_097 + day_of_era - 719_468 == civil_days(year, month, day)
        }),
{
    let adjusted = if month <= 2 { year - 1 } else { year };
    let era = adjusted / 400;
    let year_of_era = adjusted - era * 400;
    assert(adjusted / 4 == 100 * era + year_of_era / 4);
    assert(adjusted / 100 == 4 * era + year_of_era / 100);
    let march_days = 365 * adjusted + adjusted / 4 - adjusted / 100 + adjusted / 400;
    assert(era * 146_097 + year_of_era * 365 + year_of_era / 4 - year_of_era / 100 == march_days);
    assert(leap_years_before(1970) == 477);
    let leap_day: int = if is_leap(year) { 1 } else { 0 };
    assert(year / 4 - (year - 1) / 4 == if year % 4 == 0 { 1int } else { 0int });
    assert(year / 100 - (year - 1) / 100 == if year % 100 == 0 { 1int } else { 0int });
    assert(year / 400 - (year - 1) / 400 == if year % 400 == 0 { 1int } else { 0int });
    assert(year % 400 == 0 ==> year % 100 == 0);
    assert(year % 100 == 0 ==> year % 4 == 0);
    assert(year / 4 - year / 100 + year / 400 == leap_years_before(year) + leap_day);
}

/// Seconds since the Unix epoch of an ISO-8601 timestamp in the form that the
/// store serialises dates: `2012-03-01T12:30:45.678+01:00`, with `Z` accepted
/// for a zero offset and the fraction optional. `None` for anything that does
/// not parse, because a date the store renders strangely must never fail a
/// plan.
pub fn parse_iso8601_epoch_seconds(text: &str) -> (seconds: Option<i64>)
    ensures
        match seconds {
            Some(value) => epoch_seconds(text.spec_bytes()) == Some(value as int),
            None => epoch_seconds(text.spec_bytes()) is None,
        },
{
    let bytes = text.as_bytes();
    if !(byte_stands(bytes, 4, 45) && byte_stands(bytes, 7, 45) && byte_stands(bytes, 10, 84)
        && byte_stands(bytes, 13, 58) && byte_stands(bytes, 16, 58)) {
        return None;
    }
    let year = match read_field(bytes, 0, 4) {
        Some(value) => value,
        None => {
            return None;
        },
    };
    let month = match read_field(bytes, 5, 7) {
        Some(value) => value,
        None => {
            return None;
        },
    };
    let day = match read_field(bytes, 8, 10) {
        Some(value) => value,
        None => {
            return None;
        },
    };
    let hour = match read_field(bytes, 11, 13) {
        Some(value) => value,
        None => {
            return None;
        },
    };
    let minute = match read_field(bytes, 14, 16) {
        Some(value) => value,
        None => {
            return None;
        },
    };
    let second = match read_field(bytes, 17, 19) {
        Some(value) => value,
        None => {
            return None;
        },
    };
    if month < 1 || month > 12 || day < 1 || day > 31 {
        return None;
    }
    let mut cursor: usize = 19;
    if byte_stands(bytes, 19, 46) {
        cursor = 20;
        while cursor < bytes.len() && 48 <= bytes[cursor] && bytes[cursor] <= 57
            invariant
                20 <= cursor <= bytes@.len(),
                cursor + digit_run(bytes@, cursor as int) == 20 + digit_run(bytes@, 20),
            decreases bytes@.len() - cursor,
        {
            cursor = cursor + 1;
        }
    }
    assert(cursor == offset_start(bytes@));
    let offset = if cursor >= bytes.len() {
        return None;
    } else if bytes[cursor] == 90 && cursor + 1 == bytes.len() {
        0i64
    } else if bytes[cursor] == 43 || bytes[cursor] == 45 {
        if bytes.len() - cursor != 6 || !byte_stands(bytes, cursor + 3, 58) {
            return None;
        }
        let hours = match read_field(bytes, cursor + 1, cursor + 3) {
            Some(value) => value,
            None => {
                return None;
            },
        };
        let minutes = match read_field(bytes, cursor + 4, cursor + 6) {
            Some(value) => value,
            None => {
                return None;
            },
        };
        let magnitude: i64 = (hours * 60 + minutes) * 60;
        if bytes[cursor] == 43 {
            magnitude
        } else {
            -magnitude
        }
    } else {
        return None;
    };
    proof {
        lemma_civil_days(year as int, month as int, day as int);
    }
    let year_adjusted: i64 = if month <= 2 {
        year - 1
    } else {
        year
    };
    let era: i64 = (year_adjusted + 400) / 400 - 1;
    assert(era == (year_adjusted as int) / 400);
    let year_of_era: i64 = year_adjusted - era * 400;
    let month_shifted: i64 = if month > 2 {
        month - 3
    } else {
        month + 9
    };
    let day_of_year: i64 = (153 * month_shifted + 2) / 5 + day - 1;
    let day_of_era: i64 = year_of_era * 365 + year_of_era / 4 - year_of_era / 100 + day_of_year;
    let days: i64 = era * 146_097 + day_of_era - 719_468;
    Some(days * 86_400 + hour * 3_600 + minute * 60 + second - offset)
}

} // verus!
