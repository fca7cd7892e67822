//! What a date comes to: the calendar, and the instant that a text names.
use vstd::prelude::*;
use crate::number;
use crate::planning::dates;

verus! {

/// How many days a month of a year has.
pub open spec fn month_length(year: int, month: int) -> int {
    if month == 2 {
        if year % 4 == 0 && year % 100 != 0 || year % 400 == 0 {
            29
        } else {
            28
        }
    } else if month == 4 || month == 6 || month == 9 || month == 11 {
        30
    } else {
        31
    }
}

/// The calendar has no gaps: the first of January 1970 is day zero, each day
/// follows the one before, each month starts on the day after the last of the one
/// before, and so does each year.
pub proof fn law_the_calendar_has_no_gaps(year: int, month: int, day: int)
    requires
        1 <= month <= 12,
    ensures
        dates::civil_days(1970, 1, 1) == 0,
        dates::civil_days(year, month, day + 1) == dates::civil_days(year, month, day) + 1,
        month < 12 ==> dates::civil_days(year, month + 1, 1) == dates::civil_days(year, month, 1)
            + month_length(year, month),
        dates::civil_days(year + 1, 1, 1) == dates::civil_days(year, 12, 31) + 1,
{
    assert(dates::leap_years_before(year + 1) - dates::leap_years_before(year) == (if year % 4
        == 0 && year % 100 != 0 || year % 400 == 0 {
        1int
    } else {
        0int
    })) by {
        let before = year - 1;
        assert(year / 4 - before / 4 == (if year % 4 == 0 { 1int } else { 0int }));
        assert(year / 100 - before / 100 == (if year % 100 == 0 { 1int } else { 0int }));
        assert(year / 400 - before / 400 == (if year % 400 == 0 { 1int } else { 0int }));
        assert(year % 400 == 0 ==> year % 100 == 0);
        assert(year % 100 == 0 ==> year % 4 == 0);
    }
}

/// Whether a digit stands at each of some places.
pub open spec fn digits_at(bytes: Seq<u8>, start: int, end: int) -> bool {
    forall|i: int| start <= i < end ==> 48 <= #[trigger] bytes[i] <= 57
}

/// The number that two digits spell.
pub open spec fn pair(bytes: Seq<u8>, start: int) -> int {
    (bytes[start] - 48) * 10 + (bytes[start + 1] - 48)
}

proof fn lemma_pair(bytes: Seq<u8>, start: int)
    requires
        0 <= start,
        start + 2 <= bytes.len(),
    ensures
        digits_at(bytes, start, start + 2) ==> dates::field(bytes, start, start + 2) == Some(
            pair(bytes, start),
        ),
        !digits_at(bytes, start, start + 2) ==> dates::field(bytes, start, start + 2) is None,
{
    let part = bytes.subrange(start, start + 2);
    assert(part[0] == bytes[start] && part[1] == bytes[start + 1]);
    if digits_at(bytes, start, start + 2) {
        assert forall|i: int| 0 <= i < part.len() implies number::is_digit(#[trigger] part[i]) by {
            assert(part[i] == bytes[start + i]);
        }
        reveal_with_fuel(number::digits_value, 3);
        assert(part.drop_last().drop_last() =~= Seq::empty());
        assert(part.drop_last().last() == bytes[start]);
    } else {
        let i = choose|i: int| start <= i < start + 2 && !(48 <= #[trigger] bytes[i] <= 57);
        assert(part[i - start] == bytes[i]);
    }
}

proof fn lemma_year(bytes: Seq<u8>)
    requires
        bytes.len() >= 4,
    ensures
        digits_at(bytes, 0, 4) ==> dates::field(bytes, 0, 4) == Some(
            pair(bytes, 0) * 100 + pair(bytes, 2),
        ),
        !digits_at(bytes, 0, 4) ==> dates::field(bytes, 0, 4) is None,
{
    let part = bytes.subrange(0, 4);
    assert(forall|i: int| 0 <= i < 4 ==> part[i] == bytes[i]);
    if digits_at(bytes, 0, 4) {
        assert forall|i: int| 0 <= i < part.len() implies number::is_digit(#[trigger] part[i]) by {
            assert(part[i] == bytes[i]);
        }
        let three = part.drop_last();
        let two = three.drop_last();
        let one = two.drop_last();
        assert(one.drop_last() =~= Seq::empty());
        assert(one.last() == bytes[0] && two.last() == bytes[1] && three.last() == bytes[2]
            && part.last() == bytes[3]);
        assert(number::digits_value(one.drop_last()) == 0);
        assert(number::digits_value(one) == bytes[0] - 48);
        assert(number::digits_value(two) == (bytes[0] - 48) * 10 + (bytes[1] - 48));
        assert(number::digits_value(three) == ((bytes[0] - 48) * 10 + (bytes[1] - 48)) * 10 + (
        bytes[2] - 48));
    } else {
        let i = choose|i: int| 0 <= i < 4 && !(48 <= #[trigger] bytes[i] <= 57);
        assert(part[i] == bytes[i]);
    }
}

/// Whether a text has the shape of a date and a time up to its seconds: digits and
/// separators where they belong, a month of the year, and a day that a month can
/// have.
pub open spec fn is_dated(bytes: Seq<u8>) -> bool {
    &&& bytes.len() >= 19
    &&& digits_at(bytes, 0, 4) && bytes[4] == 45
    &&& digits_at(bytes, 5, 7) && bytes[7] == 45
    &&& digits_at(bytes, 8, 10) && bytes[10] == 84
    &&& digits_at(bytes, 11, 13) && bytes[13] == 58
    &&& digits_at(bytes, 14, 16) && bytes[16] == 58
    &&& digits_at(bytes, 17, 19)
    &&& 1 <= pair(bytes, 5) <= 12
    &&& 1 <= pair(bytes, 8) <= 31
}

/// The seconds that such a text states, before its offset.
pub open spec fn local_seconds(bytes: Seq<u8>) -> int {
    dates::civil_days(pair(bytes, 0) * 100 + pair(bytes, 2), pair(bytes, 5), pair(bytes, 8))
        * 86_400 + pair(bytes, 11) * 3_600 + pair(bytes, 14) * 60 + pair(bytes, 17)
}

proof fn lemma_local(bytes: Seq<u8>)
    ensures
        is_dated(bytes) ==> dates::epoch_seconds(bytes) == match dates::offset_seconds(
            bytes,
            dates::offset_start(bytes),
        ) {
            Some(offset) => Some(local_seconds(bytes) - offset),
            None => None,
        },
        !is_dated(bytes) ==> dates::epoch_seconds(bytes) is None,
{
    if bytes.len() >= 19 {
        lemma_year(bytes);
        lemma_pair(bytes, 5);
        lemma_pair(bytes, 8);
        lemma_pair(bytes, 11);
        lemma_pair(bytes, 14);
        lemma_pair(bytes, 17);
    } else if dates::has_separators(bytes) {
        assert(dates::field(bytes, 17, 19) is None);
    }
}

/// A text that is no date and time names no instant, and neither does one without
/// an offset.
pub proof fn law_what_is_no_date_names_no_instant(bytes: Seq<u8>)
    requires
        !is_dated(bytes) || bytes.len() == 19,
    ensures
        dates::epoch_seconds(bytes) is None,
{
    lemma_local(bytes);
}

/// Where a text ends in `Z` right behind its seconds, it names the instant that its
/// fields state.
pub proof fn law_a_universal_time_is_what_it_states(bytes: Seq<u8>)
    requires
        is_dated(bytes),
        bytes.len() == 20,
        bytes[19] == 90,
    ensures
        dates::epoch_seconds(bytes) == Some(local_seconds(bytes)),
{
    lemma_local(bytes);
}

/// An offset of hours and minutes is taken from the stated time where it is
/// positive, and added where it is negative.
pub proof fn law_an_offset_is_taken_off(bytes: Seq<u8>)
    requires
        is_dated(bytes),
        bytes.len() == 25,
        bytes[19] == 43 || bytes[19] == 45,
        digits_at(bytes, 20, 22),
        bytes[22] == 58,
        digits_at(bytes, 23, 25),
    ensures
        bytes[19] == 43 ==> dates::epoch_seconds(bytes) == Some(
            local_seconds(bytes) - pair(bytes, 20) * 3_600 - pair(bytes, 23) * 60,
        ),
        bytes[19] == 45 ==> dates::epoch_seconds(bytes) == Some(
            local_seconds(bytes) + pair(bytes, 20) * 3_600 + pair(bytes, 23) * 60,
        ),
{
    lemma_local(bytes);
    lemma_pair(bytes, 20);
    lemma_pair(bytes, 23);
}

proof fn lemma_digit_run(bytes: Seq<u8>, start: int, end: int)
    requires
        0 <= start <= end < bytes.len(),
        digits_at(bytes, start, end),
        !(48 <= bytes[end] <= 57),
    ensures
        dates::digit_run(bytes, start) == end - start,
    decreases end - start,
{
    if start < end {
        lemma_digit_run(bytes, start + 1, end);
    }
}

/// A fraction of a second changes nothing, however long it is: with it or without
/// it, the same text names the same instant.
pub proof fn law_a_fraction_changes_nothing(bytes: Seq<u8>, end: int)
    requires
        is_dated(bytes),
        20 <= end < bytes.len(),
        bytes[19] == 46,
        digits_at(bytes, 20, end),
        bytes[end] == 90 && end + 1 == bytes.len() || (bytes[end] == 43 || bytes[end] == 45)
            && end + 6 == bytes.len(),
    ensures
        dates::epoch_seconds(bytes) == dates::epoch_seconds(bytes.take(19) + bytes.skip(end)),
{
    let plain = bytes.take(19) + bytes.skip(end);
    lemma_digit_run(bytes, 20, end);
    assert forall|i: int| 0 <= i < 19 implies #[trigger] plain[i] == bytes[i] by {}
    assert(is_dated(plain));
    lemma_local(bytes);
    lemma_local(plain);
    assert(plain[19] == bytes[end]);
    if bytes[end] != 90 {
        assert(plain[22] == bytes[end + 3]);
        lemma_pair(bytes, end + 1);
        lemma_pair(bytes, end + 4);
        lemma_pair(plain, 20);
        lemma_pair(plain, 23);
        assert(plain[20] == bytes[end + 1] && plain[21] == bytes[end + 2]);
        assert(plain[23] == bytes[end + 4] && plain[24] == bytes[end + 5]);
        assert(digits_at(plain, 20, 22) <==> digits_at(bytes, end + 1, end + 3));
        assert(digits_at(plain, 23, 25) <==> digits_at(bytes, end + 4, end + 6));
    }
}

/// Every instant that a text names fits in sixty-four bits.
pub proof fn law_an_instant_fits(bytes: Seq<u8>)
    requires
        dates::epoch_seconds(bytes) is Some,
    ensures
        i64::MIN <= dates::epoch_seconds(bytes)->0 <= i64::MAX,
{
    lemma_local(bytes);
    let start = dates::offset_start(bytes);
    if start >= 0 && start + 6 == bytes.len() {
        lemma_pair(bytes, start + 1);
        lemma_pair(bytes, start + 4);
    }
}

} // verus!
