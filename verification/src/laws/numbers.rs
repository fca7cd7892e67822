//! Numbers and identifiers, written and read back.
use vstd::arithmetic::div_mod::lemma_mod_breakdown;
use vstd::prelude::*;
use vstd::string::*;
use vstd::utf8::*;
use crate::identifier::{RecordIdentifier, SegmentIdentifier};
use crate::journal::scan;
use crate::number;
use crate::text;

verus! {

/// The bytes of a text of ASCII characters.
pub open spec fn ascii(chars: Seq<char>) -> Seq<u8> {
    Seq::new(chars.len(), |i: int| chars[i] as u8)
}

proof fn lemma_ascii(chars: Seq<char>)
    requires
        is_ascii_chars(chars),
    ensures
        encode_utf8(chars) == ascii(chars),
{
    is_ascii_chars_encode_utf8(chars);
    assert(encode_utf8(chars) =~= ascii(chars));
}

proof fn lemma_digit_char(digit: int)
    requires
        0 <= digit < 16,
    ensures
        digit < 10 ==> text::digit_char(digit) as u8 == 48 + digit,
        digit >= 10 ==> text::digit_char(digit) as u8 == 87 + digit,
        '\0' <= text::digit_char(digit) <= '\u{7f}',
        number::hex_value(text::digit_char(digit) as u8) == Some(digit),
{
    assert('0' as u8 == 48 && '1' as u8 == 49 && '2' as u8 == 50 && '3' as u8 == 51 && '4' as u8
        == 52 && '5' as u8 == 53 && '6' as u8 == 54 && '7' as u8 == 55 && '8' as u8 == 56 && '9'
        as u8 == 57);
    assert('a' as u8 == 97 && 'b' as u8 == 98 && 'c' as u8 == 99 && 'd' as u8 == 100 && 'e' as u8
        == 101 && 'f' as u8 == 102);
}

proof fn lemma_decimal(value: nat)
    ensures
        is_ascii_chars(text::decimal(value)),
        text::decimal(value).len() > 0,
        number::all_digits(ascii(text::decimal(value))),
        number::digits_value(ascii(text::decimal(value))) == value,
    decreases value,
{
    let written = text::decimal(value);
    let bytes = ascii(written);
    if value < 10 {
        lemma_digit_char(value as int);
        assert(bytes.drop_last() =~= Seq::empty());
        assert(number::digits_value(bytes.drop_last()) == 0);
    } else {
        lemma_decimal(value / 10);
        lemma_digit_char((value % 10) as int);
        let earlier = text::decimal(value / 10);
        assert(bytes.drop_last() =~= ascii(earlier));
        assert(bytes.last() == 48 + value % 10);
        assert forall|i: int| 0 <= i < written.len() implies '\0' <= #[trigger] written[i]
            <= '\u{7f}' by {
            if i < earlier.len() {
                assert(written[i] == earlier[i]);
            }
        }
        assert forall|i: int| 0 <= i < bytes.len() implies number::is_digit(#[trigger] bytes[i]) by {
            if i < earlier.len() {
                assert(bytes[i] == ascii(earlier)[i]);
            }
        }
    }
}

/// A number reads back as it was written in decimal.
pub proof fn law_a_written_number_reads_back(value: u64)
    ensures
        number::unsigned_value(encode_utf8(text::decimal(value as nat))) == Some(value),
        number::plus_unsigned_value(encode_utf8(text::decimal(value as nat))) == Some(value),
{
    let written = text::decimal(value as nat);
    lemma_decimal(value as nat);
    lemma_ascii(written);
    assert(number::is_digit(ascii(written)[0]));
}

/// A signed number reads back as it was written in decimal.
pub proof fn law_a_written_signed_number_reads_back(value: i64)
    ensures
        number::signed_value(encode_utf8(text::signed_decimal(value as int))) == Some(value),
{
    let written = text::signed_decimal(value as int);
    if value < 0 {
        let digits = text::decimal((-value) as nat);
        lemma_decimal((-value) as nat);
        assert('-' as u8 == 45);
        assert(written =~= seq!['-'] + digits);
        assert forall|i: int| 0 <= i < written.len() implies '\0' <= #[trigger] written[i]
            <= '\u{7f}' by {
            if i > 0 {
                assert(written[i] == digits[i - 1]);
            }
        }
        lemma_ascii(written);
        let bytes = ascii(written);
        assert(bytes[0] == 45);
        assert(bytes.skip(1) =~= ascii(digits));
    } else {
        lemma_decimal(value as nat);
        lemma_ascii(written);
        assert(number::is_digit(ascii(written)[0]));
    }
}

/// What reads as a number is made of digits and nothing else, and each further digit
/// counts the ones before it tenfold.
pub proof fn law_digits_read_tenfold(bytes: Seq<u8>, digit: u8)
    ensures
        number::unsigned_value(Seq::empty()) is None,
        digit < 48 || digit > 57 ==> number::unsigned_value(bytes.push(digit)) is None,
        48 <= digit <= 57 ==> number::unsigned_value(seq![digit]) == Some((digit - 48) as u64),
        48 <= digit <= 57 && number::unsigned_value(bytes) is Some ==> {
            let next = number::unsigned_value(bytes)->0 * 10 + (digit - 48);
            if next <= 0xffff_ffff_ffff_ffff {
                number::unsigned_value(bytes.push(digit)) == Some(next as u64)
            } else {
                number::unsigned_value(bytes.push(digit)) is None
            }
        },
{
    let more = bytes.push(digit);
    assert(more.drop_last() =~= bytes);
    assert(more[bytes.len() as int] == digit);
    let one = seq![digit];
    assert(one.drop_last() =~= Seq::empty());
    assert(number::digits_value(one.drop_last()) == 0);
    if digit < 48 || digit > 57 {
        assert(!number::is_digit(more[bytes.len() as int]));
    } else if number::unsigned_value(bytes) is Some {
        assert forall|i: int| 0 <= i < more.len() implies number::is_digit(#[trigger] more[i]) by {
            if i < bytes.len() {
                assert(more[i] == bytes[i]);
            }
        }
    }
}

/// A plus sign before a number changes nothing, and a minus sign makes it negative;
/// neither stands for a number by itself.
pub proof fn law_a_sign_stands_before_digits(bytes: Seq<u8>, magnitude: u64)
    requires
        number::unsigned_value(bytes) == Some(magnitude),
    ensures
        number::plus_unsigned_value(seq![43u8] + bytes) == Some(magnitude),
        magnitude <= 0x7fff_ffff_ffff_ffff ==> number::signed_value(seq![43u8] + bytes) == Some(
            magnitude as i64,
        ),
        magnitude <= 0x8000_0000_0000_0000 ==> number::signed_value(seq![45u8] + bytes) is Some
            && number::signed_value(seq![45u8] + bytes)->0 == -(magnitude as int),
        magnitude > 0x8000_0000_0000_0000 ==> number::signed_value(seq![45u8] + bytes) is None,
        magnitude > 0x7fff_ffff_ffff_ffff ==> number::signed_value(bytes) is None,
        number::signed_value(seq![45u8]) is None,
        number::plus_unsigned_value(seq![43u8]) is None,
{
    assert((seq![43u8] + bytes).skip(1) =~= bytes);
    assert((seq![45u8] + bytes).skip(1) =~= bytes);
    assert(seq![45u8].skip(1) =~= Seq::empty());
    assert(seq![43u8].skip(1) =~= Seq::empty());
    assert(number::is_digit(bytes[0]));
}

/// A hexadecimal digit counts alike in either case, and nothing else is one.
pub proof fn law_hexadecimal_digits_of_either_case(byte: u8)
    ensures
        48 <= byte <= 57 ==> number::hex_value(byte) == Some(byte - 48),
        97 <= byte <= 102 ==> number::hex_value(byte) == Some(10 + (byte - 97)),
        65 <= byte <= 70 ==> number::hex_value(byte) == number::hex_value((byte + 32) as u8),
        number::hex_value(byte) is Some ==> 48 <= byte <= 57 || 65 <= byte <= 70 || 97 <= byte
            <= 102,
{
}

/// An identifier has thirty-six bytes, with dashes behind its first eight digits, the
/// next four, four and four, and hexadecimal digits everywhere else.
pub proof fn law_an_identifier_has_one_shape(bytes: Seq<u8>)
    ensures
        number::identifier_value(bytes) is Some <==> {
            &&& bytes.len() == 36
            &&& bytes[8] == 45 && bytes[13] == 45 && bytes[18] == 45 && bytes[23] == 45
            &&& forall|i: int|
                0 <= i < 36 && i != 8 && i != 13 && i != 18 && i != 23 ==> number::hex_value(
                    #[trigger] bytes[i],
                ) is Some
        },
{
    if number::identifier_value(bytes) is Some {
        assert(bytes[8] == 45 && bytes[13] == 45 && bytes[18] == 45 && bytes[23] == 45);
        assert forall|i: int|
            0 <= i < 36 && i != 8 && i != 13 && i != 18 && i != 23 implies number::hex_value(
            #[trigger] bytes[i],
        ) is Some by {
            assert(!number::is_dash_position(i));
        }
    }
}

/// Sixteen to a power.
spec fn sixteens(count: nat) -> nat
    decreases count,
{
    if count == 0 {
        1
    } else {
        16 * sixteens((count - 1) as nat)
    }
}

proof fn lemma_sixteens_positive(count: nat)
    ensures
        sixteens(count) > 0,
    decreases count,
{
    if count > 0 {
        lemma_sixteens_positive((count - 1) as nat);
    }
}

proof fn lemma_fixed(value: nat, width: nat)
    ensures
        text::fixed_digits(value, 16, width).len() == width,
        is_ascii_chars(text::fixed_digits(value, 16, width)),
        forall|i: int|
            0 <= i < width ==> number::hex_value(
                (#[trigger] text::fixed_digits(value, 16, width)[i]) as u8,
            ) is Some,
    decreases width,
{
    if width > 0 {
        let earlier = text::fixed_digits(value / 16, 16, (width - 1) as nat);
        let all = text::fixed_digits(value, 16, width);
        lemma_fixed(value / 16, (width - 1) as nat);
        lemma_digit_char((value % 16) as int);
        assert forall|i: int| 0 <= i < width implies number::hex_value((#[trigger] all[i]) as u8)
            is Some && '\0' <= all[i] <= '\u{7f}' by {
            if i < width - 1 {
                assert(all[i] == earlier[i]);
            }
        }
    }
}

/// Digits that stand together in an identifier add their own number to what the
/// digits before them spell.
proof fn lemma_group(bytes: Seq<u8>, start: int, value: nat, width: nat)
    requires
        0 <= start,
        start + width <= 36,
        bytes.len() == 36,
        forall|i: int| start <= i < start + width ==> !number::is_dash_position(i),
        forall|i: int|
            0 <= i < width ==> #[trigger] bytes[start + i] == text::fixed_digits(
                value,
                16,
                width,
            )[i] as u8,
    ensures
        number::dashed_value(bytes, (start + width) as nat) == number::dashed_value(
            bytes,
            start as nat,
        ) * sixteens(width) + value % sixteens(width),
    decreases width,
{
    if width > 0 {
        let shorter = (width - 1) as nat;
        let earlier = text::fixed_digits(value / 16, 16, shorter);
        lemma_fixed(value, width);
        lemma_fixed(value / 16, shorter);
        lemma_digit_char((value % 16) as int);
        lemma_sixteens_positive(shorter);
        assert forall|i: int| 0 <= i < shorter implies #[trigger] bytes[start + i] == earlier[i]
            as u8 by {
            assert(text::fixed_digits(value, 16, width)[i] == earlier[i]);
        }
        lemma_group(bytes, start, value / 16, shorter);
        let end = start + shorter;
        assert(!number::is_dash_position(end));
        assert(bytes[end] == text::fixed_digits(value, 16, width)[shorter as int] as u8);
        assert(number::hex_value(bytes[end]) == Some((value % 16) as int));
        lemma_mod_breakdown(value as int, 16, sixteens(shorter) as int);
        let before = number::dashed_value(bytes, start as nat);
        assert(before * sixteens(width) == (before * sixteens(shorter)) * 16) by (nonlinear_arith)
            requires
                sixteens(width) == 16 * sixteens(shorter),
        ;
    } else {
        assert(number::dashed_value(bytes, start as nat) * sixteens(0) == number::dashed_value(
            bytes,
            start as nat,
        )) by (nonlinear_arith)
            requires
                sixteens(0) == 1,
        ;
        assert(value % sixteens(0) == 0);
    }
}

proof fn lemma_scaled(before: nat, power: nat, limit: nat, rest: nat, after: nat)
    by (nonlinear_arith)
    requires
        after == before * power + rest,
        power == limit,
    ensures
        after == before * limit + rest,
{
}

proof fn lemma_powers()
    ensures
        sixteens(4) == 0x1_0000,
        sixteens(8) == 0x1_0000_0000,
        sixteens(12) == 0x1_0000_0000_0000,
{
    reveal_with_fuel(sixteens, 13);
}

proof fn lemma_four(bytes: Seq<u8>, start: int, value: nat)
    requires
        0 <= start,
        start + 4 <= 36,
        bytes.len() == 36,
        forall|i: int| start <= i < start + 4 ==> !number::is_dash_position(i),
        forall|i: int|
            0 <= i < 4 ==> #[trigger] bytes[start + i] == text::fixed_digits(value, 16, 4)[i] as u8,
    ensures
        number::dashed_value(bytes, (start + 4) as nat) == number::dashed_value(
            bytes,
            start as nat,
        ) * 0x1_0000 + value % 0x1_0000,
{
    lemma_group(bytes, start, value, 4);
    lemma_powers();
    lemma_scaled(
        number::dashed_value(bytes, start as nat),
        sixteens(4),
        0x1_0000,
        value % sixteens(4),
        number::dashed_value(bytes, (start + 4) as nat),
    );
}

proof fn lemma_eight(bytes: Seq<u8>, start: int, value: nat)
    requires
        0 <= start,
        start + 8 <= 36,
        bytes.len() == 36,
        forall|i: int| start <= i < start + 8 ==> !number::is_dash_position(i),
        forall|i: int|
            0 <= i < 8 ==> #[trigger] bytes[start + i] == text::fixed_digits(value, 16, 8)[i] as u8,
    ensures
        number::dashed_value(bytes, (start + 8) as nat) == number::dashed_value(
            bytes,
            start as nat,
        ) * 0x1_0000_0000 + value % 0x1_0000_0000,
{
    lemma_group(bytes, start, value, 8);
    lemma_powers();
    lemma_scaled(
        number::dashed_value(bytes, start as nat),
        sixteens(8),
        0x1_0000_0000,
        value % sixteens(8),
        number::dashed_value(bytes, (start + 8) as nat),
    );
}

proof fn lemma_twelve(bytes: Seq<u8>, start: int, value: nat)
    requires
        0 <= start,
        start + 12 <= 36,
        bytes.len() == 36,
        forall|i: int| start <= i < start + 12 ==> !number::is_dash_position(i),
        forall|i: int|
            0 <= i < 12 ==> #[trigger] bytes[start + i] == text::fixed_digits(value, 16, 12)[i] as u8,
    ensures
        number::dashed_value(bytes, (start + 12) as nat) == number::dashed_value(
            bytes,
            start as nat,
        ) * 0x1_0000_0000_0000 + value % 0x1_0000_0000_0000,
{
    lemma_group(bytes, start, value, 12);
    lemma_powers();
    lemma_scaled(
        number::dashed_value(bytes, start as nat),
        sixteens(12),
        0x1_0000_0000_0000,
        value % sixteens(12),
        number::dashed_value(bytes, (start + 12) as nat),
    );
}

#[verifier::rlimit(60)]
proof fn lemma_written_identifier(segment: SegmentIdentifier)
    ensures
        is_ascii_chars(segment.text()),
        segment.text().len() == 36,
        number::is_dashed_identifier(ascii(segment.text())),
        number::dashed_value(ascii(segment.text()), 36) == segment.most_significant
            * 0x1_0000_0000_0000_0000 + segment.least_significant,
{
    reveal_strlit("-");
    assert('-' as u8 == 45);
    let high = segment.most_significant;
    let low = segment.least_significant;
    let first = text::fixed_digits((high / 0x1_0000_0000) as nat, 16, 8);
    let second = text::fixed_digits((high / 0x1_0000) as nat, 16, 4);
    let third = text::fixed_digits(high as nat, 16, 4);
    let fourth = text::fixed_digits((low / 0x1_0000_0000_0000) as nat, 16, 4);
    let fifth = text::fixed_digits(low as nat, 16, 12);
    lemma_fixed((high / 0x1_0000_0000) as nat, 8);
    lemma_fixed((high / 0x1_0000) as nat, 4);
    lemma_fixed(high as nat, 4);
    lemma_fixed((low / 0x1_0000_0000_0000) as nat, 4);
    lemma_fixed(low as nat, 12);
    let written = segment.text();
    let bytes = ascii(written);
    assert(written.len() == 36);
    assert(written[8] == '-' && written[13] == '-' && written[18] == '-' && written[23] == '-');
    assert forall|i: int| 0 <= i < 8 implies #[trigger] written[i] == first[i] by {}
    assert forall|i: int| 9 <= i < 13 implies #[trigger] written[i] == second[i - 9] by {}
    assert forall|i: int| 14 <= i < 18 implies #[trigger] written[i] == third[i - 14] by {}
    assert forall|i: int| 19 <= i < 23 implies #[trigger] written[i] == fourth[i - 19] by {}
    assert forall|i: int| 24 <= i < 36 implies #[trigger] written[i] == fifth[i - 24] by {}
    assert forall|i: int| 0 <= i < 36 implies '\0' <= #[trigger] written[i] <= '\u{7f}' by {
        if i < 8 {
            assert(written[i] == first[i]);
        } else if 9 <= i < 13 {
            assert(written[i] == second[i - 9]);
        } else if 14 <= i < 18 {
            assert(written[i] == third[i - 14]);
        } else if 19 <= i < 23 {
            assert(written[i] == fourth[i - 19]);
        } else if 24 <= i {
            assert(written[i] == fifth[i - 24]);
        }
    }
    assert forall|i: int| 0 <= i < 36 implies if number::is_dash_position(i) {
        #[trigger] bytes[i] == 45
    } else {
        number::hex_value(bytes[i]) is Some
    } by {
        if i < 8 {
            assert(written[i] == first[i]);
        } else if 9 <= i < 13 {
            assert(written[i] == second[i - 9]);
        } else if 14 <= i < 18 {
            assert(written[i] == third[i - 14]);
        } else if 19 <= i < 23 {
            assert(written[i] == fourth[i - 19]);
        } else if 24 <= i {
            assert(written[i] == fifth[i - 24]);
        }
    }
    assert forall|i: int| 0 <= i < 8 implies #[trigger] bytes[0 + i] == first[i] as u8 by {
        assert(written[i] == first[i]);
    }
    lemma_eight(bytes, 0, (high / 0x1_0000_0000) as nat);
    assert forall|i: int| 0 <= i < 4 implies #[trigger] bytes[9 + i] == second[i] as u8 by {
        assert(written[9 + i] == second[i]);
    }
    lemma_four(bytes, 9, (high / 0x1_0000) as nat);
    assert forall|i: int| 0 <= i < 4 implies #[trigger] bytes[14 + i] == third[i] as u8 by {
        assert(written[14 + i] == third[i]);
    }
    lemma_four(bytes, 14, high as nat);
    assert forall|i: int| 0 <= i < 4 implies #[trigger] bytes[19 + i] == fourth[i] as u8 by {
        assert(written[19 + i] == fourth[i]);
    }
    lemma_four(bytes, 19, (low / 0x1_0000_0000_0000) as nat);
    assert forall|i: int| 0 <= i < 12 implies #[trigger] bytes[24 + i] == fifth[i] as u8 by {
        assert(written[24 + i] == fifth[i]);
    }
    lemma_twelve(bytes, 24, low as nat);
    assert(number::dashed_value(bytes, 0) == 0);
    assert(number::dashed_value(bytes, 9) == number::dashed_value(bytes, 8));
    assert(number::dashed_value(bytes, 14) == number::dashed_value(bytes, 13));
    assert(number::dashed_value(bytes, 19) == number::dashed_value(bytes, 18));
    assert(number::dashed_value(bytes, 24) == number::dashed_value(bytes, 23));
    let parts = (
        (high / 0x1_0000_0000) as nat,
        (high / 0x1_0000) as nat % 0x1_0000,
        high as nat % 0x1_0000,
    );
    assert(high == (parts.0 * 0x1_0000 + parts.1) * 0x1_0000 + parts.2);
    assert(number::dashed_value(bytes, 8) == parts.0);
    assert(number::dashed_value(bytes, 18) == high);
    assert(low / 0x1_0000_0000_0000 < 0x1_0000);
    assert(number::dashed_value(bytes, 23) == high * 0x1_0000 + low / 0x1_0000_0000_0000);
}

/// An identifier reads back as it was written: the number of its two halves, one
/// behind the other.
pub proof fn law_a_written_identifier_reads_back(segment: SegmentIdentifier)
    ensures
        segment.text().len() == 36,
        number::identifier_value(encode_utf8(segment.text())) == Some(segment.number()),
        segment.number() == segment.most_significant * 0x1_0000_0000_0000_0000
            + segment.least_significant,
{
    lemma_written_identifier(segment);
    lemma_ascii(segment.text());
}

/// A record reads back as it was written.
pub proof fn law_a_written_record_reads_back(record: RecordIdentifier)
    ensures
        scan::record_named(encode_utf8(record.text())) == Some(record),
{
    let segment = record.segment;
    let digits = text::decimal(record.record_number as nat);
    let written = record.text();
    reveal_strlit(":");
    assert(':' as u8 == 58);
    lemma_written_identifier(segment);
    lemma_decimal(record.record_number as nat);
    assert(written =~= segment.text() + ":"@ + digits);
    assert forall|i: int| 0 <= i < written.len() implies '\0' <= #[trigger] written[i]
        <= '\u{7f}' by {
        if i < 36 {
            assert(written[i] == segment.text()[i]);
        } else if i > 36 {
            assert(written[i] == digits[i - 37]);
        }
    }
    lemma_ascii(written);
    let bytes = ascii(written);
    assert(bytes.len() > 37);
    assert(bytes[36] == 58);
    assert(bytes.take(36) =~= ascii(segment.text()));
    assert(bytes.skip(37) =~= ascii(digits));
    let value = number::identifier_value(bytes.take(36))->0;
    assert(value == segment.most_significant * 0x1_0000_0000_0000_0000 + segment.least_significant);
    assert(value / 0x1_0000_0000_0000_0000 == segment.most_significant);
    assert(value % 0x1_0000_0000_0000_0000 == segment.least_significant);
}

/// A data segment and a bulk segment differ in the first digit of the second half,
/// and no segment is both.
pub proof fn law_a_segment_holds_data_or_blocks(segment: SegmentIdentifier)
    ensures
        segment.names_data() <==> 0xA000_0000_0000_0000 <= segment.least_significant
            < 0xB000_0000_0000_0000,
        segment.names_bulk() <==> 0xB000_0000_0000_0000 <= segment.least_significant
            < 0xC000_0000_0000_0000,
{
}

} // verus!
