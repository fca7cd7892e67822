//! Numbers read from bytes.
use vstd::prelude::*;
use vstd::slice::*;

verus! {

/// Whether a byte is an ASCII decimal digit.
pub open spec fn is_digit(byte: u8) -> bool {
    48 <= byte <= 57
}

/// Whether every byte is an ASCII decimal digit.
pub open spec fn all_digits(bytes: Seq<u8>) -> bool {
    forall|i: int| 0 <= i < bytes.len() ==> is_digit(#[trigger] bytes[i])
}

/// The number that a sequence of decimal digits spells.
pub open spec fn digits_value(bytes: Seq<u8>) -> nat
    decreases bytes.len(),
{
    if bytes.len() == 0 {
        0
    } else {
        (digits_value(bytes.drop_last()) * 10 + (bytes.last() - 48)) as nat
    }
}

/// The unsigned number that the bytes spell: one or more digits, at most
/// `u64::MAX`.
pub open spec fn unsigned_value(bytes: Seq<u8>) -> Option<u64> {
    if bytes.len() > 0 && all_digits(bytes) && digits_value(bytes) <= u64::MAX {
        Some(digits_value(bytes) as u64)
    } else {
        None
    }
}

/// The unsigned number that the bytes spell, an optional plus sign before it.
pub open spec fn plus_unsigned_value(bytes: Seq<u8>) -> Option<u64> {
    if bytes.len() > 0 && bytes[0] == 43 {
        unsigned_value(bytes.skip(1))
    } else {
        unsigned_value(bytes)
    }
}

/// The signed number that the bytes spell: an optional sign and one or more
/// digits, within the range of `i64`.
pub open spec fn signed_value(bytes: Seq<u8>) -> Option<i64> {
    if bytes.len() > 0 && bytes[0] == 45 {
        match unsigned_value(bytes.skip(1)) {
            Some(magnitude) => if magnitude <= 0x8000_0000_0000_0000u64 {
                Some((-magnitude) as i64)
            } else {
                None
            },
            None => None,
        }
    } else {
        match plus_unsigned_value(bytes) {
            Some(magnitude) => if magnitude <= 0x7fff_ffff_ffff_ffffu64 {
                Some(magnitude as i64)
            } else {
                None
            },
            None => None,
        }
    }
}

/// A longer run of digits never spells a smaller number.
proof fn lemma_digits_value_grows(bytes: Seq<u8>, count: int)
    requires
        0 <= count <= bytes.len(),
        all_digits(bytes),
    ensures
        digits_value(bytes.take(count)) <= digits_value(bytes),
    decreases bytes.len(),
{
    if count == bytes.len() {
        assert(bytes.take(count) =~= bytes);
    } else {
        assert(is_digit(bytes.last()));
        assert forall|i: int| 0 <= i < bytes.drop_last().len() implies is_digit(
            #[trigger] bytes.drop_last()[i],
        ) by {
            assert(is_digit(bytes[i]));
        }
        lemma_digits_value_grows(bytes.drop_last(), count);
        assert(bytes.drop_last().take(count) =~= bytes.take(count));
    }
}

/// Reads an unsigned number.
pub fn parse_unsigned(bytes: &[u8]) -> (parsed: Option<u64>)
    ensures
        parsed == unsigned_value(bytes@),
{
    if bytes.len() == 0 {
        return None;
    }
    let mut digits: usize = 0;
    while digits < bytes.len()
        invariant
            digits <= bytes@.len(),
            forall|i: int| 0 <= i < digits ==> is_digit(#[trigger] bytes@[i]),
        decreases bytes@.len() - digits,
    {
        if bytes[digits] < 48 || bytes[digits] > 57 {
            assert(!is_digit(bytes@[digits as int]));
            return None;
        }
        digits = digits + 1;
    }
    assert(all_digits(bytes@));
    let mut value: u64 = 0;
    let mut index: usize = 0;
    assert(bytes@.take(0) =~= Seq::empty());
    while index < bytes.len()
        invariant
            index <= bytes@.len(),
            all_digits(bytes@),
            value == digits_value(bytes@.take(index as int)),
        decreases bytes@.len() - index,
    {
        assert(is_digit(bytes@[index as int]));
        let digit = (bytes[index] - 48) as u64;
        proof {
            let longer = bytes@.take(index as int + 1);
            assert(longer.drop_last() =~= bytes@.take(index as int));
            assert(longer.last() == bytes@[index as int]);
            assert(digits_value(longer) == value * 10 + digit);
            lemma_digits_value_grows(bytes@, index as int + 1);
        }
        if value > (u64::MAX - digit) / 10 {
            return None;
        }
        value = value * 10 + digit;
        index = index + 1;
    }
    assert(bytes@.take(bytes@.len() as int) =~= bytes@);
    Some(value)
}

/// Reads an unsigned number with an optional plus sign.
pub fn parse_plus_unsigned(bytes: &[u8]) -> (parsed: Option<u64>)
    ensures
        parsed == plus_unsigned_value(bytes@),
{
    if bytes.len() > 0 && bytes[0] == 43 {
        assert(bytes@.subrange(1, bytes@.len() as int) =~= bytes@.skip(1));
        parse_unsigned(slice_subrange(bytes, 1, bytes.len()))
    } else {
        parse_unsigned(bytes)
    }
}

/// Reads a signed number.
pub fn parse_signed(bytes: &[u8]) -> (parsed: Option<i64>)
    ensures
        parsed == signed_value(bytes@),
{
    if bytes.len() > 0 && bytes[0] == 45 {
        assert(bytes@.subrange(1, bytes@.len() as int) =~= bytes@.skip(1));
        match parse_unsigned(slice_subrange(bytes, 1, bytes.len())) {
            Some(magnitude) => {
                if magnitude > 0x8000_0000_0000_0000 {
                    None
                } else if magnitude == 0x8000_0000_0000_0000 {
                    Some(i64::MIN)
                } else {
                    Some(-(magnitude as i64))
                }
            },
            None => None,
        }
    } else {
        match parse_plus_unsigned(bytes) {
            Some(magnitude) => {
                if magnitude > 0x7fff_ffff_ffff_ffff {
                    None
                } else {
                    Some(magnitude as i64)
                }
            },
            None => None,
        }
    }
}

/// The value of a hexadecimal digit, of either case.
pub open spec fn hex_value(byte: u8) -> Option<int> {
    if 48 <= byte <= 57 {
        Some(byte - 48)
    } else if 97 <= byte <= 102 {
        Some(byte - 87)
    } else if 65 <= byte <= 70 {
        Some(byte - 55)
    } else {
        None
    }
}

/// Reads one hexadecimal digit.
pub fn parse_hex_digit(byte: u8) -> (digit: Option<u8>)
    ensures
        match digit {
            Some(value) => value < 16 && hex_value(byte) == Some(value as int),
            None => hex_value(byte) is None,
        },
{
    if 48 <= byte && byte <= 57 {
        Some(byte - 48)
    } else if 97 <= byte && byte <= 102 {
        Some(byte - 87)
    } else if 65 <= byte && byte <= 70 {
        Some(byte - 55)
    } else {
        None
    }
}

/// Where a dashed identifier has its dashes.
pub open spec fn is_dash_position(position: int) -> bool {
    position == 8 || position == 13 || position == 18 || position == 23
}

/// Thirty-six bytes: hexadecimal digits in groups of eight, four, four, four
/// and twelve, with dashes between the groups.
pub open spec fn is_dashed_identifier(bytes: Seq<u8>) -> bool {
    &&& bytes.len() == 36
    &&& forall|i: int|
        0 <= i < 36 ==> if is_dash_position(i) {
            #[trigger] bytes[i] == 45
        } else {
            hex_value(bytes[i]) is Some
        }
}

/// The number that the hexadecimal digits among the first `count` bytes spell.
pub open spec fn dashed_value(bytes: Seq<u8>, count: nat) -> nat
    decreases count,
{
    if count == 0 {
        0
    } else if is_dash_position(count - 1) {
        dashed_value(bytes, (count - 1) as nat)
    } else {
        (dashed_value(bytes, (count - 1) as nat) * 16 + hex_value(
            bytes[count - 1],
        )->0) as nat
    }
}

/// The 128 bits that a dashed identifier spells.
pub open spec fn identifier_value(bytes: Seq<u8>) -> Option<u128> {
    if is_dashed_identifier(bytes) {
        Some(dashed_value(bytes, 36) as u128)
    } else {
        None
    }
}

/// The first value out of reach of the digits among `count` bytes.
spec fn dashed_bound(count: nat) -> nat
    decreases count,
{
    if count == 0 {
        1
    } else if is_dash_position(count - 1) {
        dashed_bound((count - 1) as nat)
    } else {
        dashed_bound((count - 1) as nat) * 16
    }
}

proof fn lemma_dashed_bound_limit(count: nat)
    requires
        count <= 36,
    ensures
        1 <= dashed_bound(count) <= 0x1_0000_0000_0000_0000_0000_0000_0000_0000,
        count < 36 ==> dashed_bound(count) * 16 <= 0x1_0000_0000_0000_0000_0000_0000_0000_0000,
    decreases 36 - count,
{
    if count == 36 {
        reveal_with_fuel(dashed_bound, 37);
        assert(dashed_bound(36) == 0x1_0000_0000_0000_0000_0000_0000_0000_0000);
    } else {
        lemma_dashed_bound_limit(count + 1);
    }
}

/// Reads a dashed identifier.
pub fn parse_dashed_identifier(bytes: &[u8]) -> (parsed: Option<u128>)
    ensures
        parsed == identifier_value(bytes@),
        is_dashed_identifier(bytes@) ==> dashed_value(bytes@, 36) <= u128::MAX,
{
    if bytes.len() != 36 {
        return None;
    }
    let mut value: u128 = 0;
    let mut position: usize = 0;
    while position < 36
        invariant
            bytes@.len() == 36,
            position <= 36,
            value == dashed_value(bytes@, position as nat),
            value < dashed_bound(position as nat),
            forall|i: int|
                0 <= i < position ==> if is_dash_position(i) {
                    #[trigger] bytes@[i] == 45
                } else {
                    hex_value(bytes@[i]) is Some
                },
        decreases 36 - position,
    {
        proof {
            lemma_dashed_bound_limit(position as nat);
            lemma_dashed_bound_limit((position + 1) as nat);
        }
        let byte = bytes[position];
        if position == 8 || position == 13 || position == 18 || position == 23 {
            if byte != 45 {
                return None;
            }
        } else {
            match parse_hex_digit(byte) {
                Some(digit) => {
                    value = value * 16 + digit as u128;
                },
                None => {
                    return None;
                },
            }
        }
        position = position + 1;
    }
    Some(value)
}

} // verus!
