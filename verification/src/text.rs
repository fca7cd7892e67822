//! Text an operator reads: numbers rendered digit by digit, joined lists, and
//! the byte order in which names are sorted.
use vstd::prelude::*;

verus! {

/// The character of one digit, lower case above nine.
pub open spec fn digit_char(digit: int) -> char {
    if digit == 0 { '0' }
    else if digit == 1 { '1' }
    else if digit == 2 { '2' }
    else if digit == 3 { '3' }
    else if digit == 4 { '4' }
    else if digit == 5 { '5' }
    else if digit == 6 { '6' }
    else if digit == 7 { '7' }
    else if digit == 8 { '8' }
    else if digit == 9 { '9' }
    else if digit == 10 { 'a' }
    else if digit == 11 { 'b' }
    else if digit == 12 { 'c' }
    else if digit == 13 { 'd' }
    else if digit == 14 { 'e' }
    else { 'f' }
}

/// A number in decimal, without leading zeros.
pub open spec fn decimal(value: nat) -> Seq<char>
    decreases value,
{
    if value < 10 {
        seq![digit_char(value as int)]
    } else {
        decimal(value / 10).push(digit_char((value % 10) as int))
    }
}

/// A signed number in decimal.
pub open spec fn signed_decimal(value: int) -> Seq<char> {
    if value < 0 {
        seq!['-'] + decimal((-value) as nat)
    } else {
        decimal(value as nat)
    }
}

/// The low `width` digits of a number in the given radix, zero padded.
pub open spec fn fixed_digits(value: nat, radix: nat, width: nat) -> Seq<char>
    decreases width,
{
    if width == 0 {
        Seq::empty()
    } else {
        fixed_digits(value / radix, radix, (width - 1) as nat).push(
            digit_char((value % radix) as int),
        )
    }
}

/// The parts one after the other, with the separator between neighbours.
pub open spec fn joined(parts: Seq<Seq<char>>, separator: Seq<char>) -> Seq<char>
    decreases parts.len(),
{
    if parts.len() == 0 {
        Seq::empty()
    } else if parts.len() == 1 {
        parts[0]
    } else {
        joined(parts.drop_last(), separator) + separator + parts.last()
    }
}

/// What a list of strings holds.
pub open spec fn texts(strings: Seq<String>) -> Seq<Seq<char>> {
    strings.map_values(|string: String| string@)
}

/// `true` or `false`, spelled out.
pub open spec fn truth_text(value: bool) -> Seq<char> {
    if value { "true"@ } else { "false"@ }
}

pub fn push_digit(text: &mut String, digit: u8)
    requires
        digit < 16,
    ensures
        final(text)@ == old(text)@.push(digit_char(digit as int)),
{
    let ghost before = text@;
    proof {
        reveal_strlit("0"); reveal_strlit("1"); reveal_strlit("2"); reveal_strlit("3");
        reveal_strlit("4"); reveal_strlit("5"); reveal_strlit("6"); reveal_strlit("7");
        reveal_strlit("8"); reveal_strlit("9"); reveal_strlit("a"); reveal_strlit("b");
        reveal_strlit("c"); reveal_strlit("d"); reveal_strlit("e"); reveal_strlit("f");
    }
    let character = match digit {
        0 => "0",
        1 => "1",
        2 => "2",
        3 => "3",
        4 => "4",
        5 => "5",
        6 => "6",
        7 => "7",
        8 => "8",
        9 => "9",
        10 => "a",
        11 => "b",
        12 => "c",
        13 => "d",
        14 => "e",
        _ => "f",
    };
    assert(character@ =~= seq![digit_char(digit as int)]);
    text.append(character);
    assert(text@ =~= before.push(digit_char(digit as int)));
}

/// Appends a number in decimal.
pub fn push_decimal(text: &mut String, value: u64)
    ensures
        final(text)@ == old(text)@ + decimal(value as nat),
    decreases value,
{
    let ghost before = text@;
    if value >= 10 {
        push_decimal(text, value / 10);
        push_digit(text, (value % 10) as u8);
        assert(text@ =~= before + decimal(value as nat));
    } else {
        push_digit(text, value as u8);
        assert(text@ =~= before + decimal(value as nat));
    }
}

/// Appends a signed number in decimal.
pub fn push_signed_decimal(text: &mut String, value: i64)
    requires
        value > i64::MIN,
    ensures
        final(text)@ == old(text)@ + signed_decimal(value as int),
{
    if value < 0 {
        proof {
            reveal_strlit("-");
            assert("-"@ =~= seq!['-']);
        }
        let ghost before = text@;
        text.append("-");
        push_decimal(text, (-value) as u64);
        assert(text@ =~= before + signed_decimal(value as int));
    } else {
        push_decimal(text, value as u64);
    }
}

/// Appends the low digits of a number, zero padded to the width.
pub fn push_fixed_digits(text: &mut String, value: u64, radix: u64, width: usize)
    requires
        2 <= radix <= 16,
    ensures
        final(text)@ == old(text)@ + fixed_digits(value as nat, radix as nat, width as nat),
    decreases width,
{
    let ghost before = text@;
    if width > 0 {
        push_fixed_digits(text, value / radix, radix, width - 1);
        let digit = (value % radix) as u8;
        push_digit(text, digit);
    }
    assert(text@ =~= before + fixed_digits(value as nat, radix as nat, width as nat));
}

/// Appends `true` or `false`.
pub fn push_truth(text: &mut String, value: bool)
    ensures
        final(text)@ == old(text)@ + truth_text(value),
{
    if value {
        text.append("true");
    } else {
        text.append("false");
    }
}

/// Joins the first `count` strings with a separator between neighbours.
pub fn join_first(strings: &Vec<String>, count: usize, separator: &str) -> (joined_text: String)
    requires
        count <= strings@.len(),
    ensures
        joined_text@ == joined(texts(strings@.take(count as int)), separator@),
{
    let mut result = String::new();
    let mut index: usize = 0;
    assert(texts(strings@.take(0)) =~= Seq::empty());
    while index < count
        invariant
            index <= count <= strings@.len(),
            result@ == joined(texts(strings@.take(index as int)), separator@),
        decreases count - index,
    {
        let ghost before = result@;
        if index > 0 {
            result.append(separator);
        }
        result.append(strings[index].as_str());
        proof {
            let longer = texts(strings@.take(index as int + 1));
            assert(longer.drop_last() =~= texts(strings@.take(index as int)));
            assert(longer.last() == strings@[index as int]@);
            if index == 0 {
                assert(result@ =~= longer[0]);
            } else {
                assert(result@ =~= before + separator@ + longer.last());
            }
        }
        index = index + 1;
    }
    result
}

/// Joins all strings with a separator between neighbours.
pub fn join(strings: &Vec<String>, separator: &str) -> (joined_text: String)
    ensures
        joined_text@ == joined(texts(strings@), separator@),
{
    assert(strings@.take(strings@.len() as int) =~= strings@);
    join_first(strings, strings.len(), separator)
}

/// Whether two texts hold the same characters.
pub fn text_eq(left: &str, right: &str) -> (equal: bool)
    ensures
        equal == (left@ == right@),
{
    left.to_owned() == right.to_owned()
}

} // verus!
