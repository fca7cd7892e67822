//! How lists are joined and names are ordered.
use vstd::prelude::*;
use crate::order;
use crate::text;

verus! {

/// A joined list has its parts in order, with the separator between neighbours and
/// nowhere else.
pub proof fn law_a_separator_stands_between_neighbours(
    parts: Seq<Seq<char>>,
    more: Seq<char>,
    separator: Seq<char>,
)
    ensures
        text::joined(Seq::empty(), separator).len() == 0,
        text::joined(seq![more], separator) == more,
        parts.len() > 0 ==> text::joined(parts.push(more), separator) == text::joined(
            parts,
            separator,
        ) + separator + more,
{
    assert(parts.push(more).drop_last() =~= parts);
}

/// A number of fixed width has as many digits as asked for, the last of which is its
/// remainder by the radix, and the ones before it those of its quotient.
pub proof fn law_fixed_digits_are_remainders(value: nat, radix: nat, width: nat)
    requires
        radix > 0,
    ensures
        text::fixed_digits(value, radix, width).len() == width,
        width > 0 ==> text::fixed_digits(value, radix, width).last() == text::digit_char(
            (value % radix) as int,
        ),
        width > 0 ==> text::fixed_digits(value, radix, width).drop_last() == text::fixed_digits(
            value / radix,
            radix,
            (width - 1) as nat,
        ),
    decreases width,
{
    if width > 0 {
        law_fixed_digits_are_remainders(value / radix, radix, (width - 1) as nat);
        assert(text::fixed_digits(value, radix, width).drop_last() =~= text::fixed_digits(
            value / radix,
            radix,
            (width - 1) as nat,
        ));
    }
}

/// One byte string comes before another exactly if it has a smaller byte where they
/// first differ, or is the shorter and the other starts with it.
pub proof fn law_the_first_difference_decides(left: Seq<u8>, right: Seq<u8>)
    ensures
        order::bytes_less(left, right) <==> {
            ||| exists|i: int| #[trigger] differ_first(left, right, i) && left[i] < right[i]
            ||| left.len() < right.len() && forall|i: int|
                0 <= i < left.len() ==> left[i] == right[i]
        },
    decreases left.len(),
{
    if left.len() > 0 && right.len() > 0 {
        if left[0] != right[0] {
            assert(differ_first(left, right, 0));
            if exists|i: int| #[trigger] differ_first(left, right, i) && left[i] < right[i] {
                let i = choose|i: int| #[trigger]
                    differ_first(left, right, i) && left[i] < right[i];
                assert(i == 0);
            }
        } else {
            let shorter = left.drop_first();
            let other = right.drop_first();
            law_the_first_difference_decides(shorter, other);
            assert(forall|i: int| 0 <= i < shorter.len() ==> shorter[i] == left[i + 1]);
            assert(forall|i: int| 0 <= i < other.len() ==> other[i] == right[i + 1]);
            if exists|i: int| #[trigger] differ_first(left, right, i) && left[i] < right[i] {
                let i = choose|i: int| #[trigger]
                    differ_first(left, right, i) && left[i] < right[i];
                assert(differ_first(shorter, other, i - 1));
                assert(shorter[i - 1] < other[i - 1]);
            }
            if exists|i: int| #[trigger] differ_first(shorter, other, i) && shorter[i] < other[i] {
                let i = choose|i: int| #[trigger]
                    differ_first(shorter, other, i) && shorter[i] < other[i];
                assert forall|j: int| 0 <= j < i + 1 implies left[j] == right[j] by {
                    if j > 0 {
                        assert(shorter[j - 1] == other[j - 1]);
                    }
                }
                assert(differ_first(left, right, i + 1));
                assert(left[i + 1] < right[i + 1]);
            }
            if left.len() < right.len() && forall|i: int|
                0 <= i < left.len() ==> left[i] == right[i] {
                assert forall|i: int| 0 <= i < shorter.len() implies shorter[i] == other[i] by {
                    assert(left[i + 1] == right[i + 1]);
                }
            }
            if shorter.len() < other.len() && forall|i: int|
                0 <= i < shorter.len() ==> shorter[i] == other[i] {
                assert forall|i: int| 0 <= i < left.len() implies left[i] == right[i] by {
                    if i > 0 {
                        assert(shorter[i - 1] == other[i - 1]);
                    }
                }
            }
        }
    }
}

/// Whether two byte strings differ at a place, and nowhere before it.
pub open spec fn differ_first(left: Seq<u8>, right: Seq<u8>, place: int) -> bool {
    &&& 0 <= place < left.len()
    &&& place < right.len()
    &&& left[place] != right[place]
    &&& forall|j: int| 0 <= j < place ==> left[j] == right[j]
}

} // verus!
