//! Which external binaries count, how often, and by what length.
use vstd::prelude::*;
use vstd::string::*;
use vstd::utf8::*;
use crate::content::{BinaryValue, PropertyState, PropertyValue};
use crate::number;
use crate::planning::external_binaries;
use crate::planning::external_binaries::CensusView;

verus! {

proof fn lemma_after_hash(bytes: Seq<u8>, position: int)
    requires
        0 <= position < bytes.len(),
        bytes[position] == 35,
        forall|i: int| position < i < bytes.len() ==> bytes[i] != 35,
    ensures
        external_binaries::after_last_hash(bytes) == Some(bytes.skip(position + 1)),
    decreases bytes.len(),
{
    if position < bytes.len() - 1 {
        assert(bytes.last() != 35);
        lemma_after_hash(bytes.drop_last(), position);
        assert(bytes.drop_last().skip(position + 1).push(bytes.last()) =~= bytes.skip(
            position + 1,
        ));
    } else {
        assert(bytes.skip(position + 1) =~= Seq::empty());
    }
}

proof fn lemma_without_hash(bytes: Seq<u8>)
    requires
        forall|i: int| 0 <= i < bytes.len() ==> bytes[i] != 35,
    ensures
        external_binaries::after_last_hash(bytes) is None,
    decreases bytes.len(),
{
    if bytes.len() > 0 {
        assert(bytes.last() != 35);
        lemma_without_hash(bytes.drop_last());
    }
}

/// A blob identifier carries a length exactly if what follows its last number sign is
/// a number; an earlier number sign decides nothing.
pub proof fn law_the_length_follows_the_last_number_sign(prefix: Seq<u8>, suffix: Seq<u8>)
    requires
        forall|i: int| 0 <= i < suffix.len() ==> suffix[i] != 35,
    ensures
        external_binaries::carried_length(prefix + seq![35u8] + suffix)
            == number::plus_unsigned_value(suffix),
        external_binaries::carried_length(suffix) is None,
{
    let bytes = prefix + seq![35u8] + suffix;
    let position = prefix.len() as int;
    assert forall|i: int| position < i < bytes.len() implies bytes[i] != 35 by {
        assert(bytes[i] == suffix[i - position - 1]);
    }
    lemma_after_hash(bytes, position);
    assert(bytes.skip(position + 1) =~= suffix);
    lemma_without_hash(suffix);
}

proof fn lemma_leading(left: Seq<u8>, right: Seq<u8>, count: nat)
    requires
        count <= 32,
        left.len() >= 32,
        right.len() >= 32,
        forall|i: int|
            0 <= i < 32 ==> number::hex_value(#[trigger] left[i]) is Some && number::hex_value(
                right[i],
            ) is Some,
    ensures
        external_binaries::leading_hex(left, count) == external_binaries::leading_hex(right, count)
            <==> (forall|i: int|
            0 <= i < count ==> number::hex_value(#[trigger] left[i]) == number::hex_value(
                right[i],
            )),
    decreases count,
{
    if count > 0 {
        let shorter = (count - 1) as nat;
        lemma_leading(left, right, shorter);
        assert(number::hex_value(left[count - 1]) is Some && number::hex_value(right[count - 1])
            is Some);
        assert(0 <= number::hex_value(left[count - 1])->0 < 16);
        assert(0 <= number::hex_value(right[count - 1])->0 < 16);
        if forall|i: int|
            0 <= i < count ==> number::hex_value(#[trigger] left[i]) == number::hex_value(
                right[i],
            ) {
            assert(number::hex_value(left[count - 1]) == number::hex_value(right[count - 1]));
        }
        if external_binaries::leading_hex(left, count) == external_binaries::leading_hex(
            right,
            count,
        ) {
            assert forall|i: int| 0 <= i < count implies number::hex_value(#[trigger] left[i])
                == number::hex_value(right[i]) by {}
        }
    }
}

proof fn lemma_leading_fits(bytes: Seq<u8>, count: nat)
    requires
        count <= 32,
        bytes.len() >= 32,
        forall|i: int| 0 <= i < 32 ==> number::hex_value(#[trigger] bytes[i]) is Some,
    ensures
        external_binaries::leading_hex(bytes, count) < bound(count),
        bound(count) <= 0x1_0000_0000_0000_0000_0000_0000_0000_0000,
    decreases count,
{
    lemma_bound(count);
    if count > 0 {
        lemma_leading_fits(bytes, (count - 1) as nat);
        assert(number::hex_value(bytes[count - 1]) is Some);
        assert(0 <= number::hex_value(bytes[count - 1])->0 < 16);
    }
}

spec fn bound(count: nat) -> nat
    decreases count,
{
    if count == 0 {
        1
    } else {
        16 * bound((count - 1) as nat)
    }
}

proof fn lemma_bound(count: nat)
    requires
        count <= 32,
    ensures
        bound(count) <= 0x1_0000_0000_0000_0000_0000_0000_0000_0000,
{
    reveal_with_fuel(bound, 33);
    lemma_bound_grows(count, 32);
}

proof fn lemma_bound_grows(low: nat, high: nat)
    requires
        low <= high,
    ensures
        bound(low) <= bound(high),
    decreases high - low,
{
    if low < high {
        lemma_bound_grows(low, (high - 1) as nat);
    }
}

/// Identifiers that open with thirty-two hexadecimal digits are told apart by exactly
/// these digits: whatever follows them, and the case of their letters, decides
/// nothing.
pub proof fn law_a_content_hash_tells_binaries_apart(left: Seq<u8>, right: Seq<u8>)
    requires
        left.len() >= 32,
        right.len() >= 32,
        forall|i: int|
            0 <= i < 32 ==> number::hex_value(#[trigger] left[i]) is Some && number::hex_value(
                right[i],
            ) is Some,
    ensures
        external_binaries::key_of(left) == external_binaries::key_of(right) <==> (forall|i: int|
            0 <= i < 32 ==> number::hex_value(#[trigger] left[i]) == number::hex_value(right[i])),
{
    assert forall|i: int| 0 <= i < 32 implies number::hex_value(#[trigger] right[i]) is Some by {
        assert(number::hex_value(left[i]) is Some);
    }
    lemma_leading(left, right, 32);
    lemma_leading_fits(left, 32);
    lemma_leading_fits(right, 32);
}

/// A binary that was not counted yet counts once, with its length where it carries
/// one and as unmeasured where it does not; one that was counted changes nothing; and
/// no other value counts at all.
pub proof fn law_each_external_binary_counts_once(census: CensusView, value: PropertyValue)
    requires
        census.unmeasured_references < 0xffff_ffff_ffff_ffff,
    ensures
        ({
            let after = census.observing(value);
            match value {
                PropertyValue::Binary(BinaryValue::External { blob_identifier }) => {
                    let bytes = encode_utf8(blob_identifier@);
                    let key = external_binaries::key_of(bytes);
                    let length = external_binaries::carried_length(bytes);
                    &&& after.distinct == census.distinct.insert(key)
                    &&& census.distinct.contains(key) ==> after.measured_bytes
                        == census.measured_bytes && after.unmeasured_references
                        == census.unmeasured_references
                    &&& !census.distinct.contains(key) && length is None
                        ==> after.measured_bytes == census.measured_bytes
                        && after.unmeasured_references == census.unmeasured_references + 1
                    &&& !census.distinct.contains(key) && length is Some
                        ==> after.unmeasured_references == census.unmeasured_references
                        && after.measured_bytes == (if census.measured_bytes + length->0
                        > 0xffff_ffff_ffff_ffff {
                        0xffff_ffff_ffff_ffff
                    } else {
                        census.measured_bytes + length->0
                    })
                },
                _ => after == census,
            }
        }),
{
    if let PropertyValue::Binary(BinaryValue::External { blob_identifier }) = value {
        let key = external_binaries::key_of(encode_utf8(blob_identifier@));
        if census.distinct.contains(key) {
            assert(census.distinct.insert(key) =~= census.distinct);
        }
    }
}

/// Every value of every property is observed: the counted binaries are those counted
/// before and those that any value names.
pub proof fn law_every_value_is_observed(
    census: CensusView,
    properties: Seq<PropertyState>,
    key: u128,
)
    ensures
        census.observing_properties(properties).distinct.contains(key) <==> {
            ||| census.distinct.contains(key)
            ||| exists|p: int, i: int|
                0 <= p < properties.len() && 0 <= i < properties[p].all().len()
                    && #[trigger] has_key(properties[p].all()[i], key)
        },
    decreases properties.len(),
{
    if properties.len() > 0 {
        let shorter = properties.drop_last();
        let last = properties.last();
        let end = properties.len() - 1;
        law_every_value_is_observed(census, shorter, key);
        lemma_values_observed(census.observing_properties(shorter), last.all(), key);
        if exists|p: int, i: int|
            0 <= p < shorter.len() && 0 <= i < shorter[p].all().len() && #[trigger] has_key(
                shorter[p].all()[i],
                key,
            ) {
            let (p, i) = choose|p: int, i: int|
                0 <= p < shorter.len() && 0 <= i < shorter[p].all().len() && #[trigger] has_key(
                    shorter[p].all()[i],
                    key,
                );
            assert(has_key(properties[p].all()[i], key));
        }
        if exists|i: int| 0 <= i < last.all().len() && #[trigger] has_key(last.all()[i], key) {
            let i = choose|i: int| 0 <= i < last.all().len() && #[trigger] has_key(
                last.all()[i],
                key,
            );
            assert(has_key(properties[end].all()[i], key));
        }
        if exists|p: int, i: int|
            0 <= p < properties.len() && 0 <= i < properties[p].all().len() && #[trigger] has_key(
                properties[p].all()[i],
                key,
            ) {
            let (p, i) = choose|p: int, i: int|
                0 <= p < properties.len() && 0 <= i < properties[p].all().len()
                    && #[trigger] has_key(properties[p].all()[i], key);
            if p < end {
                assert(has_key(shorter[p].all()[i], key));
            } else {
                assert(has_key(last.all()[i], key));
            }
        }
    }
}

/// Whether a value is an external binary with this key.
pub open spec fn has_key(value: PropertyValue, key: u128) -> bool {
    value matches PropertyValue::Binary(BinaryValue::External { blob_identifier })
        && external_binaries::key_of(encode_utf8(blob_identifier@)) == key
}

proof fn lemma_values_observed(census: CensusView, values: Seq<PropertyValue>, key: u128)
    ensures
        census.observing_all(values).distinct.contains(key) <==> census.distinct.contains(key)
            || exists|i: int| 0 <= i < values.len() && #[trigger] has_key(values[i], key),
    decreases values.len(),
{
    if values.len() > 0 {
        let shorter = values.drop_last();
        let end = values.len() - 1;
        lemma_values_observed(census, shorter, key);
        let middle = census.observing_all(shorter);
        assert(middle.observing(values.last()).distinct.contains(key)
            <==> middle.distinct.contains(key) || has_key(values.last(), key));
        if exists|i: int| 0 <= i < shorter.len() && #[trigger] has_key(shorter[i], key) {
            let i = choose|i: int| 0 <= i < shorter.len() && #[trigger] has_key(shorter[i], key);
            assert(has_key(values[i], key));
        }
        if exists|i: int| 0 <= i < values.len() && #[trigger] has_key(values[i], key) {
            let i = choose|i: int| 0 <= i < values.len() && #[trigger] has_key(values[i], key);
            if i < end {
                assert(has_key(shorter[i], key));
            }
        }
        if has_key(values.last(), key) {
            assert(has_key(values[end], key));
        }
    }
}

} // verus!
