//! The external binaries that walked content references, counted once each.
use std::collections::hash_map::DefaultHasher;
use std::collections::HashSet;
use std::hash::Hasher;
use vstd::bytes::*;
use vstd::prelude::*;
use vstd::slice::*;
use vstd::std_specs::hash::*;
use vstd::string::*;
use crate::content::{BinaryValue, PropertyState, PropertyValue};
use crate::number;
use crate::number::{parse_hex_digit, parse_plus_unsigned};
use crate::plan::ExternalBinaryFootprint;

verus! {

/// Whether the bytes open with thirty-two hexadecimal digits.
pub open spec fn opens_with_hash(bytes: Seq<u8>) -> bool {
    &&& bytes.len() >= 32
    &&& forall|i: int| 0 <= i < 32 ==> number::hex_value(#[trigger] bytes[i]) is Some
}

/// The number that the first hexadecimal digits spell.
pub open spec fn leading_hex(bytes: Seq<u8>, count: nat) -> nat
    decreases count,
{
    if count == 0 {
        0
    } else {
        (leading_hex(bytes, (count - 1) as nat) * 16 + number::hex_value(
            bytes[count - 1],
        )->0) as nat
    }
}

/// A key by two fixed-key hashes, the second of which starts with the length.
pub open spec fn hashed_key(bytes: Seq<u8>) -> int {
    let first = DefaultHasher::spec_finish(seq![bytes, seq![255u8]]);
    let second = DefaultHasher::spec_finish(
        seq![spec_u64_to_le_bytes(bytes.len() as u64), bytes, seq![255u8]],
    );
    first * 0x1_0000_0000_0000_0000 + second
}

/// The key by which a blob identifier is told apart.
pub open spec fn key_of(bytes: Seq<u8>) -> u128 {
    if opens_with_hash(bytes) {
        leading_hex(bytes, 32) as u128
    } else {
        hashed_key(bytes) as u128
    }
}

spec fn hex_bound(count: nat) -> nat
    decreases count,
{
    if count == 0 {
        1
    } else {
        hex_bound((count - 1) as nat) * 16
    }
}

proof fn lemma_hex_bound(count: nat)
    requires
        count <= 32,
    ensures
        hex_bound(count) <= 0x1_0000_0000_0000_0000_0000_0000_0000_0000,
        count < 32 ==> hex_bound(count) * 16 <= 0x1_0000_0000_0000_0000_0000_0000_0000_0000,
    decreases 32 - count,
{
    if count == 32 {
        reveal_with_fuel(hex_bound, 33);
        assert(hex_bound(32) == 0x1_0000_0000_0000_0000_0000_0000_0000_0000);
    } else {
        lemma_hex_bound(count + 1);
    }
}

/// A 128-bit distinctness key for one blob identifier.
///
/// An identifier that opens with the binary's content hash in hexadecimal has
/// a ready-made exact key in its first thirty-two digits. Any other shape is
/// keyed by hashing the identifier twice, one pass seeded with the length so
/// the two halves disagree: distinctness by hash rather than by value.
pub fn distinctness_key(blob_identifier: &str) -> (key: u128)
    ensures
        key == key_of(blob_identifier.spec_bytes()),
{
    let bytes = blob_identifier.as_bytes();
    if bytes.len() >= 32 {
        let mut value: u128 = 0;
        let mut index: usize = 0;
        let mut hexadecimal = true;
        while index < 32 && hexadecimal
            invariant
                index <= 32 <= bytes@.len(),
                hexadecimal ==> value == leading_hex(bytes@, index as nat) && value < hex_bound(
                    index as nat,
                ) && forall|i: int|
                    0 <= i < index ==> number::hex_value(#[trigger] bytes@[i]) is Some,
                !hexadecimal ==> !opens_with_hash(bytes@),
            decreases 32 - index,
        {
            proof {
                lemma_hex_bound(index as nat);
                lemma_hex_bound((index + 1) as nat);
            }
            match parse_hex_digit(bytes[index]) {
                Some(digit) => {
                    value = value * 16 + digit as u128;
                },
                None => {
                    assert(number::hex_value(bytes@[index as int]) is None);
                    hexadecimal = false;
                },
            }
            index = index + 1;
        }
        if hexadecimal {
            return value;
        }
    }
    let separator: [u8; 1] = [255];
    let mut first_half = DefaultHasher::new();
    first_half.write(bytes);
    first_half.write(separator.as_slice());
    let mut second_half = DefaultHasher::new();
    let length = u64_to_le_bytes(bytes.len() as u64);
    second_half.write(length.as_slice());
    second_half.write(bytes);
    second_half.write(separator.as_slice());
    proof {
        assert(separator@ =~= seq![255u8]);
        assert(first_half@ =~= seq![bytes@, seq![255u8]]);
        assert(second_half@ =~= seq![
            spec_u64_to_le_bytes(bytes@.len() as u64),
            bytes@,
            seq![255u8],
        ]);
    }
    first_half.finish() as u128 * 0x1_0000_0000_0000_0000 + second_half.finish() as u128
}

/// What follows the last number sign.
pub open spec fn after_last_hash(bytes: Seq<u8>) -> Option<Seq<u8>>
    decreases bytes.len(),
{
    if bytes.len() == 0 {
        None
    } else if bytes.last() == 35 {
        Some(Seq::empty())
    } else {
        match after_last_hash(bytes.drop_last()) {
            Some(rest) => Some(rest.push(bytes.last())),
            None => None,
        }
    }
}

/// The byte length that a blob identifier carries after its final number sign.
pub open spec fn carried_length(bytes: Seq<u8>) -> Option<u64> {
    match after_last_hash(bytes) {
        Some(suffix) => number::plus_unsigned_value(suffix),
        None => None,
    }
}

proof fn lemma_after_last_hash(bytes: Seq<u8>, position: int)
    requires
        0 <= position < bytes.len(),
        bytes[position] == 35,
        forall|i: int| position < i < bytes.len() ==> bytes[i] != 35,
    ensures
        after_last_hash(bytes) == Some(bytes.skip(position + 1)),
    decreases bytes.len(),
{
    if position == bytes.len() - 1 {
        assert(bytes.skip(position + 1) =~= Seq::empty());
    } else {
        lemma_after_last_hash(bytes.drop_last(), position);
        assert(bytes.drop_last().skip(position + 1).push(bytes.last()) =~= bytes.skip(
            position + 1,
        ));
    }
}

proof fn lemma_no_hash(bytes: Seq<u8>)
    requires
        forall|i: int| 0 <= i < bytes.len() ==> bytes[i] != 35,
    ensures
        after_last_hash(bytes) is None,
    decreases bytes.len(),
{
    if bytes.len() > 0 {
        lemma_no_hash(bytes.drop_last());
    }
}

/// The byte length a blob identifier carries after its final `#`, when it
/// carries one: the only size information a segment store has about an
/// external binary.
pub fn parse_length_suffix(blob_identifier: &str) -> (length: Option<u64>)
    ensures
        length == carried_length(blob_identifier.spec_bytes()),
{
    let bytes = blob_identifier.as_bytes();
    let mut end: usize = bytes.len();
    while end > 0
        invariant
            end <= bytes@.len(),
            bytes@ == blob_identifier.spec_bytes(),
            forall|i: int| end <= i < bytes@.len() ==> bytes@[i] != 35,
        decreases end,
    {
        if bytes[end - 1] == 35 {
            proof {
                lemma_after_last_hash(bytes@, end - 1);
                assert(bytes@.subrange(end as int, bytes@.len() as int) =~= bytes@.skip(
                    end as int,
                ));
            }
            return parse_plus_unsigned(slice_subrange(bytes, end, bytes.len()));
        }
        end = end - 1;
    }
    proof {
        lemma_no_hash(bytes@);
    }
    None
}

/// What a census counted.
pub struct CensusView {
    /// The keys of the distinct binaries.
    pub distinct: Set<u128>,
    /// Bytes of those whose identifier carries a length.
    pub measured_bytes: u64,
    /// How many identifiers carry none.
    pub unmeasured_references: u64,
}

impl CensusView {
    /// The census after one blob identifier with this key.
    pub open spec fn counting(self, key: u128, length: Option<u64>) -> Self {
        if self.distinct.contains(key) {
            self
        } else {
            match length {
                Some(bytes) => CensusView {
                    distinct: self.distinct.insert(key),
                    measured_bytes: if self.measured_bytes + bytes > u64::MAX {
                        u64::MAX
                    } else {
                        (self.measured_bytes + bytes) as u64
                    },
                    ..self
                },
                None => CensusView {
                    distinct: self.distinct.insert(key),
                    unmeasured_references: (self.unmeasured_references + 1) as u64,
                    ..self
                },
            }
        }
    }

    /// The census after one value.
    pub open spec fn observing(self, value: PropertyValue) -> Self {
        match value {
            PropertyValue::Binary(BinaryValue::External { blob_identifier }) => self.counting(
                key_of(vstd::utf8::encode_utf8(blob_identifier@)),
                carried_length(vstd::utf8::encode_utf8(blob_identifier@)),
            ),
            _ => self,
        }
    }

    /// The census after some values.
    pub open spec fn observing_all(self, values: Seq<PropertyValue>) -> Self
        decreases values.len(),
    {
        if values.len() == 0 {
            self
        } else {
            self.observing_all(values.drop_last()).observing(values.last())
        }
    }

    /// The census after the values of some properties.
    pub open spec fn observing_properties(self, properties: Seq<PropertyState>) -> Self
        decreases properties.len(),
    {
        if properties.len() == 0 {
            self
        } else {
            self.observing_properties(properties.drop_last()).observing_all(
                properties.last().all(),
            )
        }
    }
}

/// The external binaries the walked content references, deduplicated by blob
/// identifier.
///
/// Deduplication is what makes the figure mean anything: version storage
/// references the same binary from every version of its versionable, and a sum
/// over references would multiply each blob by its version count.
#[derive(Debug)]
pub struct ExternalBinaryCensus {
    distinct: HashSet<u128>,
    measured_bytes: u64,
    unmeasured_references: u64,
}

impl View for ExternalBinaryCensus {
    type V = CensusView;

    closed spec fn view(&self) -> CensusView {
        CensusView {
            distinct: self.distinct@,
            measured_bytes: self.measured_bytes,
            unmeasured_references: self.unmeasured_references,
        }
    }
}

impl Default for ExternalBinaryCensus {
    fn default() -> (census: Self)
        ensures
            census.well_formed(),
            census@ == (CensusView {
                distinct: Set::empty(),
                measured_bytes: 0,
                unmeasured_references: 0,
            }),
    {
        broadcast use group_hash_axioms;

        ExternalBinaryCensus {
            distinct: HashSet::new(),
            measured_bytes: 0,
            unmeasured_references: 0,
        }
    }
}

impl ExternalBinaryCensus {
    /// No more binaries lack a length than there are binaries.
    pub closed spec fn well_formed(&self) -> bool {
        &&& self.distinct@.finite()
        &&& self.unmeasured_references <= self.distinct@.len() <= u64::MAX
    }

    /// Counts one property value when it is an external binary reference.
    pub fn observe_value(&mut self, value: &PropertyValue)
        requires
            old(self).well_formed(),
        ensures
            final(self).well_formed(),
            final(self)@ == old(self)@.observing(*value),
    {
        broadcast use group_hash_axioms;

        match value {
            PropertyValue::Binary(BinaryValue::External { blob_identifier }) => {
                let key = distinctness_key(blob_identifier.as_str());
                let ghost before = self.distinct@;
                if !self.distinct.insert(key) {
                    assert(self.distinct@ =~= before);
                    return;
                }
                let count: usize = self.distinct.len();
                assert(self.distinct@.len() == before.len() + 1);
                assert(self.distinct@.len() == count);
                match parse_length_suffix(blob_identifier.as_str()) {
                    Some(length) => {
                        self.measured_bytes = self.measured_bytes.saturating_add(length);
                    },
                    None => {
                        self.unmeasured_references = self.unmeasured_references + 1;
                    },
                }
            },
            _ => {},
        }
    }

    /// Counts every value of a property.
    pub fn observe_property(&mut self, property: &PropertyState)
        requires
            old(self).well_formed(),
        ensures
            final(self).well_formed(),
            final(self)@ == old(self)@.observing_all(property.all()),
    {
        let ghost before = self@;
        let ghost all = property.all();
        let mut position: usize = 0;
        assert(all.take(0) =~= Seq::empty());
        while position < property.value_count()
            invariant
                all == property.all(),
                position <= all.len(),
                self.well_formed(),
                self@ == before.observing_all(all.take(position as int)),
            decreases all.len() - position,
        {
            assert(all.take(position as int + 1).drop_last() =~= all.take(position as int));
            self.observe_value(property.value_at(position));
            position = position + 1;
        }
        assert(all.take(position as int) =~= all);
    }

    /// Counts every value of every property.
    pub fn observe_properties(&mut self, properties: &Vec<PropertyState>)
        requires
            old(self).well_formed(),
        ensures
            final(self).well_formed(),
            final(self)@ == old(self)@.observing_properties(properties@),
    {
        let ghost before = self@;
        let mut index: usize = 0;
        assert(properties@.take(0) =~= Seq::empty());
        while index < properties.len()
            invariant
                index <= properties@.len(),
                self.well_formed(),
                self@ == before.observing_properties(properties@.take(index as int)),
            decreases properties@.len() - index,
        {
            assert(properties@.take(index as int + 1).drop_last() =~= properties@.take(
                index as int,
            ));
            self.observe_property(&properties[index]);
            index = index + 1;
        }
        assert(properties@.take(index as int) =~= properties@);
    }

    /// The census as the figures a plan carries.
    pub fn footprint(&self) -> (footprint: ExternalBinaryFootprint)
        requires
            self.well_formed(),
        ensures
            footprint.distinct_references == self@.distinct.len(),
            footprint.measured_bytes == self@.measured_bytes,
            footprint.unmeasured_references == self@.unmeasured_references,
    {
        broadcast use group_hash_axioms;

        ExternalBinaryFootprint {
            distinct_references: self.distinct.len() as u64,
            measured_bytes: self.measured_bytes,
            unmeasured_references: self.unmeasured_references,
        }
    }
}

/// A binary referenced twice counts once: observing a value again changes
/// nothing.
pub proof fn law_repeated_reference_counts_once(census: CensusView, value: PropertyValue)
    ensures
        census.observing(value).observing(value) == census.observing(value),
{
}

} // verus!
