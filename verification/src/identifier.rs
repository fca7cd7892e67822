//! Names of segments and records, and the generations segments are stamped
//! with.
use std::collections::HashSet;
use vstd::prelude::*;
use vstd::std_specs::hash::*;
use vstd::string::*;
use crate::text;
use crate::text::{push_decimal, push_fixed_digits, push_signed_decimal, push_truth};

verus! {

/// The name of a segment: sixteen bytes, of which the first four bits of the
/// ninth byte tell data segments from bulk segments.
#[derive(Clone, Copy, Debug, PartialEq, Eq, Structural, Hash)]
pub struct SegmentIdentifier {
    /// The first eight bytes.
    pub most_significant: u64,
    /// The last eight bytes.
    pub least_significant: u64,
}

/// Two to the power of sixty-four.
pub const HALF_RANGE: u128 = 0x1_0000_0000_0000_0000;

impl SegmentIdentifier {
    /// The identifier with these two halves.
    pub fn new(most_significant: u64, least_significant: u64) -> (identifier: Self)
        ensures
            identifier == (SegmentIdentifier { most_significant, least_significant }),
    {
        SegmentIdentifier { most_significant, least_significant }
    }

    /// Whether the segment holds node records.
    pub open spec fn names_data(self) -> bool {
        self.least_significant / 0x1000_0000_0000_0000 == 0xA
    }

    /// Whether the segment holds binary blocks.
    pub open spec fn names_bulk(self) -> bool {
        self.least_significant / 0x1000_0000_0000_0000 == 0xB
    }

    /// The identifier as one number.
    pub open spec fn number(self) -> u128 {
        (self.most_significant * 0x1_0000_0000_0000_0000 + self.least_significant) as u128
    }

    /// Eight, four, four, four and twelve hexadecimal digits.
    pub open spec fn text(self) -> Seq<char> {
        text::fixed_digits((self.most_significant / 0x1_0000_0000) as nat, 16, 8) + "-"@
            + text::fixed_digits((self.most_significant / 0x1_0000) as nat, 16, 4) + "-"@
            + text::fixed_digits(self.most_significant as nat, 16, 4) + "-"@
            + text::fixed_digits((self.least_significant / 0x1_0000_0000_0000) as nat, 16, 4)
            + "-"@ + text::fixed_digits(self.least_significant as nat, 16, 12)
    }

    /// Whether the segment holds node records.
    pub fn is_data_segment(&self) -> (data: bool)
        ensures
            data == self.names_data(),
    {
        self.least_significant / 0x1000_0000_0000_0000 == 0xA
    }

    /// Whether the segment holds binary blocks.
    pub fn is_bulk_segment(&self) -> (bulk: bool)
        ensures
            bulk == self.names_bulk(),
    {
        self.least_significant / 0x1000_0000_0000_0000 == 0xB
    }

    /// The identifier as one number.
    pub fn as_number(&self) -> (number: u128)
        ensures
            number == self.number(),
    {
        self.most_significant as u128 * HALF_RANGE + self.least_significant as u128
    }

    /// The identifier with this number.
    pub fn from_number(number: u128) -> (identifier: Self)
        ensures
            identifier.number() == number,
    {
        SegmentIdentifier {
            most_significant: (number / HALF_RANGE) as u64,
            least_significant: (number % HALF_RANGE) as u64,
        }
    }

    /// Appends the identifier as text.
    pub fn push_text(&self, text: &mut String)
        ensures
            final(text)@ == old(text)@ + self.text(),
    {
        let ghost before = text@;
        push_fixed_digits(text, self.most_significant / 0x1_0000_0000, 16, 8);
        text.append("-");
        push_fixed_digits(text, self.most_significant / 0x1_0000, 16, 4);
        text.append("-");
        push_fixed_digits(text, self.most_significant, 16, 4);
        text.append("-");
        push_fixed_digits(text, self.least_significant / 0x1_0000_0000_0000, 16, 4);
        text.append("-");
        push_fixed_digits(text, self.least_significant, 16, 12);
        assert(text@ =~= before + self.text());
    }
}

/// Different identifiers have different numbers.
pub proof fn lemma_number_injective(left: SegmentIdentifier, right: SegmentIdentifier)
    requires
        left.number() == right.number(),
    ensures
        left == right,
{
}

/// The name of one record in a segment.
#[derive(Clone, Copy, Debug, PartialEq, Eq, Structural, Hash)]
pub struct RecordIdentifier {
    /// The segment that holds the record.
    pub segment: SegmentIdentifier,
    /// The record's number in that segment.
    pub record_number: u32,
}

impl RecordIdentifier {
    /// The record with this number in this segment.
    pub fn new(segment: SegmentIdentifier, record_number: u32) -> (identifier: Self)
        ensures
            identifier == (RecordIdentifier { segment, record_number }),
    {
        RecordIdentifier { segment, record_number }
    }

    /// The segment's text, a colon and the record number in decimal.
    pub open spec fn text(self) -> Seq<char> {
        self.segment.text() + ":"@ + text::decimal(self.record_number as nat)
    }

    /// Appends the identifier as text.
    pub fn push_text(&self, text: &mut String)
        ensures
            final(text)@ == old(text)@ + self.text(),
    {
        let ghost before = text@;
        self.segment.push_text(text);
        text.append(":");
        push_decimal(text, self.record_number as u64);
        assert(text@ =~= before + self.text());
    }
}

/// Whether a list of records holds one.
pub fn holds_record(records: &Vec<RecordIdentifier>, record: RecordIdentifier) -> (found: bool)
    ensures
        found == records@.contains(record),
{
    let mut index: usize = 0;
    while index < records.len()
        invariant
            index <= records@.len(),
            forall|i: int| 0 <= i < index ==> records@[i] != record,
        decreases records@.len() - index,
    {
        if records[index] == record {
            assert(records@[index as int] == record);
            return true;
        }
        index = index + 1;
    }
    false
}

/// The generation triple a segment is stamped with.
#[derive(Clone, Copy, Debug, PartialEq, Eq, Structural)]
pub struct GarbageCollectionGeneration {
    /// Raised by every compaction.
    pub generation: i32,
    /// Raised by full compactions only.
    pub full_generation: i32,
    /// Whether a compaction wrote the segment.
    pub is_compacted: bool,
}

impl GarbageCollectionGeneration {
    /// The triple with its field names.
    pub open spec fn text(self) -> Seq<char> {
        "GarbageCollectionGeneration { generation: "@ + text::signed_decimal(
            self.generation as int,
        ) + ", full_generation: "@ + text::signed_decimal(self.full_generation as int)
            + ", is_compacted: "@ + text::truth_text(self.is_compacted) + " }"@
    }

    /// Appends the triple with its field names.
    pub fn push_text(&self, text: &mut String)
        ensures
            final(text)@ == old(text)@ + self.text(),
    {
        let ghost before = text@;
        text.append("GarbageCollectionGeneration { generation: ");
        push_signed_decimal(text, self.generation as i64);
        text.append(", full_generation: ");
        push_signed_decimal(text, self.full_generation as i64);
        text.append(", is_compacted: ");
        push_truth(text, self.is_compacted);
        text.append(" }");
        assert(text@ =~= before + self.text());
    }
}

/// How much of the tree a compaction copies.
#[derive(Clone, Copy, Debug, PartialEq, Eq, Structural)]
pub enum CompactionKind {
    /// The whole tree.
    Full,
    /// What was written since the last compaction.
    Tail,
}

/// Which archives a sweep is willing to rewrite.
#[derive(Clone, Copy, Debug, PartialEq, Eq, Structural)]
pub enum ArchiveRewritePolicy {
    /// Every archive that holds a reclaimable segment.
    EveryReclaimableArchive,
    /// Only archives that a rewrite shrinks by at least a quarter.
    OakSavingsGate,
}

/// The rule by which one run judges a segment's generation.
#[derive(Clone, Copy, Debug, PartialEq, Eq, Structural)]
pub struct ReclaimRule {
    /// The generation segments are compared with.
    pub reference: GarbageCollectionGeneration,
    /// The kind of compaction the rule belongs to.
    pub kind: CompactionKind,
    /// How many generations are kept, the reference included.
    pub retained_generations: i32,
}

/// Segments in the order in which they were added, each once.
#[derive(Debug)]
pub struct SegmentSet {
    order: Vec<SegmentIdentifier>,
    members: HashSet<u128>,
}

impl SegmentSet {
    /// The list and the index of its members agree.
    pub closed spec fn well_formed(&self) -> bool {
        &&& self.order@.no_duplicates()
        &&& forall|identifier: SegmentIdentifier|
            self.order@.contains(identifier) <==> #[trigger] self.members@.contains(
                identifier.number(),
            )
    }

    /// The segments in the order in which they were added.
    pub closed spec fn listed(&self) -> Seq<SegmentIdentifier> {
        self.order@
    }

    /// Whether the set holds a segment.
    pub open spec fn has(&self, identifier: SegmentIdentifier) -> bool {
        self.listed().contains(identifier)
    }

    /// The empty set.
    pub fn new() -> (set: Self)
        ensures
            set.well_formed(),
            set.listed() == Seq::<SegmentIdentifier>::empty(),
    {
        SegmentSet { order: Vec::new(), members: HashSet::new() }
    }

    /// No segment is listed twice.
    pub proof fn lemma_no_duplicates(&self)
        requires
            self.well_formed(),
        ensures
            self.listed().no_duplicates(),
    {
    }

    /// Whether the set holds a segment.
    pub fn contains(&self, identifier: SegmentIdentifier) -> (found: bool)
        requires
            self.well_formed(),
        ensures
            found == self.has(identifier),
    {
        broadcast use group_hash_axioms;

        self.members.contains(&identifier.as_number())
    }

    /// Adds a segment, and says whether it was new.
    pub fn insert(&mut self, identifier: SegmentIdentifier) -> (added: bool)
        requires
            old(self).well_formed(),
        ensures
            final(self).well_formed(),
            added == !old(self).has(identifier),
            final(self).listed() == if added {
                old(self).listed().push(identifier)
            } else {
                old(self).listed()
            },
    {
        broadcast use group_hash_axioms;

        if self.contains(identifier) {
            return false;
        }
        let ghost before = self.order@;
        self.members.insert(identifier.as_number());
        self.order.push(identifier);
        proof {
            let after = self.order@;
            assert forall|other: SegmentIdentifier|
                after.contains(other) <==> #[trigger] self.members@.contains(other.number()) by {
                if other.number() == identifier.number() {
                    lemma_number_injective(other, identifier);
                }
                if before.contains(other) {
                    let i = choose|i: int| 0 <= i < before.len() && before[i] == other;
                    assert(after[i] == other);
                }
                assert(after[before.len() as int] == identifier);
            }
        }
        true
    }

    /// Adds every segment of another set.
    pub fn add_all(&mut self, other: &SegmentSet)
        requires
            old(self).well_formed(),
        ensures
            final(self).well_formed(),
            final(self).listed().to_set() == old(self).listed().to_set().union(
                other.listed().to_set(),
            ),
    {
        let ghost before = self.listed().to_set();
        let mut index: usize = 0;
        assert(other.listed().take(0).to_set() =~= Set::empty());
        assert(before.union(Set::empty()) =~= before);
        while index < other.len()
            invariant
                self.well_formed(),
                index <= other.listed().len(),
                self.listed().to_set() == before.union(
                    other.listed().take(index as int).to_set(),
                ),
            decreases other.listed().len() - index,
        {
            let segment = other.get(index);
            let ghost listed = self.listed();
            let ghost taken = other.listed().take(index as int);
            self.insert(segment);
            proof {
                listed.lemma_push_to_set_commute(segment);
                taken.lemma_push_to_set_commute(segment);
                assert(other.listed().take(index as int + 1) =~= taken.push(segment));
                if listed.contains(segment) {
                    assert(listed.to_set().contains(segment));
                    assert(listed.to_set().insert(segment) =~= listed.to_set());
                }
                assert(before.union(taken.to_set()).insert(segment) =~= before.union(
                    taken.to_set().insert(segment),
                ));
            }
            index = index + 1;
        }
        assert(other.listed().take(index as int) =~= other.listed());
    }

    /// How many segments the set holds.
    pub fn len(&self) -> (count: usize)
        ensures
            count == self.listed().len(),
    {
        self.order.len()
    }

    /// The segment that was added after this many others.
    pub fn get(&self, index: usize) -> (identifier: SegmentIdentifier)
        requires
            index < self.listed().len(),
        ensures
            identifier == self.listed()[index as int],
    {
        self.order[index]
    }
}

} // verus!
