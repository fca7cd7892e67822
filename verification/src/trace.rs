//! Walking segments and records that are read one at a time: the walk says
//! which is next, and is told what that one refers to.
use std::collections::{HashMap, HashSet};
use vstd::prelude::*;
use vstd::std_specs::hash::*;
use crate::identifier;
use crate::identifier::{RecordIdentifier, SegmentIdentifier, SegmentSet};
use crate::reach;

verus! {

/// A closure of segments in the making.
pub struct SegmentTrace {
    seen: SegmentSet,
    pending: Vec<SegmentIdentifier>,
    cursor: usize,
    awaited: Option<SegmentIdentifier>,
    settled: Ghost<Set<SegmentIdentifier>>,
    roots: Ghost<Set<SegmentIdentifier>>,
    references: Ghost<Map<SegmentIdentifier, Seq<SegmentIdentifier>>>,
}

impl SegmentTrace {
    /// The segments that belonged to the closure before.
    pub closed spec fn settled(&self) -> Set<SegmentIdentifier> {
        self.settled@
    }

    /// The segments that the trace started from.
    pub closed spec fn roots(&self) -> Set<SegmentIdentifier> {
        self.roots@
    }

    /// What each visited segment was said to refer to.
    pub closed spec fn references(&self) -> Map<SegmentIdentifier, Seq<SegmentIdentifier>> {
        self.references@
    }

    /// The segment whose references are asked for.
    pub closed spec fn awaits(&self) -> Option<SegmentIdentifier> {
        self.awaited
    }

    /// The segments that belong to the closure so far.
    pub closed spec fn visited(&self) -> Seq<SegmentIdentifier> {
        self.seen.listed()
    }

    /// Whether nothing is left to visit.
    pub closed spec fn is_exhausted(&self) -> bool {
        self.cursor == self.pending@.len() && self.awaited is None
    }

    /// The trace forgets nothing and invents nothing.
    pub closed spec fn well_formed(&self) -> bool {
        &&& self.seen.well_formed()
        &&& self.cursor <= self.pending@.len()
        &&& reach::tracing(
            self.settled@,
            self.roots@,
            self.references@,
            self.seen.listed().to_set(),
            self.pending@.skip(self.cursor as int),
            self.awaited,
        )
    }

    /// The next segment whose references are needed, or none when the closure
    /// is complete. No segment is named twice, nor one of the closure that the
    /// trace extends.
    pub fn next(&mut self) -> (wanted: Option<SegmentIdentifier>)
        requires
            old(self).well_formed(),
            old(self).awaits() is None,
        ensures
            final(self).well_formed(),
            final(self).settled() == old(self).settled(),
            final(self).roots() == old(self).roots(),
            final(self).references() == old(self).references(),
            final(self).awaits() == wanted,
            wanted is None ==> final(self).is_exhausted(),
            wanted is Some ==> !old(self).settled().contains(wanted->0) && !old(
                self,
            ).references().contains_key(wanted->0),
    {
        while self.cursor < self.pending.len()
            invariant
                self.well_formed(),
                self.awaited is None,
                self.settled@ == old(self).settled@,
                self.roots@ == old(self).roots@,
                self.references@ == old(self).references@,
            decreases self.pending@.len() - self.cursor,
        {
            let identifier = self.pending[self.cursor];
            let ghost before = self.seen.listed();
            let ghost waiting = self.pending@.skip(self.cursor as int);
            proof {
                reach::lemma_trace_visits(
                    self.settled@,
                    self.roots@,
                    self.references@,
                    before.to_set(),
                    waiting,
                    0,
                );
                assert(waiting[0] == identifier);
                assert(waiting.remove(0) =~= self.pending@.skip(self.cursor as int + 1));
            }
            self.cursor = self.cursor + 1;
            if self.seen.insert(identifier) {
                self.awaited = Some(identifier);
                proof {
                    before.lemma_push_to_set_commute(identifier);
                }
                return Some(identifier);
            }
        }
        None
    }

    /// Tells what the awaited segment refers to.
    pub fn supply(&mut self, referenced: &Vec<SegmentIdentifier>)
        requires
            old(self).well_formed(),
            old(self).awaits() is Some,
        ensures
            final(self).well_formed(),
            final(self).settled() == old(self).settled(),
            final(self).roots() == old(self).roots(),
            final(self).references() == old(self).references().insert(
                old(self).awaits()->0,
                referenced@,
            ),
            final(self).awaits() is None,
    {
        proof {
            reach::lemma_trace_learns(
                self.settled@,
                self.roots@,
                self.references@,
                self.seen.listed().to_set(),
                self.pending@.skip(self.cursor as int),
                self.awaited->0,
                referenced@,
            );
        }
        let ghost waiting = self.pending@.skip(self.cursor as int);
        let ghost key = self.awaited->0;
        let ghost before = self.pending@;
        let mut more = referenced.clone();
        assert(more@ =~= referenced@);
        self.pending.append(&mut more);
        assert(self.pending@ == before + referenced@);
        assert(self.pending@.skip(self.cursor as int) =~= waiting + referenced@);
        self.awaited = None;
        self.references = Ghost(self.references@.insert(key, referenced@));
    }

    /// The segments that belong to the closure so far.
    pub fn closure(&self) -> (closure: &SegmentSet)
        requires
            self.well_formed(),
        ensures
            closure.well_formed(),
            closure.listed() == self.visited(),
    {
        &self.seen
    }

    /// The complete closure: what belonged to it before, and exactly what
    /// paths along the references lead to from the roots. Of every segment that
    /// is new in it, the references were asked for.
    pub fn finish(self) -> (closure: SegmentSet)
        requires
            self.well_formed(),
            self.is_exhausted(),
        ensures
            closure.well_formed(),
            closure.listed() == self.visited(),
            forall|segment: SegmentIdentifier| #[trigger]
                closure.has(segment) <==> self.settled().contains(segment) || reach::reached(
                    self.references(),
                    self.roots(),
                    self.settled(),
                    segment,
                ),
            forall|segment: SegmentIdentifier| #[trigger]
                closure.has(segment) && !self.settled().contains(segment)
                    ==> self.references().contains_key(segment),
    {
        proof {
            law_a_finished_trace_visited_what_it_reaches(self);
            assert forall|segment: SegmentIdentifier| #[trigger]
                self.seen.has(segment) == self.visited().contains(segment) by {}
        }
        self.seen
    }
}

/// A trace that has nothing left to visit has visited what was settled before
/// and exactly what paths along the references lead to from the roots. Of every
/// segment that is new, the references were asked for.
pub proof fn law_a_finished_trace_visited_what_it_reaches(trace: SegmentTrace)
    requires
        trace.well_formed(),
        trace.is_exhausted(),
    ensures
        forall|segment: SegmentIdentifier| #[trigger]
            trace.visited().contains(segment) <==> trace.settled().contains(segment)
                || reach::reached(trace.references(), trace.roots(), trace.settled(), segment),
        forall|segment: SegmentIdentifier| #[trigger]
            trace.visited().contains(segment) && !trace.settled().contains(segment)
                ==> trace.references().contains_key(segment),
{
    assert(trace.pending@.skip(trace.cursor as int) =~= Seq::empty());
    reach::lemma_trace_is_complete(
        trace.settled@,
        trace.roots@,
        trace.references@,
        trace.seen.listed().to_set(),
    );
    assert forall|segment: SegmentIdentifier| #[trigger]
        trace.visited().contains(segment) == trace.seen.listed().to_set().contains(segment) by {}
}

/// Starts extending a closure by everything that the roots reach.
pub fn extend_segment_closure(seen: SegmentSet, roots: &Vec<SegmentIdentifier>) -> (trace:
    SegmentTrace)
    requires
        seen.well_formed(),
    ensures
        trace.well_formed(),
        trace.settled() == seen.listed().to_set(),
        trace.roots() == roots@.to_set(),
        trace.references() == Map::<SegmentIdentifier, Seq<SegmentIdentifier>>::empty(),
        trace.awaits() is None,
{
    let pending = roots.clone();
    proof {
        assert(pending@ =~= roots@);
        reach::lemma_trace_starts(seen.listed().to_set(), roots@);
        assert(pending@.skip(0) =~= roots@);
    }
    SegmentTrace {
        settled: Ghost(seen.listed().to_set()),
        roots: Ghost(roots@.to_set()),
        references: Ghost(Map::empty()),
        seen,
        pending,
        cursor: 0,
        awaited: None,
    }
}

/// Records in the order in which they were added, each once.
///
/// A segment's records share one ordinal, so a record takes the room of one
/// number.
#[derive(Debug)]
pub struct RecordSet {
    order: Vec<RecordIdentifier>,
    ordinals: HashMap<u128, u128>,
    ordinal_count: u128,
    members: HashSet<u128>,
}

/// The number of a record, given the ordinal of its segment.
pub open spec fn packed(ordinal: u128, record_number: u32) -> int {
    ordinal * 0x1_0000_0000 + record_number
}

fn pack(ordinal: u128, record_number: u32) -> (number: u128)
    requires
        ordinal <= u64::MAX,
    ensures
        number == packed(ordinal, record_number),
{
    ordinal * 0x1_0000_0000 + record_number as u128
}

impl RecordSet {
    /// The list and the index of its members agree.
    pub closed spec fn well_formed(&self) -> bool {
        &&& self.order@.no_duplicates()
        &&& self.ordinal_count <= self.order@.len() <= u64::MAX
        &&& forall|number: u128| #[trigger]
            self.ordinals@.contains_key(number) ==> self.ordinals@[number] < self.ordinal_count
        &&& forall|left: u128, right: u128|
            #[trigger] self.ordinals@.contains_key(left)
                && #[trigger] self.ordinals@.contains_key(right) && self.ordinals@[left]
                == self.ordinals@[right] ==> left == right
        &&& forall|number: u128| #[trigger]
            self.members@.contains(number) ==> number < self.ordinal_count * 0x1_0000_0000
        &&& forall|record: RecordIdentifier| #[trigger]
            self.order@.contains(record) <==> self.indexed(record)
    }

    /// Whether the index of members holds a record.
    spec fn indexed(&self, record: RecordIdentifier) -> bool {
        &&& self.ordinals@.contains_key(record.segment.number())
        &&& self.members@.contains(
            packed(self.ordinals@[record.segment.number()], record.record_number) as u128,
        )
    }

    /// The records in the order in which they were added.
    pub closed spec fn listed(&self) -> Seq<RecordIdentifier> {
        self.order@
    }

    /// Whether the set holds a record.
    pub open spec fn has(&self, record: RecordIdentifier) -> bool {
        self.listed().contains(record)
    }

    /// The empty set.
    pub fn new() -> (set: Self)
        ensures
            set.well_formed(),
            set.listed() == Seq::<RecordIdentifier>::empty(),
    {
        RecordSet {
            order: Vec::new(),
            ordinals: HashMap::new(),
            ordinal_count: 0,
            members: HashSet::new(),
        }
    }

    /// Whether the set holds a record.
    pub fn contains(&self, record: RecordIdentifier) -> (found: bool)
        requires
            self.well_formed(),
        ensures
            found == self.has(record),
    {
        broadcast use group_hash_axioms;

        match self.ordinals.get(&record.segment.as_number()) {
            Some(ordinal) => self.members.contains(&pack(*ordinal, record.record_number)),
            None => false,
        }
    }

    /// Adds a record, and says whether it was new.
    pub fn insert(&mut self, record: RecordIdentifier) -> (added: bool)
        requires
            old(self).well_formed(),
        ensures
            final(self).well_formed(),
            added == !old(self).has(record),
            final(self).listed() == if added {
                old(self).listed().push(record)
            } else {
                old(self).listed()
            },
    {
        broadcast use group_hash_axioms;

        if self.contains(record) {
            return false;
        }
        let ghost before = *self;
        let segment = record.segment.as_number();
        let known = match self.ordinals.get(&segment) {
            Some(ordinal) => Some(*ordinal),
            None => None,
        };
        let ordinal: u128 = match known {
            Some(ordinal) => ordinal,
            None => {
                let fresh: u128 = self.ordinal_count;
                self.ordinals.insert(segment, fresh);
                self.ordinal_count = fresh + 1;
                fresh
            },
        };
        let number = pack(ordinal, record.record_number);
        self.members.insert(number);
        self.order.push(record);
        let length: usize = self.order.len();
        proof {
            assert(self.order@.len() == length);
            assert forall|other: RecordIdentifier| #[trigger] self.order@.contains(
                other,
            ) <==> self.indexed(other) by {
                assert(before.order@.contains(other) <==> before.indexed(other));
                if self.order@.contains(other) && other != record {
                    let i = choose|i: int| 0 <= i < self.order@.len() && self.order@[i] == other;
                    assert(before.order@[i] == other);
                }
                if before.order@.contains(other) {
                    let i = choose|i: int|
                        0 <= i < before.order@.len() && before.order@[i] == other;
                    assert(self.order@[i] == other);
                }
                assert(self.order@[before.order@.len() as int] == record);
                if self.indexed(other) && other != record {
                    let other_segment = other.segment.number();
                    if self.ordinals@[other_segment] == ordinal {
                        assert(other_segment == segment);
                        identifier::lemma_number_injective(other.segment, record.segment);
                        assert(other.record_number != record.record_number);
                    }
                    assert(packed(self.ordinals@[other_segment], other.record_number) != number);
                    if known is None && other_segment == segment {
                        assert(before.members@.contains(
                            packed(ordinal, other.record_number) as u128,
                        ));
                        assert(false);
                    }
                    assert(before.indexed(other));
                }
            }
        }
        true
    }
}

/// A walk over records in the making.
pub struct RecordWalk {
    visited: RecordSet,
    pending: Vec<RecordIdentifier>,
    awaited: Option<RecordIdentifier>,
    roots: Ghost<Set<RecordIdentifier>>,
    children: Ghost<Map<RecordIdentifier, Seq<RecordIdentifier>>>,
}

impl RecordWalk {
    /// The records that the walk started from.
    pub closed spec fn roots(&self) -> Set<RecordIdentifier> {
        self.roots@
    }

    /// What each visited record was said to lead to.
    pub closed spec fn children(&self) -> Map<RecordIdentifier, Seq<RecordIdentifier>> {
        self.children@
    }

    /// The record whose children are asked for.
    pub closed spec fn awaits(&self) -> Option<RecordIdentifier> {
        self.awaited
    }

    /// Whether nothing is left to visit.
    pub closed spec fn is_exhausted(&self) -> bool {
        self.pending@.len() == 0 && self.awaited is None
    }

    /// The walk forgets nothing and invents nothing.
    pub closed spec fn well_formed(&self) -> bool {
        &&& self.visited.well_formed()
        &&& reach::tracing(
            Set::empty(),
            self.roots@,
            self.children@,
            self.visited.listed().to_set(),
            self.pending@,
            self.awaited,
        )
    }

    /// A walk that starts from nowhere yet.
    pub fn new() -> (walk: Self)
        ensures
            walk.well_formed(),
            walk.roots() == Set::<RecordIdentifier>::empty(),
            walk.children() == Map::<RecordIdentifier, Seq<RecordIdentifier>>::empty(),
            walk.awaits() is None,
    {
        let visited = RecordSet::new();
        let pending: Vec<RecordIdentifier> = Vec::new();
        proof {
            reach::lemma_trace_starts(Set::<RecordIdentifier>::empty(), pending@);
            assert(pending@.to_set() =~= Set::empty());
            assert(visited.listed().to_set() =~= Set::empty());
        }
        RecordWalk {
            visited,
            pending,
            awaited: None,
            roots: Ghost(Set::empty()),
            children: Ghost(Map::empty()),
        }
    }

    /// Lets the walk start from one more record.
    pub fn add_root(&mut self, root: RecordIdentifier)
        requires
            old(self).well_formed(),
            old(self).awaits() is None,
        ensures
            final(self).well_formed(),
            final(self).roots() == old(self).roots().insert(root),
            final(self).children() == old(self).children(),
            final(self).awaits() is None,
    {
        proof {
            reach::lemma_trace_gains_root(
                Set::empty(),
                self.roots@,
                self.children@,
                self.visited.listed().to_set(),
                self.pending@,
                root,
            );
        }
        self.pending.push(root);
        self.roots = Ghost(self.roots@.insert(root));
    }

    /// Starts a walk.
    pub fn from_root(root: RecordIdentifier) -> (walk: Self)
        ensures
            walk.well_formed(),
            walk.roots() == set![root],
            walk.children() == Map::<RecordIdentifier, Seq<RecordIdentifier>>::empty(),
            walk.awaits() is None,
    {
        let mut walk = Self::new();
        walk.add_root(root);
        assert(walk.roots() =~= set![root]);
        walk
    }

    /// The next record whose children are needed, or none when the walk is
    /// complete. No record is named twice.
    pub fn next(&mut self) -> (wanted: Option<RecordIdentifier>)
        requires
            old(self).well_formed(),
            old(self).awaits() is None,
        ensures
            final(self).well_formed(),
            final(self).roots() == old(self).roots(),
            final(self).children() == old(self).children(),
            final(self).awaits() == wanted,
            wanted is None ==> final(self).is_exhausted(),
            wanted is Some ==> !old(self).children().contains_key(wanted->0),
    {
        while self.pending.len() > 0
            invariant
                self.well_formed(),
                self.awaited is None,
                self.roots@ == old(self).roots@,
                self.children@ == old(self).children@,
            decreases self.pending@.len(),
        {
            let last: usize = self.pending.len() - 1;
            let record = self.pending[last];
            let ghost before = self.visited.listed();
            let ghost waiting = self.pending@;
            proof {
                reach::lemma_trace_visits(
                    Set::empty(),
                    self.roots@,
                    self.children@,
                    before.to_set(),
                    waiting,
                    last as int,
                );
                assert(waiting.remove(last as int) =~= waiting.drop_last());
            }
            self.pending.pop();
            if self.visited.insert(record) {
                self.awaited = Some(record);
                proof {
                    before.lemma_push_to_set_commute(record);
                }
                return Some(record);
            }
        }
        None
    }

    /// The record whose children are asked for.
    pub fn awaited(&self) -> (record: Option<RecordIdentifier>)
        ensures
            record == self.awaits(),
    {
        self.awaited
    }

    /// Tells what the awaited record leads to.
    pub fn supply(&mut self, children: Vec<RecordIdentifier>)
        requires
            old(self).well_formed(),
            old(self).awaits() is Some,
        ensures
            final(self).well_formed(),
            final(self).roots() == old(self).roots(),
            final(self).children() == old(self).children().insert(
                old(self).awaits()->0,
                children@,
            ),
            final(self).awaits() is None,
    {
        proof {
            reach::lemma_trace_learns(
                Set::empty(),
                self.roots@,
                self.children@,
                self.visited.listed().to_set(),
                self.pending@,
                self.awaited->0,
                children@,
            );
        }
        let ghost key = self.awaited->0;
        let ghost found = children@;
        let mut more = children;
        self.pending.append(&mut more);
        self.awaited = None;
        self.children = Ghost(self.children@.insert(key, found));
    }

    /// The awaited record was not walked before.
    pub proof fn lemma_awaited_is_new(&self)
        requires
            self.well_formed(),
            self.awaits() is Some,
        ensures
            !self.children().contains_key(self.awaits()->0),
    {
    }

    /// A finished walk has visited exactly the records that paths lead to from
    /// the roots.
    pub proof fn lemma_finished(&self)
        requires
            self.well_formed(),
            self.is_exhausted(),
        ensures
            forall|record: RecordIdentifier| #[trigger]
                self.children().contains_key(record) <==> reach::reached(
                    self.children(),
                    self.roots(),
                    Set::empty(),
                    record,
                ),
    {
        assert(self.pending@ =~= Seq::empty());
        reach::lemma_trace_is_complete(
            Set::empty(),
            self.roots@,
            self.children@,
            self.visited.listed().to_set(),
        );
    }
}

} // verus!
