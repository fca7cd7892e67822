//! The generations that active archive indexes state, and what must hold of
//! them before a sweep may trust them.
use std::collections::HashMap;
use vstd::prelude::*;
use vstd::std_specs::hash::*;
use vstd::string::*;
use crate::error::Error;
use crate::identifier;
use crate::identifier::{
    GarbageCollectionGeneration, RecordIdentifier, SegmentIdentifier, SegmentSet,
};
use crate::indexless_refusal;
use crate::indexless_refusal::{indexless_active_archive_refusal, ArchiveFacts, ServedSegment};

verus! {

/// The segments that the archives serve, in order.
pub open spec fn served_segments(archives: Seq<ArchiveFacts>) -> Seq<ServedSegment>
    decreases archives.len(),
{
    if archives.len() == 0 {
        Seq::empty()
    } else {
        served_segments(archives.drop_last()) + archives.last().segments@
    }
}

/// The generation that the last entry for a segment states.
pub open spec fn stated_generation(
    served: Seq<ServedSegment>,
    identifier: SegmentIdentifier,
) -> Option<GarbageCollectionGeneration>
    decreases served.len(),
{
    if served.len() == 0 {
        None
    } else if served.last().identifier == identifier {
        served.last().index_generation
    } else {
        stated_generation(served.drop_last(), identifier)
    }
}

/// The generation that the index states for each active segment.
#[derive(Debug)]
pub struct GenerationIndex {
    segments: SegmentSet,
    generations: HashMap<u128, GarbageCollectionGeneration>,
}

impl GenerationIndex {
    /// Every listed segment has a generation, and no other has one.
    pub closed spec fn well_formed(&self) -> bool {
        &&& self.segments.well_formed()
        &&& forall|identifier: SegmentIdentifier|
            #[trigger] self.segments.has(identifier) <==> self.generations@.contains_key(
                identifier.number(),
            )
    }

    /// The segments, in the order in which they were met first.
    pub closed spec fn listed(&self) -> Seq<SegmentIdentifier> {
        self.segments.listed()
    }

    /// The generation of a segment.
    pub closed spec fn generation(&self, identifier: SegmentIdentifier) -> Option<
        GarbageCollectionGeneration,
    > {
        if self.generations@.contains_key(identifier.number()) {
            Some(self.generations@[identifier.number()])
        } else {
            None
        }
    }

    /// The empty index.
    pub fn new() -> (index: Self)
        ensures
            index.well_formed(),
            index.listed() == Seq::<SegmentIdentifier>::empty(),
            forall|identifier: SegmentIdentifier| #[trigger] index.generation(identifier) is None,
    {
        broadcast use group_hash_axioms;

        GenerationIndex { segments: SegmentSet::new(), generations: HashMap::new() }
    }

    /// States the generation of a segment, in place of an earlier statement.
    pub fn insert(
        &mut self,
        segment: SegmentIdentifier,
        generation: GarbageCollectionGeneration,
    )
        requires
            old(self).well_formed(),
        ensures
            final(self).well_formed(),
            forall|other: SegmentIdentifier| #[trigger]
                final(self).generation(other) == if other == segment {
                    Some(generation)
                } else {
                    old(self).generation(other)
                },
            final(self).listed() == if old(self).listed().contains(segment) {
                old(self).listed()
            } else {
                old(self).listed().push(segment)
            },
    {
        broadcast use group_hash_axioms;

        let ghost before = *self;
        self.segments.insert(segment);
        self.generations.insert(segment.as_number(), generation);
        proof {
            assert forall|other: SegmentIdentifier| #[trigger] self.generation(other)
                == if other == segment {
                Some(generation)
            } else {
                before.generation(other)
            } by {
                if other.number() == segment.number() {
                    identifier::lemma_number_injective(other, segment);
                }
            }
            assert forall|other: SegmentIdentifier|
                #[trigger] self.segments.has(other) <==> self.generations@.contains_key(
                    other.number(),
                ) by {
                assert(before.segments.has(other) <==> before.generations@.contains_key(
                    other.number(),
                ));
                if other.number() == segment.number() {
                    identifier::lemma_number_injective(other, segment);
                }
                let listed_before = before.segments.listed();
                let listed_after = self.segments.listed();
                if listed_after != listed_before {
                    assert(listed_after[listed_before.len() as int] == segment);
                    if listed_before.contains(other) {
                        let i = choose|i: int|
                            0 <= i < listed_before.len() && listed_before[i] == other;
                        assert(listed_after[i] == other);
                    }
                }
            }
        }
    }

    /// The generation of a segment.
    pub fn get(&self, segment: SegmentIdentifier) -> (generation: Option<
        GarbageCollectionGeneration,
    >)
        ensures
            generation == self.generation(segment),
    {
        broadcast use group_hash_axioms;

        match self.generations.get(&segment.as_number()) {
            Some(generation) => Some(*generation),
            None => None,
        }
    }

    /// How many segments the index lists.
    pub fn len(&self) -> (count: usize)
        ensures
            count == self.listed().len(),
    {
        self.segments.len()
    }

    /// The listed segment at a position.
    pub fn segment_at(&self, position: usize) -> (segment: SegmentIdentifier)
        requires
            position < self.listed().len(),
        ensures
            segment == self.listed()[position as int],
    {
        self.segments.get(position)
    }
}

/// What an operator reads when an archive does not index its own segment.
pub open spec fn unindexed_text(file_name: Seq<char>, segment: SegmentIdentifier) -> Seq<char> {
    "active archive "@ + file_name + " has no index metadata for its own segment "@
        + segment.text() + "; refusing generation cleanup"@
}

/// Whether an archive's entry is the first without a generation.
pub open spec fn is_first_unindexed(
    archives: Seq<ArchiveFacts>,
    archive: int,
    position: int,
) -> bool {
    &&& 0 <= archive < archives.len()
    &&& 0 <= position < archives[archive].segments@.len()
    &&& archives[archive].segments@[position].index_generation is None
    &&& forall|i: int| #![trigger archives[archive].segments@[i]]
        0 <= i < position ==> archives[archive].segments@[i].index_generation is Some
    &&& forall|j: int, i: int| #![trigger archives[j].segments@[i]]
        0 <= j < archive && 0 <= i < archives[j].segments@.len()
            ==> archives[j].segments@[i].index_generation is Some
}

/// Whether an index states what the archives state.
pub open spec fn indexes_archives(index: GenerationIndex, archives: Seq<ArchiveFacts>) -> bool {
    &&& index.well_formed()
    &&& forall|segment: SegmentIdentifier| #[trigger]
        index.generation(segment) == stated_generation(served_segments(archives), segment)
}

/// Reads the generation of every active segment from the archive indexes,
/// refusing a store in which an active archive has none: generation decisions
/// may not rest on a recovery scan.
pub fn active_index_generations(archives: &Vec<ArchiveFacts>) -> (indexed: Result<
    GenerationIndex,
    Error,
>)
    ensures
        match indexed {
            Ok(index) => {
                &&& indexless_refusal::offenders_of(archives@).len() == 0
                &&& indexes_archives(index, archives@)
                &&& forall|j: int, i: int| #![trigger archives@[j].segments@[i]]
                    0 <= j < archives@.len() && 0 <= i < archives@[j].segments@.len()
                        ==> archives@[j].segments@[i].index_generation is Some
            },
            Err(error) => {
                ||| indexless_refusal::offenders_of(archives@).len() > 0 && (
                error matches Error::InvalidFormat { details }
                    && indexless_refusal::is_store_refusal(archives@, details@))
                ||| indexless_refusal::offenders_of(archives@).len() == 0 && exists|
                    j: int,
                    i: int,
                | #[trigger]
                    is_first_unindexed(archives@, j, i) && error.refuses(
                        unindexed_text(
                            archives@[j].file_name@,
                            archives@[j].segments@[i].identifier,
                        ),
                    )
            },
        },
{
    match indexless_active_archive_refusal(archives) {
        Some(details) => {
            return Err(Error::InvalidFormat { details });
        },
        None => {},
    }
    let mut index = GenerationIndex::new();
    let mut archive: usize = 0;
    assert(archives@.take(0) =~= Seq::empty());
    while archive < archives.len()
        invariant
            archive <= archives@.len(),
            indexless_refusal::offenders_of(archives@).len() == 0,
            indexes_archives(index, archives@.take(archive as int)),
            forall|j: int, i: int| #![trigger archives@[j].segments@[i]]
                0 <= j < archive && 0 <= i < archives@[j].segments@.len()
                    ==> archives@[j].segments@[i].index_generation is Some,
        decreases archives@.len() - archive,
    {
        let served = &archives[archive].segments;
        let ghost earlier = served_segments(archives@.take(archive as int));
        let mut position: usize = 0;
        assert(earlier + served@.take(0) =~= earlier);
        while position < served.len()
            invariant
                archive < archives@.len(),
                position <= served@.len(),
                served@ == archives@[archive as int].segments@,
                indexless_refusal::offenders_of(archives@).len() == 0,
                index.well_formed(),
                forall|segment: SegmentIdentifier| #[trigger]
                    index.generation(segment) == stated_generation(
                        earlier + served@.take(position as int),
                        segment,
                    ),
                forall|j: int, i: int| #![trigger archives@[j].segments@[i]]
                    0 <= j < archive && 0 <= i < archives@[j].segments@.len()
                        ==> archives@[j].segments@[i].index_generation is Some,
                forall|i: int| #![trigger archives@[archive as int].segments@[i]]
                    0 <= i < position
                        ==> archives@[archive as int].segments@[i].index_generation is Some,
            decreases served@.len() - position,
        {
            let entry = served[position];
            match entry.index_generation {
                Some(generation) => {
                    index.insert(entry.identifier, generation);
                },
                None => {
                    let mut details = String::from_str("active archive ");
                    details.append(archives[archive].file_name.as_str());
                    details.append(" has no index metadata for its own segment ");
                    entry.identifier.push_text(&mut details);
                    details.append("; refusing generation cleanup");
                    proof {
                        assert(entry == archives@[archive as int].segments@[position as int]);
                        assert(is_first_unindexed(archives@, archive as int, position as int));
                        assert(details@ =~= unindexed_text(
                            archives@[archive as int].file_name@,
                            entry.identifier,
                        ));
                    }
                    return Err(Error::InvalidFormat { details });
                },
            }
            proof {
                let longer = earlier + served@.take(position as int + 1);
                assert(longer.drop_last() =~= earlier + served@.take(position as int));
                assert(longer.last() == entry);
                assert(entry == archives@[archive as int].segments@[position as int]);
            }
            position = position + 1;
        }
        proof {
            let longer = archives@.take(archive as int + 1);
            assert(longer.drop_last() =~= archives@.take(archive as int));
            assert(longer.last() == archives@[archive as int]);
            assert(served@.take(position as int) =~= served@);
        }
        archive = archive + 1;
    }
    assert(archives@.take(archive as int) =~= archives@);
    Ok(index)
}

/// Whether a segment is data stamped ahead of the head.
pub open spec fn is_ahead(
    index: GenerationIndex,
    reference: GarbageCollectionGeneration,
    segment: SegmentIdentifier,
) -> bool {
    &&& segment.names_data()
    &&& index.generation(segment) matches Some(generation) && generation.generation
        > reference.generation
}

/// How many of the first listed segments are data stamped ahead of the head.
pub open spec fn ahead_count(
    index: GenerationIndex,
    reference: GarbageCollectionGeneration,
    listed: Seq<SegmentIdentifier>,
) -> nat
    decreases listed.len(),
{
    if listed.len() == 0 {
        0
    } else {
        ahead_count(index, reference, listed.drop_last()) + if is_ahead(
            index,
            reference,
            listed.last(),
        ) {
            1nat
        } else {
            0nat
        }
    }
}

/// Counts the active data segments stamped ahead of the head's own generation.
///
/// Nothing legitimate sits ahead of the head, so every one of these is output
/// from an earlier run that died between finishing its copy and committing the
/// head.
pub fn segments_ahead_of_the_head(
    active_index_generations: &GenerationIndex,
    reference: GarbageCollectionGeneration,
) -> (count: usize)
    ensures
        count == ahead_count(
            *active_index_generations,
            reference,
            active_index_generations.listed(),
        ),
{
    let index = active_index_generations;
    let ghost listed = index.listed();
    let mut count: usize = 0;
    let mut position: usize = 0;
    assert(listed.take(0) =~= Seq::empty());
    while position < index.len()
        invariant
            listed == index.listed(),
            position <= listed.len(),
            count <= position,
            count == ahead_count(*index, reference, listed.take(position as int)),
        decreases listed.len() - position,
    {
        assert(listed.take(position as int + 1).drop_last() =~= listed.take(position as int));
        let segment = index.segment_at(position);
        if segment.is_data_segment() {
            match index.get(segment) {
                Some(generation) => {
                    if generation.generation > reference.generation {
                        count = count + 1;
                    }
                },
                None => {},
            }
        }
        position = position + 1;
    }
    assert(listed.take(position as int) =~= listed);
    count
}

/// What a data segment's own header says, and whether the run's reclaim rule
/// would discard a segment of that generation.
#[derive(Clone, Copy, Debug, PartialEq, Eq, Structural)]
pub struct HeaderFacts {
    /// The generation in the segment's header.
    pub generation: GarbageCollectionGeneration,
    /// Whether the rule would discard it.
    pub reclaimable: bool,
}

/// What is wrong with a segment that the head reaches.
pub open spec fn closure_fault(
    segment: SegmentIdentifier,
    header: Option<HeaderFacts>,
    indexed: Option<GarbageCollectionGeneration>,
) -> Option<Seq<char>> {
    if !segment.names_data() || header is None {
        None
    } else {
        match indexed {
            None => Some(
                "current head reaches data segment "@ + segment.text()
                    + ", but no active archive index describes it"@,
            ),
            Some(generation) => if generation != header->0.generation {
                Some(
                    "segment "@ + segment.text() + " has index generation "@ + generation.text()
                        + ", but its header says "@ + header->0.generation.text(),
                )
            } else if header->0.reclaimable {
                Some(
                    "current head reaches data segment "@ + segment.text()
                        + " in reclaimable generation "@ + header->0.generation.text()
                        + "; refusing to trust generation cleanup"@,
                )
            } else {
                None
            },
        }
    }
}

/// What is wrong with the closure's segment at a position.
pub open spec fn closure_fault_at(
    closure: Seq<SegmentIdentifier>,
    headers: Seq<Option<HeaderFacts>>,
    index: GenerationIndex,
    position: int,
) -> Option<Seq<char>> {
    closure_fault(closure[position], headers[position], index.generation(closure[position]))
}

/// Whether a position is the first with something wrong.
pub open spec fn is_first_closure_fault(
    closure: Seq<SegmentIdentifier>,
    headers: Seq<Option<HeaderFacts>>,
    index: GenerationIndex,
    position: int,
) -> bool {
    &&& 0 <= position < closure.len()
    &&& closure_fault_at(closure, headers, index, position) is Some
    &&& forall|i: int|
        0 <= i < position ==> #[trigger] closure_fault_at(closure, headers, index, i) is None
}

/// Whether there is one header for each data segment of a closure.
pub open spec fn headers_cover(
    closure: Seq<SegmentIdentifier>,
    headers: Seq<Option<HeaderFacts>>,
) -> bool {
    &&& headers.len() == closure.len()
    &&& forall|i: int|
        0 <= i < closure.len() && (#[trigger] closure[i]).names_data() ==> headers[i] is Some
}

/// Proves the current head reaches nothing the run's own reclaim rule would
/// discard.
///
/// The rule is evaluated over the head's transitive segment closure, before
/// any mutation. Bulk segments are skipped deliberately: they carry the null
/// generation by format mandate and are reclaimed by reachability.
pub fn validate_reclaim_reference_invariant(
    current_closure: &SegmentSet,
    headers: &Vec<Option<HeaderFacts>>,
    active_index_generations: &GenerationIndex,
) -> (validated: Result<(), Error>)
    requires
        current_closure.well_formed(),
        headers_cover(current_closure.listed(), headers@),
    ensures
        match validated {
            Ok(_) => forall|i: int|
                0 <= i < current_closure.listed().len() ==> #[trigger] closure_fault_at(
                    current_closure.listed(),
                    headers@,
                    *active_index_generations,
                    i,
                ) is None,
            Err(error) => exists|position: int| #[trigger]
                is_first_closure_fault(
                    current_closure.listed(),
                    headers@,
                    *active_index_generations,
                    position,
                ) && error.refuses(
                    closure_fault_at(
                        current_closure.listed(),
                        headers@,
                        *active_index_generations,
                        position,
                    )->0,
                ),
        },
{
    let ghost closure = current_closure.listed();
    let mut position: usize = 0;
    while position < current_closure.len()
        invariant
            closure == current_closure.listed(),
            position <= closure.len(),
            headers_cover(closure, headers@),
            forall|i: int|
                0 <= i < position ==> #[trigger] closure_fault_at(
                    closure,
                    headers@,
                    *active_index_generations,
                    i,
                ) is None,
        decreases closure.len() - position,
    {
        let segment = current_closure.get(position);
        if segment.is_data_segment() {
            assert(closure[position as int].names_data());
            match headers[position] {
                Some(header) => match active_index_generations.get(segment) {
                    None => {
                        let mut details = String::from_str("current head reaches data segment ");
                        segment.push_text(&mut details);
                        details.append(", but no active archive index describes it");
                        assert(is_first_closure_fault(
                            closure,
                            headers@,
                            *active_index_generations,
                            position as int,
                        ));
                        return Err(Error::InvalidFormat { details });
                    },
                    Some(generation) => {
                        if generation != header.generation {
                            let mut details = String::from_str("segment ");
                            segment.push_text(&mut details);
                            details.append(" has index generation ");
                            generation.push_text(&mut details);
                            details.append(", but its header says ");
                            header.generation.push_text(&mut details);
                            assert(is_first_closure_fault(
                                closure,
                                headers@,
                                *active_index_generations,
                                position as int,
                            ));
                            return Err(Error::InvalidFormat { details });
                        }
                        if header.reclaimable {
                            let mut details = String::from_str("current head reaches data segment ");
                            segment.push_text(&mut details);
                            details.append(" in reclaimable generation ");
                            header.generation.push_text(&mut details);
                            details.append("; refusing to trust generation cleanup");
                            assert(is_first_closure_fault(
                                closure,
                                headers@,
                                *active_index_generations,
                                position as int,
                            ));
                            return Err(Error::InvalidFormat { details });
                        }
                    },
                },
                None => {},
            }
        }
        position = position + 1;
    }
    Ok(())
}

/// A head that passes is safe from the sweep: the rule discards no data
/// segment that the head reaches, and the index agrees with each header.
pub proof fn law_validated_head_reaches_nothing_reclaimable(
    closure: Seq<SegmentIdentifier>,
    headers: Seq<Option<HeaderFacts>>,
    index: GenerationIndex,
    segment: SegmentIdentifier,
)
    requires
        headers_cover(closure, headers),
        forall|i: int|
            0 <= i < closure.len() ==> #[trigger] closure_fault_at(closure, headers, index, i)
                is None,
        closure.contains(segment),
        segment.names_data(),
    ensures
        exists|i: int|
            0 <= i < closure.len() && #[trigger] closure[i] == segment && headers[i] is Some
                && !headers[i]->0.reclaimable && index.generation(segment) == Some(
                headers[i]->0.generation,
            ),
{
    let i = choose|i: int| 0 <= i < closure.len() && closure[i] == segment;
    assert(closure_fault_at(closure, headers, index, i) is None);
    assert(closure[i].names_data());
}

/// Whether every data segment of a closure carries the reference generation.
pub open spec fn is_uniform(
    closure: Seq<SegmentIdentifier>,
    index: GenerationIndex,
    reference: GarbageCollectionGeneration,
) -> bool {
    forall|i: int|
        0 <= i < closure.len() && (#[trigger] closure[i]).names_data() ==> index.generation(
            closure[i],
        ) == Some(reference)
}

/// Decides whether every data segment the head reaches carries the head
/// segment's own compacted generation triple.
///
/// Triple equality against the reference, never ordering and never a
/// store-wide maximum: generation arithmetic wraps, and killed-run residue
/// stamped ahead of the head sits outside the closure entirely.
pub fn uniformly_compacted(
    current_closure: &SegmentSet,
    active_index_generations: &GenerationIndex,
    reference: GarbageCollectionGeneration,
) -> (uniform: bool)
    ensures
        uniform == (reference.is_compacted && is_uniform(
            current_closure.listed(),
            *active_index_generations,
            reference,
        )),
{
    if !reference.is_compacted {
        return false;
    }
    let mut position: usize = 0;
    while position < current_closure.len()
        invariant
            position <= current_closure.listed().len(),
            forall|i: int|
                0 <= i < position && (#[trigger] current_closure.listed()[i]).names_data()
                    ==> active_index_generations.generation(current_closure.listed()[i]) == Some(
                    reference,
                ),
        decreases current_closure.listed().len() - position,
    {
        let segment = current_closure.get(position);
        if segment.is_data_segment() {
            let carries = match active_index_generations.get(segment) {
                Some(generation) => generation == reference,
                None => false,
            };
            if !carries {
                assert(current_closure.listed()[position as int].names_data());
                return false;
            }
        }
        position = position + 1;
    }
    true
}

/// One segment and the segments it refers to.
#[derive(Debug)]
pub struct SegmentReferences {
    /// The segment.
    pub identifier: SegmentIdentifier,
    /// What it refers to, in order.
    pub referenced: Vec<SegmentIdentifier>,
}

/// Whether a segment outlives the sweep as live data.
///
/// A segment the mark phase already proved reclaimable is garbage that merely
/// outlived the sweep; a dangling reference out of garbage is the ordinary
/// state every partial sweep leaves behind.
pub open spec fn is_live_survivor(
    segment: SegmentIdentifier,
    unavailable: Set<SegmentIdentifier>,
    reclaimable: Set<SegmentIdentifier>,
) -> bool {
    segment.names_data() && !unavailable.contains(segment) && !reclaimable.contains(segment)
}

/// Whether a position is the first reference to a segment that goes.
pub open spec fn is_first_dangling(
    referenced: Seq<SegmentIdentifier>,
    unavailable: Set<SegmentIdentifier>,
    position: int,
) -> bool {
    &&& 0 <= position < referenced.len()
    &&& unavailable.contains(referenced[position])
    &&& forall|i: int| 0 <= i < position ==> !unavailable.contains(#[trigger] referenced[i])
}

/// Whether no live survivor among the first segments refers to one that goes.
pub open spec fn none_dangles(
    segments: Seq<SegmentReferences>,
    unavailable: Set<SegmentIdentifier>,
    reclaimable: Set<SegmentIdentifier>,
) -> bool {
    forall|j: int, i: int| #![trigger segments[j].referenced@[i]]
        0 <= j < segments.len() && is_live_survivor(
            segments[j].identifier,
            unavailable,
            reclaimable,
        ) && 0 <= i < segments[j].referenced@.len() ==> !unavailable.contains(
            segments[j].referenced@[i],
        )
}

/// What an operator reads when a survivor would dangle.
pub open spec fn dangling_text(survivor: SegmentIdentifier, target: SegmentIdentifier) -> Seq<
    char,
> {
    "surviving data segment "@ + survivor.text() + " references segment "@ + target.text()
        + ", which the cleanup plan would remove"@
}

/// What an operator reads when a retained root would not read.
pub open spec fn unreadable_root_text(root: RecordIdentifier, error: Seq<char>) -> Seq<char> {
    "segment cleanup would make retained journal root "@ + root.text() + " unreadable: "@ + error
}

/// A retained journal root that does not read without the segments that go.
#[derive(Debug)]
pub struct UnreadableRoot {
    /// The root.
    pub root: RecordIdentifier,
    /// Why it does not read.
    pub error: String,
}

/// Whether a sweep takes nothing away, or leaves every retained root readable
/// and no live segment dangling.
pub open spec fn is_safe_sweep(
    unavailable: Set<SegmentIdentifier>,
    reclaimable: Set<SegmentIdentifier>,
    first_unreadable_root: Option<UnreadableRoot>,
    segments: Seq<SegmentReferences>,
) -> bool {
    unavailable == Set::<SegmentIdentifier>::empty() || (first_unreadable_root is None
        && none_dangles(segments, unavailable, reclaimable))
}

/// The refusal of a sweep: the first root that would not read, or else the first
/// survivor that would dangle.
pub open spec fn is_sweep_refusal(
    error: Error,
    unavailable: Set<SegmentIdentifier>,
    reclaimable: Set<SegmentIdentifier>,
    first_unreadable_root: Option<UnreadableRoot>,
    segments: Seq<SegmentReferences>,
) -> bool {
    match first_unreadable_root {
        Some(failed) => error.refuses(unreadable_root_text(failed.root, failed.error@)),
        None => exists|j: int, i: int|
            0 <= j < segments.len() && none_dangles(segments.take(j), unavailable, reclaimable)
                && is_live_survivor(segments[j].identifier, unavailable, reclaimable)
                && #[trigger] is_first_dangling(segments[j].referenced@, unavailable, i)
                && error.refuses(
                dangling_text(segments[j].identifier, segments[j].referenced@[i]),
            ),
    }
}

/// Proves that a sweep leaves every retained root readable and no live segment
/// dangling. The first retained root that does not read without the segments
/// that go, if any, was found by walking the roots through a view of the store
/// that lacks those segments.
pub fn validate_prospective_segment_plan(
    unavailable: &SegmentSet,
    reclaimable: &SegmentSet,
    first_unreadable_root: &Option<UnreadableRoot>,
    segments: &Vec<SegmentReferences>,
) -> (validated: Result<(), Error>)
    requires
        unavailable.well_formed(),
        reclaimable.well_formed(),
    ensures
        match validated {
            Ok(_) => is_safe_sweep(
                unavailable.listed().to_set(),
                reclaimable.listed().to_set(),
                *first_unreadable_root,
                segments@,
            ),
            Err(error) => unavailable.listed().len() > 0 && is_sweep_refusal(
                error,
                unavailable.listed().to_set(),
                reclaimable.listed().to_set(),
                *first_unreadable_root,
                segments@,
            ),
        },
{
    if unavailable.len() == 0 {
        assert(unavailable.listed().to_set() =~= Set::empty());
        return Ok(());
    }
    match first_unreadable_root {
        Some(failed) => {
            let mut details = String::from_str("segment cleanup would make retained journal root ");
            failed.root.push_text(&mut details);
            details.append(" unreadable: ");
            details.append(failed.error.as_str());
            assert(details@ =~= unreadable_root_text(failed.root, failed.error@));
            return Err(Error::InvalidFormat { details });
        },
        None => {},
    }
    let ghost gone = unavailable.listed().to_set();
    let ghost garbage = reclaimable.listed().to_set();
    let mut index: usize = 0;
    while index < segments.len()
        invariant
            index <= segments@.len(),
            unavailable.well_formed(),
            reclaimable.well_formed(),
            unavailable.listed().len() > 0,
            first_unreadable_root is None,
            gone == unavailable.listed().to_set(),
            garbage == reclaimable.listed().to_set(),
            none_dangles(segments@.take(index as int), gone, garbage),
        decreases segments@.len() - index,
    {
        let survivor = &segments[index];
        if survivor.identifier.is_data_segment() && !unavailable.contains(survivor.identifier)
            && !reclaimable.contains(survivor.identifier) {
            let mut position: usize = 0;
            while position < survivor.referenced.len()
                invariant
                    index < segments@.len(),
                    *survivor == segments@[index as int],
                    position <= survivor.referenced@.len(),
                    unavailable.well_formed(),
                    unavailable.listed().len() > 0,
                    first_unreadable_root is None,
                    gone == unavailable.listed().to_set(),
                    garbage == reclaimable.listed().to_set(),
                    none_dangles(segments@.take(index as int), gone, garbage),
                    is_live_survivor(survivor.identifier, gone, garbage),
                    forall|i: int|
                        0 <= i < position ==> !gone.contains(#[trigger] survivor.referenced@[i]),
                decreases survivor.referenced@.len() - position,
            {
                let target = survivor.referenced[position];
                if unavailable.contains(target) {
                    let mut details = String::from_str("surviving data segment ");
                    survivor.identifier.push_text(&mut details);
                    details.append(" references segment ");
                    target.push_text(&mut details);
                    details.append(", which the cleanup plan would remove");
                    proof {
                        assert(is_first_dangling(survivor.referenced@, gone, position as int));
                        assert(details@ =~= dangling_text(survivor.identifier, target));
                    }
                    return Err(Error::InvalidFormat { details });
                }
                position = position + 1;
            }
        }
        proof {
            let longer = segments@.take(index as int + 1);
            assert forall|j: int, i: int| #![trigger longer[j].referenced@[i]]
                0 <= j < longer.len() && is_live_survivor(longer[j].identifier, gone, garbage)
                    && 0 <= i < longer[j].referenced@.len() implies !gone.contains(
                longer[j].referenced@[i],
            ) by {
                if j < index {
                    assert(longer[j] == segments@.take(index as int)[j]);
                    assert(!gone.contains(segments@.take(index as int)[j].referenced@[i]));
                } else {
                    assert(longer[j] == *survivor);
                }
            }
        }
        index = index + 1;
    }
    assert(segments@.take(index as int) =~= segments@);
    Ok(())
}

} // verus!
