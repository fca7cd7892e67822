//! What a sweep may rest on, which rule it follows, and what it comes to.
use vstd::prelude::*;
use vstd::string::*;
use crate::generations;
use crate::generations::{GenerationIndex, HeaderFacts, SegmentReferences, UnreadableRoot};
use crate::identifier::{
    CompactionKind, GarbageCollectionGeneration, SegmentIdentifier,
};
use crate::indexless_refusal::{ArchiveFacts, ServedSegment};
use crate::journal::proofs::JournalConvergence;
use crate::options::{MaintenanceTask, OptionsView};
use crate::planning::segments;
use crate::planning::{CheckpointPlan, PlannedArchiveSweep};

verus! {

/// Whether the index and the header of a data segment agree in every field, and the
/// rule spares the segment.
pub open spec fn is_sound(
    segment: SegmentIdentifier,
    header: HeaderFacts,
    index: GenerationIndex,
) -> bool {
    &&& index.generation(segment) is Some
    &&& index.generation(segment)->0.generation == header.generation.generation
    &&& index.generation(segment)->0.full_generation == header.generation.full_generation
    &&& index.generation(segment)->0.is_compacted == header.generation.is_compacted
    &&& !header.reclaimable
}

/// A closure passes exactly if every data segment of it is sound: stated by the
/// index as by its own header, and spared by the rule. A bulk segment is never at
/// fault.
pub proof fn law_a_closure_passes_exactly_if_sound(
    closure: Seq<SegmentIdentifier>,
    headers: Seq<Option<HeaderFacts>>,
    index: GenerationIndex,
)
    requires
        generations::headers_cover(closure, headers),
    ensures
        (forall|i: int|
            0 <= i < closure.len() ==> #[trigger] generations::closure_fault_at(
                closure,
                headers,
                index,
                i,
            ) is None) <==> (forall|i: int|
            0 <= i < closure.len() && (#[trigger] closure[i]).least_significant
                / 0x1000_0000_0000_0000 == 0xA ==> is_sound(closure[i], headers[i]->0, index)),
{
    assert forall|i: int| 0 <= i < closure.len() implies (#[trigger] generations::closure_fault_at(
        closure,
        headers,
        index,
        i,
    ) is None) == (closure[i].least_significant / 0x1000_0000_0000_0000 == 0xA ==> is_sound(
        closure[i],
        headers[i]->0,
        index,
    )) by {
        if closure[i].names_data() {
            assert(headers[i] is Some);
            if index.generation(closure[i]) is Some {
                let stated = index.generation(closure[i])->0;
                let own = headers[i]->0.generation;
                assert(stated == own <==> stated.generation == own.generation
                    && stated.full_generation == own.full_generation && stated.is_compacted
                    == own.is_compacted);
            }
        }
    }
    if forall|i: int|
        0 <= i < closure.len() ==> #[trigger] generations::closure_fault_at(
            closure,
            headers,
            index,
            i,
        ) is None {
        assert forall|i: int|
            0 <= i < closure.len() && (#[trigger] closure[i]).least_significant
                / 0x1000_0000_0000_0000 == 0xA implies is_sound(
            closure[i],
            headers[i]->0,
            index,
        ) by {
            assert(generations::closure_fault_at(closure, headers, index, i) is None);
        }
    }
    if forall|i: int|
        0 <= i < closure.len() && (#[trigger] closure[i]).least_significant
            / 0x1000_0000_0000_0000 == 0xA ==> is_sound(closure[i], headers[i]->0, index) {
        assert forall|i: int|
            0 <= i < closure.len() implies #[trigger] generations::closure_fault_at(
            closure,
            headers,
            index,
            i,
        ) is None by {
            assert(closure[i].least_significant / 0x1000_0000_0000_0000 == 0xA ==> is_sound(
                closure[i],
                headers[i]->0,
                index,
            ));
        }
    }
}

/// A sweep that takes something away is safe exactly if every retained root still
/// reads and no reference leads from a data segment that stays and is not garbage to
/// a segment that goes.
pub proof fn law_a_safe_sweep_leaves_nothing_dangling(
    unavailable: Set<SegmentIdentifier>,
    reclaimable: Set<SegmentIdentifier>,
    first_unreadable_root: Option<UnreadableRoot>,
    segments: Seq<SegmentReferences>,
    gone: SegmentIdentifier,
)
    requires
        unavailable.contains(gone),
    ensures
        generations::is_safe_sweep(
            unavailable,
            reclaimable,
            first_unreadable_root,
            segments,
        ) <==> {
            &&& first_unreadable_root is None
            &&& !exists|j: int, i: int|
                0 <= j < segments.len() && 0 <= i < segments[j].referenced@.len()
                    && segments[j].identifier.least_significant / 0x1000_0000_0000_0000 == 0xA
                    && !unavailable.contains(segments[j].identifier) && !reclaimable.contains(
                    segments[j].identifier,
                ) && unavailable.contains(#[trigger] segments[j].referenced@[i])
        },
{
    assert(unavailable != Set::<SegmentIdentifier>::empty());
}

proof fn lemma_stated(
    served: Seq<ServedSegment>,
    segment: SegmentIdentifier,
    position: int,
)
    requires
        0 <= position < served.len(),
        served[position].identifier == segment,
        forall|i: int| position < i < served.len() ==> (#[trigger] served[i]).identifier != segment,
    ensures
        generations::stated_generation(served, segment) == served[position].index_generation,
    decreases served.len(),
{
    if position < served.len() - 1 {
        assert(served[served.len() - 1].identifier != segment);
        lemma_stated(served.drop_last(), segment, position);
    }
}

proof fn lemma_unstated(served: Seq<ServedSegment>, segment: SegmentIdentifier)
    requires
        forall|i: int| 0 <= i < served.len() ==> (#[trigger] served[i]).identifier != segment,
    ensures
        generations::stated_generation(served, segment) is None,
    decreases served.len(),
{
    if served.len() > 0 {
        assert(served[served.len() - 1].identifier != segment);
        lemma_unstated(served.drop_last(), segment);
    }
}

proof fn lemma_stated_joined(
    first: Seq<ServedSegment>,
    second: Seq<ServedSegment>,
    segment: SegmentIdentifier,
)
    ensures
        (forall|i: int| 0 <= i < second.len() ==> (#[trigger] second[i]).identifier != segment)
            ==> generations::stated_generation(first + second, segment)
            == generations::stated_generation(first, segment),
    decreases second.len(),
{
    if second.len() == 0 {
        assert(first + second =~= first);
    } else {
        assert((first + second).drop_last() =~= first + second.drop_last());
        assert((first + second).last() == second.last());
        lemma_stated_joined(first, second.drop_last(), segment);
        if forall|i: int|
            0 <= i < second.len() ==> (#[trigger] second[i]).identifier != segment {
            assert(second[second.len() - 1].identifier != segment);
            assert forall|i: int| 0 <= i < second.drop_last().len() implies (
            #[trigger] second.drop_last()[i]).identifier != segment by {
                assert(second[i].identifier != segment);
            }
        }
    }
}

/// Of several entries for one segment the last decides which generation the index
/// states: the last of its archive, in the last archive that has one.
pub proof fn law_the_last_entry_states_the_generation(
    index: GenerationIndex,
    archives: Seq<ArchiveFacts>,
    archive: int,
    position: int,
)
    requires
        generations::indexes_archives(index, archives),
        0 <= archive < archives.len(),
        0 <= position < archives[archive].segments@.len(),
        forall|i: int|
            position < i < archives[archive].segments@.len() ==> (
            #[trigger] archives[archive].segments@[i]).identifier
                != archives[archive].segments@[position].identifier,
        forall|j: int, i: int|
            archive < j < archives.len() && 0 <= i < archives[j].segments@.len() ==> (
            #[trigger] archives[j].segments@[i]).identifier
                != archives[archive].segments@[position].identifier,
    ensures
        index.generation(archives[archive].segments@[position].identifier)
            == archives[archive].segments@[position].index_generation,
{
    let segment = archives[archive].segments@[position].identifier;
    lemma_served(archives, segment, archive, position);
    assert(index.generation(segment) == generations::stated_generation(
        generations::served_segments(archives),
        segment,
    ));
}

proof fn lemma_served(
    archives: Seq<ArchiveFacts>,
    segment: SegmentIdentifier,
    archive: int,
    position: int,
)
    requires
        0 <= archive < archives.len(),
        0 <= position < archives[archive].segments@.len(),
        archives[archive].segments@[position].identifier == segment,
        forall|i: int|
            position < i < archives[archive].segments@.len() ==> (
            #[trigger] archives[archive].segments@[i]).identifier != segment,
        forall|j: int, i: int|
            archive < j < archives.len() && 0 <= i < archives[j].segments@.len() ==> (
            #[trigger] archives[j].segments@[i]).identifier != segment,
    ensures
        generations::stated_generation(generations::served_segments(archives), segment)
            == archives[archive].segments@[position].index_generation,
    decreases archives.len(),
{
    let earlier = generations::served_segments(archives.drop_last());
    let last = archives.last().segments@;
    let end = archives.len() - 1;
    assert(archives[end] == archives.last());
    if archive < end {
        assert forall|i: int| 0 <= i < last.len() implies (#[trigger] last[i]).identifier
            != segment by {
            assert(archives[end].segments@[i].identifier != segment);
        }
        lemma_stated_joined(earlier, last, segment);
        assert forall|j: int, i: int|
            archive < j < archives.drop_last().len() && 0 <= i
                < archives.drop_last()[j].segments@.len() implies (
        #[trigger] archives.drop_last()[j].segments@[i]).identifier != segment by {
            assert(archives[j].segments@[i].identifier != segment);
        }
        lemma_served(archives.drop_last(), segment, archive, position);
    } else {
        let all = earlier + last;
        let place = earlier.len() + position;
        assert(all[place] == last[position]);
        assert forall|i: int| place < i < all.len() implies (#[trigger] all[i]).identifier
            != segment by {
            assert(all[i] == last[i - earlier.len()]);
            assert(archives[archive].segments@[i - earlier.len()].identifier != segment);
        }
        lemma_stated(all, segment, place);
    }
}

/// Of a segment that no archive serves the index states nothing.
pub proof fn law_nothing_is_stated_of_an_unserved_segment(
    index: GenerationIndex,
    archives: Seq<ArchiveFacts>,
    segment: SegmentIdentifier,
)
    requires
        generations::indexes_archives(index, archives),
        forall|j: int, i: int|
            0 <= j < archives.len() && 0 <= i < archives[j].segments@.len() ==> (
            #[trigger] archives[j].segments@[i]).identifier != segment,
    ensures
        index.generation(segment) is None,
{
    lemma_unserved(archives, segment);
    lemma_unstated(generations::served_segments(archives), segment);
    assert(index.generation(segment) == generations::stated_generation(
        generations::served_segments(archives),
        segment,
    ));
}

proof fn lemma_unserved(archives: Seq<ArchiveFacts>, segment: SegmentIdentifier)
    requires
        forall|j: int, i: int|
            0 <= j < archives.len() && 0 <= i < archives[j].segments@.len() ==> (
            #[trigger] archives[j].segments@[i]).identifier != segment,
    ensures
        forall|i: int|
            0 <= i < generations::served_segments(archives).len() ==> (
            #[trigger] generations::served_segments(archives)[i]).identifier != segment,
    decreases archives.len(),
{
    if archives.len() > 0 {
        let shorter = archives.drop_last();
        assert forall|j: int, i: int|
            0 <= j < shorter.len() && 0 <= i < shorter[j].segments@.len() implies (
        #[trigger] shorter[j].segments@[i]).identifier != segment by {
            assert(archives[j].segments@[i].identifier != segment);
        }
        lemma_unserved(shorter, segment);
        let earlier = generations::served_segments(shorter);
        let last = archives.last().segments@;
        let all = generations::served_segments(archives);
        assert forall|i: int| 0 <= i < all.len() implies (#[trigger] all[i]).identifier
            != segment by {
            if i < earlier.len() {
                assert(all[i] == earlier[i]);
            } else {
                assert(all[i] == last[i - earlier.len()]);
                assert(archives[archives.len() - 1].segments@[i - earlier.len()].identifier
                    != segment);
            }
        }
    }
}

/// A selected copy is performed exactly if it is asked for regardless, or something
/// is left for it to do: a data segment of another generation, a checkpoint or a
/// history to omit, or a journal that is not the one line of the head. Which copy it
/// is, the options say.
pub proof fn law_a_copy_is_performed_exactly_if_there_is_work(
    options: OptionsView,
    uniformly_compacted: bool,
    checkpoints: CheckpointPlan,
    journal: JournalConvergence,
    purge_selected: bool,
    decision: (Option<CompactionKind>, bool),
)
    requires
        decision == segments::gate(
            options,
            uniformly_compacted,
            checkpoints,
            journal,
            purge_selected,
        ),
    ensures
        decision.0 is Some <==> options.compaction_kind is Some && (options.always_copy
            || !uniformly_compacted || checkpoints.names@.len() > 0
            || !journal.single_line_naming_head || purge_selected),
        decision.0 is Some ==> decision.0 == options.compaction_kind,
        decision.1 <==> options.compaction_kind is Some && uniformly_compacted
            && checkpoints.names@.len() == 0 && journal.single_line_naming_head && !purge_selected,
{
}

/// A copy that was asked for is performed where a data segment that the head reaches
/// is stated at another generation than the head's own, however alike they are
/// otherwise.
pub proof fn law_an_older_segment_forces_the_copy(
    closure: Seq<SegmentIdentifier>,
    index: GenerationIndex,
    reference: GarbageCollectionGeneration,
    position: int,
    options: OptionsView,
    checkpoints: CheckpointPlan,
    journal: JournalConvergence,
    purge_selected: bool,
)
    requires
        0 <= position < closure.len(),
        closure[position].least_significant / 0x1000_0000_0000_0000 == 0xA,
        index.generation(closure[position]) is None || index.generation(
            closure[position],
        )->0.generation != reference.generation || index.generation(
            closure[position],
        )->0.full_generation != reference.full_generation || !index.generation(
            closure[position],
        )->0.is_compacted || !reference.is_compacted,
    ensures
        segments::gate(
            options,
            reference.is_compacted && generations::is_uniform(closure, index, reference),
            checkpoints,
            journal,
            purge_selected,
        ).0 == options.compaction_kind,
{
    assert(closure[position].names_data());
}

/// The closure of the head is traced exactly where a sweep or a removal of
/// checkpoints needs it and every active archive has an index.
pub proof fn law_the_head_is_traced_exactly_if_needed(
    index_available: bool,
    options: OptionsView,
    checkpoints: CheckpointPlan,
)
    ensures
        segments::traces_head(index_available, options, checkpoints) <==> index_available && (
        options.tasks.contains(MaintenanceTask::Segments) || checkpoints.names@.len() > 0),
{
}

/// Segments are swept without a copy exactly where that task is selected, no copy is
/// performed and every active archive has an index.
pub proof fn law_a_sweep_stands_alone_exactly_without_a_copy(
    index_available: bool,
    options: OptionsView,
    effective_compaction_kind: Option<CompactionKind>,
)
    ensures
        segments::sweeps_standalone(index_available, options, effective_compaction_kind)
            <==> index_available && options.tasks.contains(MaintenanceTask::Segments)
            && effective_compaction_kind is None,
{
}

/// Residue is judged against the head's own generation, and so leniently that
/// nothing goes for its age: as many generations are kept as can be counted.
pub proof fn law_residue_never_goes_by_age(reference: GarbageCollectionGeneration)
    ensures
        segments::residue_rule(reference).reference == reference,
        segments::residue_rule(reference).kind is Full,
        segments::residue_rule(reference).retained_generations == 0x7fff_ffff,
{
}

/// The sweep that follows a copy is judged against what the copy wrote: the next
/// generation, compacted, and the next full one only after a full copy.
pub proof fn law_a_copy_is_swept_by_what_it_wrote(
    reference: GarbageCollectionGeneration,
    kind: CompactionKind,
    retained_generations: i32,
)
    requires
        reference.generation < 0x7fff_ffff,
        reference.full_generation < 0x7fff_ffff,
    ensures
        ({
            let rule = segments::copy_rule(reference, kind, retained_generations);
            &&& rule.kind == kind
            &&& rule.retained_generations == retained_generations
            &&& rule.reference.is_compacted
            &&& rule.reference.generation == reference.generation + 1
            &&& rule.reference.full_generation == reference.full_generation + if kind is Full {
                1int
            } else {
                0int
            }
        }),
{
}

/// The bytes of an archive that goes whole.
pub open spec fn removed_file_bytes(sweep: PlannedArchiveSweep) -> nat {
    match sweep {
        PlannedArchiveSweep::Remove { file_bytes, .. } => file_bytes as nat,
        _ => 0,
    }
}

/// The bytes of the entries that go from a rewritten archive.
pub open spec fn rewritten_bytes(sweep: PlannedArchiveSweep) -> nat {
    match sweep {
        PlannedArchiveSweep::Rewrite { eligible_entry_bytes, .. } => eligible_entry_bytes as nat,
        _ => 0,
    }
}

/// A figure of some archives added up, from the first to the last.
pub open spec fn added_up(
    archives: Seq<PlannedArchiveSweep>,
    figure: spec_fn(PlannedArchiveSweep) -> nat,
) -> nat
    decreases archives.len(),
{
    if archives.len() == 0 {
        0
    } else {
        figure(archives[0]) + added_up(archives.drop_first(), figure)
    }
}

proof fn lemma_added_up_last(
    archives: Seq<PlannedArchiveSweep>,
    figure: spec_fn(PlannedArchiveSweep) -> nat,
)
    requires
        archives.len() > 0,
    ensures
        added_up(archives, figure) == added_up(archives.drop_last(), figure) + figure(
            archives.last(),
        ),
    decreases archives.len(),
{
    if archives.len() > 1 {
        let rest = archives.drop_first();
        lemma_added_up_last(rest, figure);
        assert(rest.drop_last() =~= archives.drop_last().drop_first());
    } else {
        assert(archives.drop_last() =~= Seq::empty());
        assert(archives.drop_first() =~= Seq::empty());
    }
}

/// The figures of a sweep are those of its archives: how many go whole and what
/// their files measure, how many are rewritten and what goes from them, each sum as
/// far as it fits. An archive that is left alone counts nowhere.
pub proof fn law_a_sweep_tallies_its_archives(archives: Seq<PlannedArchiveSweep>)
    requires
        archives.len() <= 0xffff_ffff_ffff_ffff,
    ensures
        ({
            let tally = segments::tally_of(archives);
            let removed = added_up(archives, |sweep: PlannedArchiveSweep| removed_file_bytes(sweep));
            let rewritten = added_up(archives, |sweep: PlannedArchiveSweep| rewritten_bytes(sweep));
            &&& tally.removed_archives == added_up(
                archives,
                |sweep: PlannedArchiveSweep|
                    if sweep is Remove {
                        1nat
                    } else {
                        0nat
                    },
            )
            &&& tally.rewritten_archives == added_up(
                archives,
                |sweep: PlannedArchiveSweep|
                    if sweep is Rewrite {
                        1nat
                    } else {
                        0nat
                    },
            )
            &&& tally.removed_bytes == (if removed > 0xffff_ffff_ffff_ffff {
                0xffff_ffff_ffff_ffffnat
            } else {
                removed
            })
            &&& tally.rewritten_entry_bytes == (if rewritten > 0xffff_ffff_ffff_ffff {
                0xffff_ffff_ffff_ffffnat
            } else {
                rewritten
            })
            &&& tally.removed_archives <= archives.len()
            &&& tally.rewritten_archives <= archives.len()
        }),
    decreases archives.len(),
{
    if archives.len() > 0 {
        law_a_sweep_tallies_its_archives(archives.drop_last());
        lemma_added_up_last(
            archives,
            |sweep: PlannedArchiveSweep| removed_file_bytes(sweep),
        );
        lemma_added_up_last(archives, |sweep: PlannedArchiveSweep| rewritten_bytes(sweep));
        lemma_added_up_last(
            archives,
            |sweep: PlannedArchiveSweep|
                if sweep is Remove {
                    1nat
                } else {
                    0nat
                },
        );
        lemma_added_up_last(
            archives,
            |sweep: PlannedArchiveSweep|
                if sweep is Rewrite {
                    1nat
                } else {
                    0nat
                },
        );
    }
}

/// The history protects exactly the data segments that it or the head reaches, and
/// what it protects alone are those that the head does not hold, each place once.
pub proof fn law_history_protects_data_alone(
    retained: Seq<SegmentIdentifier>,
    head: Seq<SegmentIdentifier>,
    segment: SegmentIdentifier,
)
    ensures
        segments::data_among(retained).contains(segment) <==> retained.contains(segment)
            && segment.least_significant / 0x1000_0000_0000_0000 == 0xA,
        segments::outside_count(retained, head) == places_outside(retained, head).len(),
        places_outside(retained, head).finite(),
    decreases retained.len(),
{
    let kept = segments::data_among(retained);
    if retained.len() == 0 {
        assert(places_outside(retained, head) =~= Set::empty());
        assert(!kept.contains(segment));
    } else {
        let shorter = retained.drop_last();
        let last = retained.last();
        let end = retained.len() - 1;
        law_history_protects_data_alone(shorter, head, segment);
        let earlier = segments::data_among(shorter);
        assert(retained.contains(segment) <==> shorter.contains(segment) || segment == last) by {
            if retained.contains(segment) {
                let i = choose|i: int| 0 <= i < retained.len() && retained[i] == segment;
                if i < end {
                    assert(shorter[i] == segment);
                }
            }
            if shorter.contains(segment) {
                let i = choose|i: int| 0 <= i < shorter.len() && shorter[i] == segment;
                assert(retained[i] == segment);
            }
            assert(retained[end] == last);
        }
        if last.names_data() {
            assert(kept == earlier.push(last));
            assert(kept.contains(segment) <==> earlier.contains(segment) || segment == last) by {
                if earlier.contains(segment) {
                    let i = choose|i: int| 0 <= i < earlier.len() && earlier[i] == segment;
                    assert(kept[i] == segment);
                }
                assert(kept[earlier.len() as int] == last);
            }
        }
        if last.least_significant / 0x1000_0000_0000_0000 == 0xA && !head.contains(last) {
            assert(places_outside(retained, head) =~= places_outside(shorter, head).insert(end));
        } else {
            assert(places_outside(retained, head) =~= places_outside(shorter, head));
        }
    }
}

/// The places of data segments that another closure does not hold.
pub open spec fn places_outside(
    retained: Seq<SegmentIdentifier>,
    head: Seq<SegmentIdentifier>,
) -> Set<int> {
    Set::new(
        |i: int|
            0 <= i < retained.len() && retained[i].least_significant / 0x1000_0000_0000_0000 == 0xA
                && !head.contains(retained[i]),
    )
}

/// What the protection costs is what the sweep would free without it beyond what it
/// frees with it, and never less than nothing.
pub proof fn law_protection_costs_the_difference(unvetoed: int, vetoed: int)
    ensures
        segments::less(unvetoed, vetoed) >= 0,
        unvetoed >= vetoed ==> segments::less(unvetoed, vetoed) + vetoed == unvetoed,
        unvetoed < vetoed ==> segments::less(unvetoed, vetoed) == 0,
{
}

} // verus!
