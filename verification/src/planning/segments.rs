//! What a segment run would reclaim: the head's closure, the history that the
//! journal still protects, and the sweeps that follow from both.
use vstd::prelude::*;
use vstd::string::*;
use crate::error::Error;
use crate::generations;
use crate::generations::{
    segments_ahead_of_the_head, uniformly_compacted, validate_reclaim_reference_invariant,
    GenerationIndex, HeaderFacts,
};
use crate::identifier::{
    CompactionKind, GarbageCollectionGeneration, ReclaimRule, SegmentIdentifier,
    SegmentSet,
};
use crate::journal::proofs::JournalConvergence;
use crate::options::{CompactionOptions, MaintenanceTask, OptionsView};
use crate::plan::HistoryProtection;
use crate::planning::history;
use crate::planning::{CheckpointPlan, PlannedArchiveSweep, SegmentCompactionPlan, StaleArchive};
use crate::reclamation;
use crate::reclamation::compaction_target_generation;
use crate::text;

verus! {

/// Whether the head's closure has to be traced.
pub open spec fn traces_head(
    index_available: bool,
    options: OptionsView,
    checkpoints: CheckpointPlan,
) -> bool {
    index_available && (options.tasks.contains(MaintenanceTask::Segments)
        || checkpoints.names@.len() > 0)
}

/// Whether the head's closure has to be traced: a sweep or a removed
/// checkpoint needs it, and no generation decision rests on a missing index.
pub fn head_trace_needed(
    index_available: bool,
    options: &CompactionOptions,
    checkpoints: &CheckpointPlan,
) -> (needed: bool)
    ensures
        needed == traces_head(index_available, options@, *checkpoints),
{
    index_available && (options.contains(MaintenanceTask::Segments) || checkpoints.names.len() > 0)
}

/// What tracing the head's reachable set established.
#[derive(Debug)]
pub struct HeadClosure {
    /// Every segment the current head reaches.
    pub segments: SegmentSet,
    /// Active data segments stamped ahead of the head: the residue an
    /// interrupted run left behind.
    pub residue_segments: usize,
    /// The closure's indexed bytes, data and bulk, or none when the trace did
    /// not run. Data bytes bound what a copy writes; bulk bytes are shared in
    /// place and never copied.
    pub indexed_bytes: Option<(u64, u64)>,
    /// Whether every data segment the head reaches carries the head segment's
    /// own compacted generation triple. False when the trace did not run.
    pub uniformly_compacted_at_reference: bool,
}

/// Concludes the trace of the head: counts the residue ahead of it, proves that
/// the run's own rule would discard nothing it reaches, and says whether it is
/// compacted throughout.
pub fn trace_head_closure(
    segments: SegmentSet,
    headers: &Vec<Option<HeaderFacts>>,
    active_index_generations: &GenerationIndex,
    reference: GarbageCollectionGeneration,
    indexed_bytes: (u64, u64),
) -> (traced: Result<HeadClosure, Error>)
    requires
        segments.well_formed(),
        generations::headers_cover(segments.listed(), headers@),
    ensures
        match traced {
            Ok(closure) => {
                &&& closure.segments == segments
                &&& closure.residue_segments == generations::ahead_count(
                    *active_index_generations,
                    reference,
                    active_index_generations.listed(),
                )
                &&& closure.indexed_bytes == Some(indexed_bytes)
                &&& closure.uniformly_compacted_at_reference == (reference.is_compacted
                    && generations::is_uniform(
                    segments.listed(),
                    *active_index_generations,
                    reference,
                ))
                &&& forall|i: int|
                    0 <= i < segments.listed().len() ==> #[trigger] generations::closure_fault_at(
                        segments.listed(),
                        headers@,
                        *active_index_generations,
                        i,
                    ) is None
            },
            Err(error) => exists|position: int| #[trigger]
                generations::is_first_closure_fault(
                    segments.listed(),
                    headers@,
                    *active_index_generations,
                    position,
                ) && error.refuses(
                    generations::closure_fault_at(
                        segments.listed(),
                        headers@,
                        *active_index_generations,
                        position,
                    )->0,
                ),
        },
{
    let residue_segments = segments_ahead_of_the_head(active_index_generations, reference);
    validate_reclaim_reference_invariant(&segments, headers, active_index_generations)?;
    let uniform = uniformly_compacted(&segments, active_index_generations, reference);
    Ok(
        HeadClosure {
            segments,
            residue_segments,
            indexed_bytes: Some(indexed_bytes),
            uniformly_compacted_at_reference: uniform,
        },
    )
}

/// What an operator reads about the size of the head's closure.
pub open spec fn reach_text(
    bulk_bytes: u64,
    data_size: Seq<char>,
    bulk_size: Seq<char>,
) -> Seq<char> {
    if bulk_bytes == 0 {
        "the head reaches "@ + data_size + " of node data"@
    } else {
        "the head reaches "@ + data_size + " of node data and "@ + bulk_size
            + " of shared binary blocks"@
    }
}

/// States the composition of the head's closure: how much is node data that the
/// copy rewrites, and how much is binary blocks that it shares.
pub fn head_reach_conclusion(bulk_bytes: u64, data_size: &str, bulk_size: &str) -> (conclusion:
    String)
    ensures
        conclusion@ == reach_text(bulk_bytes, data_size@, bulk_size@),
{
    let mut conclusion = String::new();
    conclusion.append("the head reaches ");
    conclusion.append(data_size);
    if bulk_bytes == 0 {
        conclusion.append(" of node data");
    } else {
        conclusion.append(" of node data and ");
        conclusion.append(bulk_size);
        conclusion.append(" of shared binary blocks");
    }
    assert(conclusion@ =~= reach_text(bulk_bytes, data_size@, bulk_size@));
    conclusion
}

/// The compaction that a run performs, and whether the head is already fully
/// compacted.
pub open spec fn gate(
    options: OptionsView,
    uniformly_compacted: bool,
    checkpoints: CheckpointPlan,
    journal: JournalConvergence,
    purge_selected: bool,
) -> (Option<CompactionKind>, bool) {
    if options.compaction_kind is None {
        (None, false)
    } else {
        let converged = uniformly_compacted && checkpoints.names@.len() == 0
            && journal.single_line_naming_head && !purge_selected;
        if converged && !options.always_copy {
            (None, true)
        } else {
            (options.compaction_kind, converged)
        }
    }
}

/// Decides whether a selected copy is worth performing.
///
/// The head is already compact exactly when every data segment it reaches
/// carries the head's own compacted triple, no checkpoint is selected for
/// omission, no version history is selected for purge, and the journal already
/// holds the single line a completed compaction leaves. A gated run performs
/// the standalone sweep instead, so garbage never hides behind convergence; the
/// only thing it drops is the swap that would replace a generation with an
/// identical one.
pub fn convergence_gate(
    options: &CompactionOptions,
    uniformly_compacted: bool,
    checkpoints: &CheckpointPlan,
    journal: JournalConvergence,
    purge_selected: bool,
) -> (decision: (Option<CompactionKind>, bool))
    ensures
        decision == gate(options@, uniformly_compacted, *checkpoints, journal, purge_selected),
{
    match options.compaction_kind() {
        None => (None, false),
        Some(kind) => {
            let converged = uniformly_compacted && checkpoints.names.len() == 0
                && journal.single_line_naming_head && !purge_selected;
            if converged && !options.always_copy() {
                (None, true)
            } else {
                (Some(kind), converged)
            }
        },
    }
}

/// A content omission forces the copy, however compact the store is: a selected
/// compaction with a checkpoint or a version history to omit is performed.
pub proof fn law_content_omissions_force_the_copy(
    options: OptionsView,
    uniformly_compacted: bool,
    checkpoints: CheckpointPlan,
    journal: JournalConvergence,
    purge_selected: bool,
)
    requires
        checkpoints.names@.len() > 0 || purge_selected,
    ensures
        gate(options, uniformly_compacted, checkpoints, journal, purge_selected) == (
            options.compaction_kind,
            false,
        ),
{
}

/// A copy is dropped only from a store that a completed compaction left, and
/// never when the options ask for it regardless.
pub proof fn law_only_a_converged_store_drops_the_copy(
    options: OptionsView,
    uniformly_compacted: bool,
    checkpoints: CheckpointPlan,
    journal: JournalConvergence,
    purge_selected: bool,
)
    requires
        options.compaction_kind is Some,
        gate(options, uniformly_compacted, checkpoints, journal, purge_selected).0 is None,
    ensures
        uniformly_compacted,
        checkpoints.names@.len() == 0,
        journal.single_line_naming_head,
        !purge_selected,
        !options.always_copy,
        gate(options, uniformly_compacted, checkpoints, journal, purge_selected).1,
{
}

/// Garbage never hides behind convergence: where a copy is dropped from a store
/// with its index and the segments are selected, they are swept without it.
pub proof fn law_a_dropped_copy_is_swept_instead(
    options: OptionsView,
    uniformly_compacted: bool,
    checkpoints: CheckpointPlan,
    journal: JournalConvergence,
    purge_selected: bool,
)
    requires
        options.compaction_kind is Some,
        options.tasks.contains(MaintenanceTask::Segments),
        gate(options, uniformly_compacted, checkpoints, journal, purge_selected).0 is None,
    ensures
        sweeps_standalone(
            true,
            options,
            gate(options, uniformly_compacted, checkpoints, journal, purge_selected).0,
        ),
{
}

/// The rule under which an interrupted run's residue is retired.
///
/// So many retained generations that nothing is reclaimed by age: what is left
/// are the compacted entries positioned after the head, and bulk segments that
/// nothing points at.
pub open spec fn residue_rule(reference: GarbageCollectionGeneration) -> ReclaimRule {
    ReclaimRule { reference, kind: CompactionKind::Full, retained_generations: i32::MAX }
}

/// The rule of the sweep that retires residue, when there is any.
pub fn residue_sweep_rule(
    index_available: bool,
    residue_segments: usize,
    reference: GarbageCollectionGeneration,
) -> (rule: Option<ReclaimRule>)
    ensures
        rule == if index_available && residue_segments != 0 {
            Some(residue_rule(reference))
        } else {
            None
        },
{
    if index_available && residue_segments != 0 {
        Some(
            ReclaimRule { reference, kind: CompactionKind::Full, retained_generations: i32::MAX },
        )
    } else {
        None
    }
}

/// The rule of the sweep that follows a copy.
pub open spec fn copy_rule(
    reference: GarbageCollectionGeneration,
    kind: CompactionKind,
    retained_generations: i32,
) -> ReclaimRule {
    ReclaimRule {
        reference: reclamation::target_generation(reference, kind),
        kind,
        retained_generations,
    }
}

/// The rule of the sweep that follows a copy, when one runs: judged against the
/// generation that the copy creates.
pub fn predicted_sweep_rule(
    effective_compaction_kind: Option<CompactionKind>,
    index_available: bool,
    reference: GarbageCollectionGeneration,
    retained_generations: i32,
) -> (rule: Option<ReclaimRule>)
    ensures
        rule == match effective_compaction_kind {
            Some(kind) => if index_available {
                Some(copy_rule(reference, kind, retained_generations))
            } else {
                None
            },
            None => None,
        },
{
    match effective_compaction_kind {
        Some(kind) => if index_available {
            Some(
                ReclaimRule {
                    reference: compaction_target_generation(reference, kind),
                    kind,
                    retained_generations,
                },
            )
        } else {
            None
        },
        None => None,
    }
}

/// The names of stale archives.
pub open spec fn stale_names(stale_archives: Seq<StaleArchive>) -> Seq<Seq<char>> {
    stale_archives.map_values(|stale: StaleArchive| stale.file_name@)
}

/// The archives that will be gone when the copy's own sweep runs.
pub fn absent_archives(stale_archives: &Vec<StaleArchive>) -> (names: Vec<String>)
    ensures
        text::texts(names@) == stale_names(stale_archives@),
{
    let mut names: Vec<String> = Vec::new();
    let mut index: usize = 0;
    assert(text::texts(names@) =~= stale_names(stale_archives@.take(0)));
    while index < stale_archives.len()
        invariant
            index <= stale_archives@.len(),
            text::texts(names@) == stale_names(stale_archives@.take(index as int)),
        decreases stale_archives@.len() - index,
    {
        let ghost before = text::texts(names@);
        names.push(stale_archives[index].file_name.clone());
        proof {
            assert(text::texts(names@) =~= before.push(
                stale_archives@[index as int].file_name@,
            ));
            assert(stale_names(stale_archives@.take(index as int + 1)) =~= before.push(
                stale_archives@[index as int].file_name@,
            ));
        }
        index = index + 1;
    }
    assert(stale_archives@.take(index as int) =~= stale_archives@);
    names
}

/// What a sweep does, counted.
#[derive(Clone, Copy, Debug, PartialEq, Eq, Structural)]
pub struct SweepTally {
    /// Archives that go whole.
    pub removed_archives: u64,
    /// The bytes of those files.
    pub removed_bytes: u64,
    /// Archives that are rewritten.
    pub rewritten_archives: u64,
    /// The bytes of the entries that go from those.
    pub rewritten_entry_bytes: u64,
}

/// What a sweep does, counted: bytes up to the largest number that fits.
pub open spec fn tally_of(archives: Seq<PlannedArchiveSweep>) -> SweepTally
    decreases archives.len(),
{
    if archives.len() == 0 {
        SweepTally {
            removed_archives: 0,
            removed_bytes: 0,
            rewritten_archives: 0,
            rewritten_entry_bytes: 0,
        }
    } else {
        let earlier = tally_of(archives.drop_last());
        match archives.last() {
            PlannedArchiveSweep::Remove { file_bytes, .. } => SweepTally {
                removed_archives: (earlier.removed_archives + 1) as u64,
                removed_bytes: history::saturated(earlier.removed_bytes, file_bytes),
                ..earlier
            },
            PlannedArchiveSweep::Rewrite { eligible_entry_bytes, .. } => SweepTally {
                rewritten_archives: (earlier.rewritten_archives + 1) as u64,
                rewritten_entry_bytes: history::saturated(
                    earlier.rewritten_entry_bytes,
                    eligible_entry_bytes,
                ),
                ..earlier
            },
            _ => earlier,
        }
    }
}

/// Counts what a sweep does.
pub fn tally_sweep(predicted: &SegmentCompactionPlan) -> (tally: SweepTally)
    ensures
        tally == tally_of(predicted.archives@),
        tally.removed_archives + tally.rewritten_archives <= predicted.archives@.len(),
{
    let mut tally = SweepTally {
        removed_archives: 0,
        removed_bytes: 0,
        rewritten_archives: 0,
        rewritten_entry_bytes: 0,
    };
    let mut index: usize = 0;
    assert(predicted.archives@.take(0) =~= Seq::empty());
    while index < predicted.archives.len()
        invariant
            index <= predicted.archives@.len(),
            tally == tally_of(predicted.archives@.take(index as int)),
            tally.removed_archives + tally.rewritten_archives <= index,
        decreases predicted.archives@.len() - index,
    {
        proof {
            let longer = predicted.archives@.take(index as int + 1);
            assert(longer.drop_last() =~= predicted.archives@.take(index as int));
            assert(longer.last() == predicted.archives@[index as int]);
        }
        match &predicted.archives[index] {
            PlannedArchiveSweep::Remove { file_bytes, .. } => {
                tally.removed_archives = tally.removed_archives + 1;
                tally.removed_bytes = tally.removed_bytes.saturating_add(*file_bytes);
            },
            PlannedArchiveSweep::Rewrite { eligible_entry_bytes, .. } => {
                tally.rewritten_archives = tally.rewritten_archives + 1;
                tally.rewritten_entry_bytes = tally.rewritten_entry_bytes.saturating_add(
                    *eligible_entry_bytes,
                );
            },
            _ => {},
        }
        index = index + 1;
    }
    assert(predicted.archives@.take(index as int) =~= predicted.archives@);
    tally
}

/// How an operator reads the four figures of a sweep.
#[derive(Debug)]
pub struct SweepFigures<'a> {
    /// The number of archives that go whole.
    pub removed_count: &'a str,
    /// Their size.
    pub removed_size: &'a str,
    /// The number of archives that are rewritten.
    pub rewritten_count: &'a str,
    /// The size of the entries that go from those.
    pub rewritten_size: &'a str,
}

/// Archives, with their number.
pub open spec fn archives_phrase(count: u64, rendered: Seq<char>) -> Seq<char> {
    rendered + if count == 1 {
        " archive"@
    } else {
        " archives"@
    }
}

/// One clause on a predicted sweep.
pub open spec fn sweep_text(
    tally: SweepTally,
    removed_count: Seq<char>,
    removed_size: Seq<char>,
    rewritten_count: Seq<char>,
    rewritten_size: Seq<char>,
) -> Seq<char> {
    let removes = "removes "@ + archives_phrase(tally.removed_archives, removed_count) + " ("@
        + removed_size + ")"@;
    let rewrites = "rewrites "@ + archives_phrase(tally.rewritten_archives, rewritten_count)
        + " ("@ + rewritten_size + " of entries)"@;
    if tally.removed_archives == 0 && tally.rewritten_archives == 0 {
        "the sweep has nothing to reclaim"@
    } else if tally.rewritten_archives == 0 {
        "the sweep "@ + removes
    } else if tally.removed_archives == 0 {
        "the sweep "@ + rewrites
    } else {
        "the sweep "@ + removes + " and "@ + rewrites
    }
}

fn push_archives(text: &mut String, verb: &str, count: u64, rendered: &str, size: &str)
    ensures
        final(text)@ == old(text)@ + verb@ + archives_phrase(count, rendered@) + " ("@ + size@,
{
    let ghost before = text@;
    text.append(verb);
    text.append(rendered);
    if count == 1 {
        text.append(" archive");
    } else {
        text.append(" archives");
    }
    text.append(" (");
    text.append(size);
    assert(text@ =~= before + verb@ + archives_phrase(count, rendered@) + " ("@ + size@);
}

/// One clause summarising a predicted sweep: which archives go whole, which are
/// rewritten, and how many bytes each disposition frees.
pub fn predicted_sweep_conclusion(tally: SweepTally, figures: &SweepFigures<'_>) -> (conclusion:
    String)
    ensures
        conclusion@ == sweep_text(
            tally,
            figures.removed_count@,
            figures.removed_size@,
            figures.rewritten_count@,
            figures.rewritten_size@,
        ),
{
    let mut conclusion = String::new();
    if tally.removed_archives == 0 && tally.rewritten_archives == 0 {
        conclusion.append("the sweep has nothing to reclaim");
    } else {
        conclusion.append("the sweep ");
        if tally.removed_archives != 0 {
            push_archives(
                &mut conclusion,
                "removes ",
                tally.removed_archives,
                figures.removed_count,
                figures.removed_size,
            );
            conclusion.append(")");
            if tally.rewritten_archives != 0 {
                conclusion.append(" and ");
            }
        }
        if tally.rewritten_archives != 0 {
            push_archives(
                &mut conclusion,
                "rewrites ",
                tally.rewritten_archives,
                figures.rewritten_count,
                figures.rewritten_size,
            );
            conclusion.append(" of entries)");
        }
    }
    assert(conclusion@ =~= sweep_text(
        tally,
        figures.removed_count@,
        figures.removed_size@,
        figures.rewritten_count@,
        figures.rewritten_size@,
    ));
    conclusion
}

/// Whether a sweep without a copy is planned.
pub open spec fn sweeps_standalone(
    index_available: bool,
    options: OptionsView,
    effective_compaction_kind: Option<CompactionKind>,
) -> bool {
    index_available && options.tasks.contains(MaintenanceTask::Segments)
        && effective_compaction_kind is None
}

/// Whether a sweep without a copy is planned.
///
/// Such a sweep judges every segment against the current head's generation. A
/// run that copies the head supersedes that reference before a single archive
/// is touched, so the copy's own pass sweeps instead.
pub fn standalone_sweep_planned(
    index_available: bool,
    options: &CompactionOptions,
    effective_compaction_kind: Option<CompactionKind>,
) -> (planned: bool)
    ensures
        planned == sweeps_standalone(index_available, options@, effective_compaction_kind),
{
    index_available && options.contains(MaintenanceTask::Segments)
        && effective_compaction_kind.is_none()
}

/// The data segments among some segments.
pub open spec fn data_among(segments: Seq<SegmentIdentifier>) -> Seq<SegmentIdentifier>
    decreases segments.len(),
{
    if segments.len() == 0 {
        Seq::empty()
    } else if segments.last().names_data() {
        data_among(segments.drop_last()).push(segments.last())
    } else {
        data_among(segments.drop_last())
    }
}

/// How many of some data segments another closure does not hold.
pub open spec fn outside_count(
    segments: Seq<SegmentIdentifier>,
    head: Seq<SegmentIdentifier>,
) -> nat
    decreases segments.len(),
{
    if segments.len() == 0 {
        0
    } else {
        outside_count(segments.drop_last(), head) + if segments.last().names_data()
            && !head.contains(segments.last()) {
            1nat
        } else {
            0nat
        }
    }
}

proof fn lemma_data_among(segments: Seq<SegmentIdentifier>)
    ensures
        forall|segment: SegmentIdentifier| #[trigger]
            data_among(segments).contains(segment) <==> segment.names_data() && segments.contains(
                segment,
            ),
    decreases segments.len(),
{
    if segments.len() > 0 {
        let rest = segments.drop_last();
        let last = segments.last();
        lemma_data_among(rest);
        assert forall|segment: SegmentIdentifier| #[trigger]
            data_among(segments).contains(segment) <==> segment.names_data() && segments.contains(
                segment,
            ) by {
            let all = data_among(segments);
            let earlier = data_among(rest);
            assert(segments[segments.len() - 1] == last);
            if rest.contains(segment) {
                let i = choose|i: int| 0 <= i < rest.len() && rest[i] == segment;
                assert(segments[i] == segment);
            }
            if segments.contains(segment) && segment != last {
                let i = choose|i: int| 0 <= i < segments.len() && segments[i] == segment;
                assert(rest[i] == segment);
            }
            if earlier.contains(segment) {
                let i = choose|i: int| 0 <= i < earlier.len() && earlier[i] == segment;
                assert(all[i] == segment);
            }
            if last.names_data() {
                assert(all[earlier.len() as int] == last);
                if all.contains(segment) && segment != last {
                    let i = choose|i: int| 0 <= i < all.len() && all[i] == segment;
                    assert(earlier[i] == segment);
                }
            }
        }
    }
}

/// The data segments that the retained journal history or the head reaches,
/// and how many of them the head does not: what the history alone protects.
pub fn protect_history(head: &SegmentSet, retained: &SegmentSet) -> (protected: (
    SegmentSet,
    usize,
))
    requires
        head.well_formed(),
        retained.well_formed(),
    ensures
        protected.0.well_formed(),
        protected.0.listed() == data_among(retained.listed()),
        protected.1 == outside_count(retained.listed(), head.listed()),
{
    let ghost all = retained.listed();
    let mut protected = SegmentSet::new();
    let mut outside: usize = 0;
    let mut index: usize = 0;
    assert(all.take(0) =~= Seq::empty());
    while index < retained.len()
        invariant
            head.well_formed(),
            retained.well_formed(),
            all == retained.listed(),
            index <= all.len(),
            protected.well_formed(),
            protected.listed() == data_among(all.take(index as int)),
            outside <= index,
            outside == outside_count(all.take(index as int), head.listed()),
        decreases all.len() - index,
    {
        let segment = retained.get(index);
        proof {
            let longer = all.take(index as int + 1);
            assert(longer.drop_last() =~= all.take(index as int));
            assert(longer.last() == segment);
        }
        if segment.is_data_segment() {
            proof {
                lemma_data_among(all.take(index as int));
                retained.lemma_no_duplicates();
                if protected.has(segment) {
                    assert(all.take(index as int).contains(segment));
                    let i = choose|i: int|
                        0 <= i < index && all.take(index as int)[i] == segment;
                    assert(all[i] == all[index as int]);
                }
            }
            protected.insert(segment);
            if !head.contains(segment) {
                outside = outside + 1;
            }
        }
        index = index + 1;
    }
    assert(all.take(index as int) =~= all);
    (protected, outside)
}

/// Numbers subtracted, down to zero.
pub open spec fn less(left: int, right: int) -> int {
    if left >= right {
        left - right
    } else {
        0
    }
}

/// What the journal history's protection costs: what the same sweep would free
/// with the protection lifted, less what it frees.
pub fn price_history_protection(
    history_only_segments: usize,
    unvetoed: (usize, u64),
    vetoed: (usize, u64),
) -> (protection: HistoryProtection)
    ensures
        protection.history_only_segments == history_only_segments,
        protection.would_be_reclaimable_segments == less(unvetoed.0 as int, vetoed.0 as int),
        protection.would_be_reclaimable_bytes == less(unvetoed.1 as int, vetoed.1 as int),
{
    HistoryProtection {
        history_only_segments,
        would_be_reclaimable_segments: unvetoed.0.saturating_sub(vetoed.0),
        would_be_reclaimable_bytes: unvetoed.1.saturating_sub(vetoed.1),
    }
}

} // verus!
