//! What the stages of a run and of a survey may change, and what they leave alone.
use vstd::prelude::*;
use vstd::string::*;
use crate::apply::run;
use crate::apply::run::{ApplyRun, TargetView};
use crate::apply::session;
use crate::apply::session::ApplyStage;
use crate::file_removal::{PlannedFileRemovalFailureMode, PlannedFileRemovals};
use crate::identifier::{CompactionKind, GarbageCollectionGeneration};
use crate::laws::texts;
use crate::order;
use crate::plan::CompactionPlan;
use crate::planning::segments;
use crate::planning::shape;
use crate::planning::state::RepositorySurvey;
use crate::planning::version_storage;
use crate::planning::version_storage::Intermediate;
use crate::planning::{FileFingerprint, StaleArchive};

verus! {

/// A stage changes the store exactly if it does more than check, read, measure, prove,
/// or make durable.
pub proof fn law_other_stages_only_look(stage: ApplyStage)
    ensures
        session::mutates(stage) <==> !(stage is CheckDirectory || stage is ReadCycleLog
            || stage is MeasureArchives || stage is CertifySources || stage is ProveArchiveLock
            || stage is VerifyCycleLog || stage is VerifyStore || stage is ProveRecoveryLock
            || stage is SyncDirectory || stage is MeasureResult || stage is Finished),
{
}

/// A stage proves the lock itself exactly if it changes the store and does not merely
/// remove files, a journal only where it is replaced; or if that proof is what the stage
/// is for.
pub proof fn law_changes_prove_the_lock_themselves(stage: ApplyStage, journal_changes: bool)
    ensures
        session::holds_lock_proof(stage, journal_changes) <==> {
            ||| stage is CheckDirectory
            ||| stage is ProveArchiveLock
            ||| stage is ProveRecoveryLock
            ||| session::mutates(stage) && !(stage is RemoveStaleArchives || stage
                is RemoveTemporaries || stage is RemoveRecoveryBackups) && (stage
                is RewriteJournal ==> journal_changes)
        },
{
}

/// To decide about the journal changes nothing else of a run.
pub proof fn law_deciding_about_the_journal_changes_nothing_else(
    after: &ApplyRun<'_>,
    before: &ApplyRun<'_>,
)
    requires
        after.decides_after(before),
    ensures
        after.plan() == before.plan(),
        after.options() == before.options(),
        after.retained_generations() == before.retained_generations(),
        after.stage() == before.stage(),
        after.expected_head() == before.expected_head(),
        after.cycle_log() == before.cycle_log(),
        after.findings() == before.findings(),
        after.proved_journal() == before.proved_journal(),
{
}

/// A run goes on with the plan and the options it began with, to the next stage that is
/// called for and never back; and what it decided about the journal stays.
pub proof fn law_a_run_goes_on_as_it_began(after: &ApplyRun<'_>, before: &ApplyRun<'_>)
    requires
        after.continues(before),
    ensures
        after.plan() == before.plan(),
        after.options() == before.options(),
        after.retained_generations() == before.retained_generations(),
        session::rank(before.stage()) < session::rank(after.stage()),
        before.demands().calls_for(after.stage()),
        after.decided_journal() == before.decided_journal(),
        !(before.stage() is VerifyStore) ==> after.proved_journal() == before.proved_journal(),
        run::is_past(after.stage(), before.stage()),
        !run::is_past(before.stage(), after.stage()),
        !run::is_past(after.stage(), after.stage()),
{
}

/// A finished removal has visited every one of its targets, and its targets are those
/// that were planned, name by name and size by size.
pub proof fn law_a_finished_removal_has_seen_all_its_targets(
    removals: PlannedFileRemovals,
    targets: Seq<TargetView>,
    mode: PlannedFileRemovalFailureMode,
)
    requires
        run::is_finished_removal(removals, targets, mode),
    ensures
        removals.mode() == mode,
        removals@.position == targets.len(),
        removals.files().len() == targets.len(),
        forall|i: int|
            0 <= i < targets.len() ==> (#[trigger] targets[i]).file_name
                == removals.files()[i].file_name@ && targets[i].bytes == removals.files()[i].bytes
                && targets[i].fingerprint == removals.files()[i].fingerprint@,
{
    assert forall|i: int| 0 <= i < targets.len() implies (#[trigger] targets[i]).file_name
        == removals.files()[i].file_name@ && targets[i].bytes == removals.files()[i].bytes
        && targets[i].fingerprint == removals.files()[i].fingerprint@ by {
        assert(run::target_views(removals.files())[i] == targets[i]);
    }
}

/// Looking for repairs or checkpoints leaves what a survey knows of the journal.
pub proof fn law_a_survey_keeps_the_journal(
    after: &RepositorySurvey<'_>,
    before: &RepositorySurvey<'_>,
)
    requires
        after.keeps_journal(before),
    ensures
        after.options() == before.options(),
        after.state().raw_journal == before.state().raw_journal,
        after.state().journal_analysis == before.state().journal_analysis,
{
}

/// A copy is of the planned generation exactly if it is marked as written by a
/// compaction, counts one generation on from the reference, and counts one full
/// generation on if and only if the copy is full.
pub proof fn law_a_copy_counts_on_from_the_reference(
    plan: &CompactionPlan,
    generation: GarbageCollectionGeneration,
    kind: CompactionKind,
)
    requires
        plan.effective_compaction_kind == Some(kind),
        plan.reference_generation.generation < 0x7fff_ffff,
        plan.reference_generation.full_generation < 0x7fff_ffff,
    ensures
        plan.writes(generation) <==> {
            &&& generation.is_compacted
            &&& generation.generation == plan.reference_generation.generation + 1
            &&& generation.full_generation == plan.reference_generation.full_generation + (if kind
                is Full {
                1int
            } else {
                0int
            })
        },
{
}

/// Without a copy no generation is the one that a copy writes.
pub proof fn law_without_a_copy_nothing_is_written(
    plan: &CompactionPlan,
    generation: GarbageCollectionGeneration,
)
    requires
        plan.effective_compaction_kind is None,
    ensures
        !plan.writes(generation),
{
}

/// The entries of a directory are in order exactly if no entry comes behind one whose
/// name has a greater byte where the two first differ, or continues its name.
pub proof fn law_entries_are_in_order_of_their_names(entries: Seq<FileFingerprint>)
    ensures
        shape::sorted_by_name(entries) <==> forall|i: int, j: int|
            0 <= i < j < entries.len() ==> {
                ||| (#[trigger] entries[i]).name@ == (#[trigger] entries[j]).name@
                ||| order::bytes_less(entries[i].name@, entries[j].name@)
            },
        forall|left: Seq<u8>, right: Seq<u8>| #[trigger]
            order::bytes_less(left, right) <==> {
                ||| exists|place: int| #[trigger]
                    texts::differ_first(left, right, place) && left[place] < right[place]
                ||| left.len() < right.len() && forall|i: int|
                    0 <= i < left.len() ==> left[i] == right[i]
            },
{
    assert forall|left: Seq<u8>, right: Seq<u8>| #[trigger]
        order::bytes_less(left, right) <==> {
            ||| exists|place: int| #[trigger]
                texts::differ_first(left, right, place) && left[place] < right[place]
            ||| left.len() < right.len() && forall|i: int|
                0 <= i < left.len() ==> left[i] == right[i]
        } by {
        texts::law_the_first_difference_decides(left, right);
    }
    assert forall|i: int, j: int| 0 <= i < j < entries.len() implies (!order::bytes_less(
        (#[trigger] entries[j]).name@,
        (#[trigger] entries[i]).name@,
    ) <==> {
        ||| entries[i].name@ == entries[j].name@
        ||| order::bytes_less(entries[i].name@, entries[j].name@)
    }) by {
        order::lemma_bytes_total(entries[i].name@, entries[j].name@);
    }
}

/// Nodes and archives are listed each at its place, under its own path or name.
pub proof fn law_lists_keep_their_places(
    nodes: Seq<Intermediate>,
    archives: Seq<StaleArchive>,
    place: int,
)
    ensures
        version_storage::intermediate_views(nodes).len() == nodes.len(),
        0 <= place < nodes.len() ==> version_storage::intermediate_views(nodes)[place] == (
            nodes[place].path@,
            nodes[place].record,
        ),
        segments::stale_names(archives).len() == archives.len(),
        0 <= place < archives.len() ==> segments::stale_names(archives)[place]
            == archives[place].file_name@,
{
}

/// A run has copied once it is past the stage that copies, and only where a copy was
/// called for; and so for the removal of checkpoints. The copied head is the one that
/// the copy left.
pub proof fn law_a_run_has_done_what_it_is_past(state: &ApplyRun<'_>)
    ensures
        state.has_copied() <==> state.demands().copies_head && session::rank(state.stage())
            > session::rank(ApplyStage::CopyHead),
        state.has_removed_checkpoints() <==> state.demands().removes_checkpoints && session::rank(
            state.stage(),
        ) > session::rank(ApplyStage::RemoveCheckpoints),
        state.copied_head() is Some <==> state.findings().compaction is Some,
        state.findings().compaction matches Some(phase) ==> state.copied_head() == Some(
            phase.head_after,
        ),
{
}

} // verus!
