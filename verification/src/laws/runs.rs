//! What a run takes on, in which order, and what its outcome states.
use vstd::prelude::*;
use vstd::string::*;
use vstd::utf8::*;
use crate::apply::compaction_phase;
use crate::apply::failures;
use crate::apply::failures::SegmentDeletionFailure;
use crate::apply::journal_phase;
use crate::apply::journal_phase::JournalWork;
use crate::apply::session;
use crate::apply::session::{ApplyFindings, ApplyStage};
use crate::identifier::{CompactionKind, RecordIdentifier, SegmentIdentifier};
use crate::journal::analysis::{JournalAnalysis, JournalPlan};
use crate::journal::proofs;
use crate::journal::scan::RawJournal;
use crate::laws::journal;
use crate::options::{MaintenanceTask, OptionsView};
use crate::order;
use crate::plan;
use crate::plan::{CompactionOutcome, CompactionPlan, DeletionFailureView, FileDeletionFailureKind};
use crate::planning::segment_work;
use crate::planning::segment_work::{SegmentStage, SegmentWorkInputs};
use crate::planning::state;
use crate::planning::state::SurveyStage;
use crate::planning::survey;
use crate::planning::survey::DuplicateCheck;
use crate::planning::{CheckpointPlan, RepositoryState, SegmentCompactionPlan};
use crate::text;

verus! {

/// A run takes a stage of its own for everything that its plan holds and its options
/// select, and for nothing else: the manifest, each sweep, the copy, the checkpoints
/// where nothing is copied, and the three kinds of files.
pub proof fn law_a_stage_takes_place_exactly_if_asked_for(
    plan: CompactionPlan,
    options: OptionsView,
)
    ensures
        ({
            let demands = session::demands_of(plan, options);
            &&& demands.calls_for(ApplyStage::UpgradeManifest) == plan.manifest_upgrade
            &&& demands.calls_for(ApplyStage::SweepSegments) == (plan.segment_plan is Some)
            &&& demands.calls_for(ApplyStage::SweepResidue) == (plan.residue_sweep is Some)
            &&& demands.calls_for(ApplyStage::CopyHead) == (plan.effective_compaction_kind is Some)
            &&& demands.calls_for(ApplyStage::RemoveCheckpoints) == (
            plan.effective_compaction_kind is None && plan.checkpoints.names@.len() > 0)
            &&& demands.calls_for(ApplyStage::RemoveStaleArchives) == options.tasks.contains(
                MaintenanceTask::StaleArchives,
            )
            &&& demands.calls_for(ApplyStage::RemoveTemporaries) == options.tasks.contains(
                MaintenanceTask::StaleTemporaries,
            )
            &&& demands.calls_for(ApplyStage::RemoveRecoveryBackups) == options.tasks.contains(
                MaintenanceTask::RecoveryBackups,
            )
            &&& demands.calls_for(ApplyStage::CertifySources) == (plan.segment_plan is Some
                && plan.manifest_upgrade)
            &&& demands.calls_for(ApplyStage::CheckDirectory)
            &&& demands.calls_for(ApplyStage::RewriteJournal)
            &&& demands.calls_for(ApplyStage::VerifyCycleLog)
            &&& demands.calls_for(ApplyStage::VerifyStore)
            &&& demands.calls_for(ApplyStage::SyncDirectory)
        }),
{
}

/// The stages come in one order: the checks, the manifest, the sweep without a copy,
/// the stale archives, the residue, the copy, the checkpoints, the journal, the
/// proofs, the recovery material, and the durability of it all.
pub proof fn law_stages_come_in_one_order()
    ensures
        session::rank(ApplyStage::CheckDirectory) < session::rank(ApplyStage::ReadCycleLog)
            < session::rank(ApplyStage::MeasureArchives) < session::rank(
            ApplyStage::CertifySources,
        ) < session::rank(ApplyStage::UpgradeManifest) < session::rank(ApplyStage::SweepSegments)
            < session::rank(ApplyStage::ProveArchiveLock) < session::rank(
            ApplyStage::RemoveStaleArchives,
        ) < session::rank(ApplyStage::SweepResidue) < session::rank(ApplyStage::CopyHead)
            < session::rank(ApplyStage::RemoveCheckpoints) < session::rank(
            ApplyStage::RewriteJournal,
        ) < session::rank(ApplyStage::VerifyCycleLog) < session::rank(ApplyStage::VerifyStore)
            < session::rank(ApplyStage::ProveRecoveryLock) < session::rank(
            ApplyStage::RemoveTemporaries,
        ) < session::rank(ApplyStage::RemoveRecoveryBackups) < session::rank(
            ApplyStage::SyncDirectory,
        ) < session::rank(ApplyStage::MeasureResult) < session::rank(ApplyStage::Finished),
{
}

/// An outcome counts the archives and segments of the sweep that followed the copy,
/// where there was a copy, and otherwise those of the sweep without one; and it states
/// a fresh generation exactly if there was a copy.
pub proof fn law_an_outcome_counts_the_sweep_that_ran(
    outcome: CompactionOutcome,
    findings: ApplyFindings,
)
    requires
        session::concludes(outcome, findings),
    ensures
        match findings.compaction {
            Some(phase) => {
                &&& outcome.rewritten_archives == phase.sweep.rewritten_archives
                &&& outcome.removed_reclaimable_archives == phase.sweep.removed_archives
                &&& outcome.removed_segments == phase.sweep.removed_segments
                &&& outcome.compacted is Some
                &&& outcome.compacted->0.nodes == phase.copied_nodes
                &&& outcome.compacted->0.generation == phase.target_generation
            },
            None => {
                &&& outcome.rewritten_archives == findings.segment_counts.rewritten_archives
                &&& outcome.removed_reclaimable_archives
                    == findings.segment_counts.removed_archives
                &&& outcome.removed_segments == findings.segment_counts.removed_segments
                &&& outcome.compacted is None
            },
        },
        outcome.head_before == findings.head_before,
        outcome.head_after == findings.head_after,
        outcome.removed_checkpoints == findings.removed_checkpoints,
        outcome.removed_journal_lines == findings.journal.removed_line_count,
        outcome.journal_backup_path == findings.journal.backup_path,
        outcome.removed_stale_archives == findings.stale_archives.0,
        outcome.removed_temporaries == findings.temporaries.0,
        outcome.removed_recovery_backups == findings.recovery_backups.0,
        outcome.repaired_archives == findings.repaired_archives,
        outcome.archive_bytes_before == findings.archive_bytes_before,
        outcome.archive_bytes_after == findings.archive_bytes_after,
        outcome.retained_recovery_backup_bytes == findings.retained_recovery_backup_bytes,
{
}

/// An outcome reports exactly the deletions that any stage reported as not achieved,
/// and names exactly the files that they are about.
pub proof fn law_every_failed_deletion_is_reported(
    outcome: CompactionOutcome,
    findings: ApplyFindings,
    failure: DeletionFailureView,
)
    requires
        session::concludes(outcome, findings),
    ensures
        plan::failure_views(outcome.deletion_failures@).contains(failure) <==> {
            ||| exists|i: int|
                0 <= i < findings.segment_failures@.len() && stated(
                    #[trigger] findings.segment_failures@[i],
                ) == failure
            ||| plan::failure_views(findings.stale_archives.1@).contains(failure)
            ||| plan::failure_views(findings.temporaries.1@).contains(failure)
            ||| plan::failure_views(findings.recovery_backups.1@).contains(failure)
        },
{
    let segments = failures::translated(findings.segment_failures@);
    let stale = plan::failure_views(findings.stale_archives.1@);
    let temporaries = plan::failure_views(findings.temporaries.1@);
    let backups = plan::failure_views(findings.recovery_backups.1@);
    let all = segments + stale + temporaries + backups;
    lemma_collected(all, failure);
    lemma_joined(segments + stale + temporaries, backups, failure);
    lemma_joined(segments + stale, temporaries, failure);
    lemma_joined(segments, stale, failure);
    if segments.contains(failure) {
        let i = choose|i: int| 0 <= i < segments.len() && segments[i] == failure;
        assert(stated(findings.segment_failures@[i]) == failure);
    }
    if exists|i: int|
        0 <= i < findings.segment_failures@.len() && stated(
            #[trigger] findings.segment_failures@[i],
        ) == failure {
        let i = choose|i: int|
            0 <= i < findings.segment_failures@.len() && stated(
                #[trigger] findings.segment_failures@[i],
            ) == failure;
        assert(segments[i] == failure);
    }
}

/// What an outcome states of a deletion that a sweep did not achieve: a target that
/// was gone before is told from one that is still there.
pub open spec fn stated(failure: SegmentDeletionFailure) -> DeletionFailureView {
    DeletionFailureView {
        file_name: failure.file_name@,
        error: failure.error@,
        kind: if failure.target_was_already_absent {
            FileDeletionFailureKind::AlreadyAbsent
        } else {
            FileDeletionFailureKind::Retained
        },
    }
}

proof fn lemma_joined(
    first: Seq<DeletionFailureView>,
    second: Seq<DeletionFailureView>,
    failure: DeletionFailureView,
)
    ensures
        (first + second).contains(failure) <==> first.contains(failure) || second.contains(
            failure,
        ),
{
    let all = first + second;
    if all.contains(failure) {
        let i = choose|i: int| 0 <= i < all.len() && all[i] == failure;
        if i < first.len() {
            assert(first[i] == failure);
        } else {
            assert(second[i - first.len()] == failure);
        }
    }
    if first.contains(failure) {
        let i = choose|i: int| 0 <= i < first.len() && first[i] == failure;
        assert(all[i] == failure);
    }
    if second.contains(failure) {
        let i = choose|i: int| 0 <= i < second.len() && second[i] == failure;
        assert(all[first.len() + i] == failure);
    }
}

proof fn lemma_placed_holds(
    sorted: Seq<DeletionFailureView>,
    failure: DeletionFailureView,
    wanted: DeletionFailureView,
)
    ensures
        failures::placed(sorted, failure).contains(wanted) <==> sorted.contains(wanted) || wanted
            == failure,
    decreases sorted.len(),
{
    let all = failures::placed(sorted, failure);
    if sorted.len() == 0 || !failures::failure_less(failure, sorted.last()) {
        lemma_pushed(sorted, failure, wanted);
    } else {
        let shorter = sorted.drop_last();
        lemma_placed_holds(shorter, failure, wanted);
        lemma_pushed(failures::placed(shorter, failure), sorted.last(), wanted);
        lemma_pushed(shorter, sorted.last(), wanted);
        assert(shorter.push(sorted.last()) =~= sorted);
    }
}

proof fn lemma_pushed(
    list: Seq<DeletionFailureView>,
    more: DeletionFailureView,
    wanted: DeletionFailureView,
)
    ensures
        list.push(more).contains(wanted) <==> list.contains(wanted) || wanted == more,
{
    let all = list.push(more);
    if list.contains(wanted) {
        let i = choose|i: int| 0 <= i < list.len() && list[i] == wanted;
        assert(all[i] == wanted);
    }
    assert(all[list.len() as int] == more);
    if all.contains(wanted) {
        let i = choose|i: int| 0 <= i < all.len() && all[i] == wanted;
        if i < list.len() {
            assert(list[i] == wanted);
        }
    }
}

proof fn lemma_collected(list: Seq<DeletionFailureView>, wanted: DeletionFailureView)
    ensures
        failures::collected(list).contains(wanted) <==> list.contains(wanted),
{
    lemma_sorted_holds(list, wanted);
    lemma_without_repeats(failures::sorted_failures(list), wanted);
}

proof fn lemma_sorted_holds(list: Seq<DeletionFailureView>, wanted: DeletionFailureView)
    ensures
        failures::sorted_failures(list).contains(wanted) <==> list.contains(wanted),
    decreases list.len(),
{
    if list.len() > 0 {
        let shorter = list.drop_last();
        lemma_sorted_holds(shorter, wanted);
        lemma_placed_holds(failures::sorted_failures(shorter), list.last(), wanted);
        lemma_pushed(shorter, list.last(), wanted);
        assert(shorter.push(list.last()) =~= list);
    } else {
        assert(!list.contains(wanted));
        assert(!failures::sorted_failures(list).contains(wanted));
    }
}

proof fn lemma_without_repeats(list: Seq<DeletionFailureView>, wanted: DeletionFailureView)
    ensures
        failures::without_repeats(list).contains(wanted) <==> list.contains(wanted),
        list.len() > 0 ==> failures::without_repeats(list).len() > 0
            && failures::without_repeats(list).last() == list.last(),
    decreases list.len(),
{
    if list.len() > 1 {
        let shorter = list.drop_last();
        lemma_without_repeats(shorter, wanted);
        lemma_pushed(shorter, list.last(), wanted);
        lemma_pushed(failures::without_repeats(shorter), list.last(), wanted);
        assert(shorter.push(list.last()) =~= list);
        if list.last() == list[list.len() - 2] {
            assert(shorter[shorter.len() - 1] == list.last());
            assert(shorter.contains(list.last()));
        }
    }
}

proof fn lemma_less(
    first: DeletionFailureView,
    second: DeletionFailureView,
    third: DeletionFailureView,
)
    ensures
        !failures::failure_less(second, first) && !failures::failure_less(third, second)
            ==> !failures::failure_less(third, first),
        failures::failure_less(first, second) ==> !failures::failure_less(second, first),
{
    order::lemma_text_total(first.file_name, second.file_name);
    order::lemma_text_total(second.file_name, third.file_name);
    order::lemma_text_total(first.file_name, third.file_name);
    order::lemma_text_total(first.error, second.error);
    order::lemma_text_total(second.error, third.error);
    order::lemma_text_total(first.error, third.error);
    if order::text_less(third.file_name, first.file_name) {
        if order::text_less(first.file_name, second.file_name) {
            order::lemma_text_transitive(third.file_name, first.file_name, second.file_name);
        }
    }
    if third.file_name == first.file_name && order::text_less(third.error, first.error) {
        if first.file_name == second.file_name {
            if order::text_less(first.error, second.error) {
                order::lemma_text_transitive(third.error, first.error, second.error);
            }
        }
    }
}

/// Whether no entry of a list comes before an earlier one, by file and then by what
/// went wrong.
pub open spec fn in_order(list: Seq<DeletionFailureView>) -> bool {
    forall|i: int, j: int|
        0 <= i < j < list.len() ==> !order::text_less(
            (#[trigger] list[j]).file_name,
            (#[trigger] list[i]).file_name,
        ) && (list[j].file_name == list[i].file_name ==> !order::text_less(
            list[j].error,
            list[i].error,
        ))
}

proof fn lemma_in_order(list: Seq<DeletionFailureView>)
    ensures
        in_order(list) <==> forall|i: int, j: int|
            0 <= i < j < list.len() ==> !failures::failure_less(
                #[trigger] list[j],
                #[trigger] list[i],
            ),
{
    if in_order(list) {
        assert forall|i: int, j: int| 0 <= i < j < list.len() implies !failures::failure_less(
            #[trigger] list[j],
            #[trigger] list[i],
        ) by {}
    }
    if forall|i: int, j: int|
        0 <= i < j < list.len() ==> !failures::failure_less(
            #[trigger] list[j],
            #[trigger] list[i],
        ) {
        assert forall|i: int, j: int| 0 <= i < j < list.len() implies !order::text_less(
            (#[trigger] list[j]).file_name,
            (#[trigger] list[i]).file_name,
        ) && (list[j].file_name == list[i].file_name ==> !order::text_less(
            list[j].error,
            list[i].error,
        )) by {
            assert(!failures::failure_less(list[j], list[i]));
        }
    }
}

proof fn lemma_placed_in_order(sorted: Seq<DeletionFailureView>, failure: DeletionFailureView)
    requires
        forall|i: int, j: int|
            0 <= i < j < sorted.len() ==> !failures::failure_less(
                #[trigger] sorted[j],
                #[trigger] sorted[i],
            ),
    ensures
        ({
            let all = failures::placed(sorted, failure);
            forall|i: int, j: int|
                0 <= i < j < all.len() ==> !failures::failure_less(
                    #[trigger] all[j],
                    #[trigger] all[i],
                )
        }),
    decreases sorted.len(),
{
    let all = failures::placed(sorted, failure);
    if sorted.len() == 0 || !failures::failure_less(failure, sorted.last()) {
        assert forall|i: int, j: int| 0 <= i < j < all.len() implies !failures::failure_less(
            #[trigger] all[j],
            #[trigger] all[i],
        ) by {
            if j == sorted.len() {
                let last = sorted.len() - 1;
                if i < last {
                    assert(!failures::failure_less(sorted[last], sorted[i]));
                    lemma_less(sorted[i], sorted[last], failure);
                }
            }
        }
    } else {
        let shorter = sorted.drop_last();
        let earlier = failures::placed(shorter, failure);
        lemma_placed_in_order(shorter, failure);
        assert forall|i: int, j: int| 0 <= i < j < all.len() implies !failures::failure_less(
            #[trigger] all[j],
            #[trigger] all[i],
        ) by {
            if j == earlier.len() {
                assert(earlier.contains(earlier[i]));
                lemma_placed_holds(shorter, failure, earlier[i]);
                if earlier[i] == failure {
                    lemma_less(failure, sorted.last(), failure);
                } else {
                    let k = choose|k: int| 0 <= k < shorter.len() && shorter[k] == earlier[i];
                    assert(sorted[k] == shorter[k]);
                    assert(!failures::failure_less(sorted[sorted.len() - 1], sorted[k]));
                }
            } else {
                assert(all[i] == earlier[i] && all[j] == earlier[j]);
            }
        }
    }
}

proof fn lemma_sorted_in_order(list: Seq<DeletionFailureView>)
    ensures
        ({
            let all = failures::sorted_failures(list);
            forall|i: int, j: int|
                0 <= i < j < all.len() ==> !failures::failure_less(
                    #[trigger] all[j],
                    #[trigger] all[i],
                )
        }),
    decreases list.len(),
{
    if list.len() > 0 {
        lemma_sorted_in_order(list.drop_last());
        lemma_placed_in_order(failures::sorted_failures(list.drop_last()), list.last());
    }
}

/// Failed deletions are reported by file, and then by what went wrong, and none stands
/// right behind its like.
pub proof fn law_failed_deletions_are_reported_in_order(list: Seq<DeletionFailureView>)
    ensures
        in_order(failures::collected(list)),
        forall|i: int|
            0 < i < failures::collected(list).len() ==> #[trigger] failures::collected(list)[i]
                != failures::collected(list)[i - 1],
{
    let sorted = failures::sorted_failures(list);
    lemma_sorted_in_order(list);
    lemma_distinct_in_order(sorted);
    lemma_in_order(failures::collected(list));
}

proof fn lemma_distinct_in_order(sorted: Seq<DeletionFailureView>)
    requires
        forall|i: int, j: int|
            0 <= i < j < sorted.len() ==> !failures::failure_less(
                #[trigger] sorted[j],
                #[trigger] sorted[i],
            ),
    ensures
        ({
            let all = failures::without_repeats(sorted);
            &&& forall|i: int, j: int|
                0 <= i < j < all.len() ==> !failures::failure_less(
                    #[trigger] all[j],
                    #[trigger] all[i],
                )
            &&& forall|i: int| 0 < i < all.len() ==> #[trigger] all[i] != all[i - 1]
        }),
    decreases sorted.len(),
{
    if sorted.len() > 1 {
        let shorter = sorted.drop_last();
        let earlier = failures::without_repeats(shorter);
        let all = failures::without_repeats(sorted);
        lemma_distinct_in_order(shorter);
        lemma_without_repeats(shorter, sorted.last());
        if sorted.last() != sorted[sorted.len() - 2] {
            assert(all == earlier.push(sorted.last()));
            assert forall|i: int, j: int| 0 <= i < j < all.len() implies !failures::failure_less(
                #[trigger] all[j],
                #[trigger] all[i],
            ) by {
                if j == earlier.len() {
                    assert(earlier.contains(earlier[i]));
                    lemma_without_repeats(shorter, earlier[i]);
                    let k = choose|k: int| 0 <= k < shorter.len() && shorter[k] == earlier[i];
                    assert(sorted[k] == earlier[i]);
                    assert(!failures::failure_less(sorted[sorted.len() - 1], sorted[k]));
                } else {
                    assert(all[i] == earlier[i] && all[j] == earlier[j]);
                }
            }
            assert forall|i: int| 0 < i < all.len() implies #[trigger] all[i] != all[i - 1] by {
                if i == earlier.len() {
                    assert(all[i - 1] == earlier.last());
                    assert(earlier.last() == shorter.last());
                    assert(shorter.last() == sorted[sorted.len() - 2]);
                } else {
                    assert(all[i] == earlier[i] && all[i - 1] == earlier[i - 1]);
                }
            }
        }
    }
}

/// A copy retires the journal's history; without one the journal is pruned where that
/// is selected, and otherwise left alone.
pub proof fn law_a_copy_retires_the_journal(
    compacted_head: Option<RecordIdentifier>,
    prunes: bool,
)
    ensures
        compacted_head matches Some(head) ==> journal_phase::work_of(compacted_head, prunes) == (
        JournalWork::RetireHistory { head }),
        compacted_head is None && prunes ==> journal_phase::work_of(compacted_head, prunes)
            == JournalWork::Prune,
        compacted_head is None && !prunes ==> journal_phase::work_of(compacted_head, prunes)
            == JournalWork::Leave,
{
}

/// After a copy the journal is as it must be exactly if its one line names the copied
/// head.
pub proof fn law_a_copy_leaves_one_line(
    raw: RawJournal,
    head: RecordIdentifier,
    prunes: bool,
    planned: JournalPlan,
    fresh: JournalAnalysis,
)
    ensures
        journal_phase::final_journal_holds(raw, Some(head), prunes, planned, fresh)
            <==> raw.listed().len() == 1 && journal::names(raw.listed()[0], head),
{
    if raw.listed().len() == 1 {
        assert(raw.listed().drop_last() =~= Seq::empty());
        assert(proofs::lines_naming(raw.listed().drop_last(), head) == 0);
        assert(raw.listed().last() == raw.listed()[0]);
    }
}

/// Without a copy the journal is as it must be exactly if every planned root is there
/// as often as planned, every planned line is there in its order, and pruning left
/// nothing to prune.
pub proof fn law_pruning_loses_no_root(
    raw: RawJournal,
    prunes: bool,
    planned: JournalPlan,
    fresh: JournalAnalysis,
)
    ensures
        journal_phase::final_journal_holds(raw, None, prunes, planned, fresh) <==> {
            &&& forall|record: RecordIdentifier| #[trigger]
                proofs::occurrences(planned.retained_record_ids@, record) <= proofs::occurrences(
                    fresh.retained_record_ids@,
                    record,
                )
            &&& prunes ==> fresh.plan.removed_lines == 0
            &&& proofs::holds_lines(
                raw.listed(),
                crate::journal::analysis::byte_views(planned.retained_raw_lines@),
            )
        },
{
    journal::law_no_root_is_lost_exactly_if_all_occur_as_often(
        planned.retained_record_ids@,
        fresh.retained_record_ids@,
    );
}

/// The log of cycles grows by exactly the line of the copy, byte for byte; without a
/// copy nothing of it changes, and none comes to be.
pub proof fn law_the_cycle_log_grows_by_the_copys_line(
    before: Option<Vec<u8>>,
    after: Option<Vec<u8>>,
    line: Seq<u8>,
)
    ensures
        compaction_phase::cycle_log_holds(before, after, None) <==> {
            ||| before is None && after is None
            ||| before is Some && after is Some && before->0@ == after->0@
        },
        compaction_phase::cycle_log_holds(before, after, Some(line)) && before is Some && after
            is Some <==> before is Some && after is Some && after->0@ == before->0@ + line,
        before is None && after is Some ==> (compaction_phase::cycle_log_holds(
            before,
            after,
            Some(line),
        ) <==> after->0@ == line),
{
    assert(Seq::<u8>::empty() + line =~= line);
}

/// What a cycle frees is by how much the archives shrank, and nothing where they grew.
pub proof fn law_a_cycle_frees_what_the_archives_lost(before: u64, after: u64)
    ensures
        before >= after ==> compaction_phase::freed(before, after) + after == before,
        before < after ==> compaction_phase::freed(before, after) == 0,
{
}

/// An output archive is certified exactly where the head moves, and duplicates are
/// looked for exactly where a sweep, stale archives or a removal of checkpoints rest on
/// there being none; only across archive numbers while an index is missing.
pub proof fn law_a_survey_asks_for_what_the_run_rests_on(
    options: OptionsView,
    checkpoints: CheckpointPlan,
    index_available: bool,
)
    ensures
        ({
            let demands = survey::demands_of(options, checkpoints, index_available);
            let needed = options.tasks.contains(MaintenanceTask::Segments)
                || options.tasks.contains(MaintenanceTask::StaleArchives)
                || checkpoints.names@.len() > 0;
            &&& demands.archive_number <==> checkpoints.names@.len() > 0
                || options.compaction_kind is Some
            &&& demands.duplicates == DuplicateCheck::Skipped <==> !needed
            &&& demands.duplicates == DuplicateCheck::Complete <==> needed && index_available
            &&& demands.duplicates == DuplicateCheck::AcrossNumbers <==> needed
                && !index_available
        }),
{
}

/// A survey goes on from its checkpoints to the output archive, from there to the
/// duplicates, and ends; what is not needed is not asked for.
pub proof fn law_a_survey_asks_in_one_order(options: OptionsView, surveyed: RepositoryState)
    ensures
        ({
            let moves = surveyed.checkpoints.names@.len() > 0 || options.compaction_kind is Some;
            let rests = options.tasks.contains(MaintenanceTask::Segments)
                || options.tasks.contains(MaintenanceTask::StaleArchives)
                || surveyed.checkpoints.names@.len() > 0;
            &&& moves ==> state::after_checkpoints(options, surveyed) == SurveyStage::ArchiveNumber
            &&& !moves ==> state::after_checkpoints(options, surveyed)
                == state::after_archive_number(options, surveyed)
            &&& rests ==> state::after_archive_number(options, surveyed)
                == SurveyStage::Duplicates
            &&& !rests ==> state::after_archive_number(options, surveyed) == SurveyStage::Finished
        }),
{
}

/// Segment work goes on from the decision over the copy to the residue, to the sweep
/// that follows a copy, to the sweep without one, and ends; what is not needed is not
/// asked for.
pub proof fn law_segment_work_asks_in_one_order(
    inputs: SegmentWorkInputs<'_>,
    kind: Option<CompactionKind>,
    residue_segments: usize,
)
    ensures
        ({
            let alone = inputs.index_available && inputs.options@.tasks.contains(
                MaintenanceTask::Segments,
            ) && kind is None;
            &&& inputs.index_available && residue_segments > 0 ==> segment_work::after_gate(
                inputs,
                kind,
                residue_segments,
            ) == SegmentStage::ResidueSweep
            &&& !(inputs.index_available && residue_segments > 0) ==> segment_work::after_gate(
                inputs,
                kind,
                residue_segments,
            ) == segment_work::after_residue(inputs, kind)
            &&& inputs.index_available && kind is Some ==> segment_work::after_residue(
                inputs,
                kind,
            ) == SegmentStage::PredictedSweep
            &&& !(inputs.index_available && kind is Some) ==> segment_work::after_residue(
                inputs,
                kind,
            ) == segment_work::after_prediction(inputs, kind)
            &&& alone ==> segment_work::after_prediction(inputs, kind)
                == SegmentStage::HistoryTrace
            &&& !alone ==> segment_work::after_prediction(inputs, kind) == SegmentStage::Finished
        }),
{
}

/// A trace of some roots starts from the segment of each of them, and from no other.
pub proof fn law_a_trace_starts_from_the_segments_of_its_roots(
    roots: Seq<RecordIdentifier>,
    segment: SegmentIdentifier,
)
    ensures
        segment_work::root_segments(roots).contains(segment) <==> exists|i: int|
            0 <= i < roots.len() && (#[trigger] roots[i]).segment == segment,
{
    let segments = segment_work::segments_of(roots);
    if segment_work::root_segments(roots).contains(segment) {
        let i = choose|i: int| 0 <= i < segments.len() && segments[i] == segment;
        assert(roots[i].segment == segment);
    }
    if exists|i: int| 0 <= i < roots.len() && (#[trigger] roots[i]).segment == segment {
        let i = choose|i: int| 0 <= i < roots.len() && (#[trigger] roots[i]).segment == segment;
        assert(segments[i] == segment);
        assert(segments.contains(segment));
    }
}

/// The manifest's staging name is reserved exactly where it is upgraded, and the
/// journal's staging and backup names where lines of it are pruned.
pub proof fn law_names_are_reserved_for_what_is_replaced(
    options: OptionsView,
    removed_lines: usize,
    manifest_upgrade: bool,
)
    ensures
        ({
            let stems = survey::reserved(options, removed_lines, manifest_upgrade);
            let prunes = options.tasks.contains(MaintenanceTask::Journal) && removed_lines > 0;
            &&& manifest_upgrade && prunes ==> stems == seq![
                "manifest.cleaning"@,
                "journal.log.cleaning"@,
                "journal.log.bak"@,
            ]
            &&& manifest_upgrade && !prunes ==> stems == seq!["manifest.cleaning"@]
            &&& !manifest_upgrade && prunes ==> stems == seq![
                "journal.log.cleaning"@,
                "journal.log.bak"@,
            ]
            &&& !manifest_upgrade && !prunes ==> stems.len() == 0
        }),
{
    let stems = survey::reserved(options, removed_lines, manifest_upgrade);
    let prunes = options.tasks.contains(MaintenanceTask::Journal) && removed_lines > 0;
    if manifest_upgrade && prunes {
        assert(stems =~= seq![
            "manifest.cleaning"@,
            "journal.log.cleaning"@,
            "journal.log.bak"@,
        ]);
    } else if manifest_upgrade {
        assert(stems =~= seq!["manifest.cleaning"@]);
    } else if prunes {
        assert(stems =~= seq!["journal.log.cleaning"@, "journal.log.bak"@]);
    }
}

/// A sweep rewrites exactly if one of its archives is rewritten.
pub proof fn law_a_sweep_rewrites_exactly_if_an_archive_is(sweep: SegmentCompactionPlan)
    ensures
        survey::rewrites(Some(sweep)) <==> exists|i: int|
            0 <= i < sweep.archives@.len() && #[trigger] sweep.archives@[i] is Rewrite,
        !survey::rewrites(None),
{
}

/// A refusal carries the warnings that came before it: up to three of them, joined,
/// and the number of the others.
pub proof fn law_a_refusal_carries_three_warnings(details: Seq<char>, warnings: Seq<Seq<char>>)
    ensures
        warnings.len() == 0 ==> survey::with_warnings(details, warnings) == details,
        warnings.len() == 1 ==> survey::with_warnings(details, warnings) == details
            + " Also established before the refusal: "@ + warnings[0] + "."@,
        warnings.len() == 2 ==> survey::with_warnings(details, warnings) == details
            + " Also established before the refusal: "@ + (warnings[0] + "; "@ + warnings[1])
            + "."@,
        warnings.len() == 3 ==> survey::with_warnings(details, warnings) == details
            + " Also established before the refusal: "@ + (warnings[0] + "; "@ + warnings[1]
            + "; "@ + warnings[2]) + "."@,
        warnings.len() == 4 ==> survey::with_warnings(details, warnings) == details
            + " Also established before the refusal: "@ + (warnings[0] + "; "@ + warnings[1]
            + "; "@ + warnings[2] + ", and 1 further warning"@) + "."@,
        warnings.len() > 4 ==> survey::with_warnings(details, warnings) == details
            + " Also established before the refusal: "@ + (warnings[0] + "; "@ + warnings[1]
            + "; "@ + warnings[2] + ", and "@ + text::decimal((warnings.len() - 3) as nat)
            + " further warnings"@) + "."@,
{
    if warnings.len() == 1 {
        assert(text::joined(warnings, "; "@) == warnings[0]);
    } else if warnings.len() == 2 {
        lemma_two(warnings);
    } else if warnings.len() == 3 {
        lemma_three(warnings);
    } else if warnings.len() > 3 {
        lemma_three(warnings.take(3));
    }
}

proof fn lemma_two(parts: Seq<Seq<char>>)
    requires
        parts.len() == 2,
    ensures
        text::joined(parts, "; "@) == parts[0] + "; "@ + parts[1],
{
    assert(parts.drop_last().len() == 1);
    assert(text::joined(parts.drop_last(), "; "@) == parts[0]);
}

proof fn lemma_three(parts: Seq<Seq<char>>)
    requires
        parts.len() == 3,
    ensures
        text::joined(parts, "; "@) == parts[0] + "; "@ + parts[1] + "; "@ + parts[2],
{
    lemma_two(parts.drop_last());
}

} // verus!
