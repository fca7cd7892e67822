//! What a plan states, and what a run reports on it.
use vstd::prelude::*;
use vstd::string::*;
use crate::apply::journal_phase::JournalWork;
use crate::apply::run;
use crate::apply::run::{JournalFinding, TargetView};
use crate::apply_identity;
use crate::file_removal;
use crate::identifier::RecordIdentifier;
use crate::journal::proofs::JournalRewriteDecision;
use crate::options;
use crate::options::{CompactionOptions, MaintenanceTask};
use crate::plan;
use crate::plan::{ActionView, CompactionPlan, FileDeletionFailure};
use crate::planning::assembly;
use crate::planning::assembly::{GatheredPlanFacts, PlanInputs};
use crate::planning::listing;
use crate::planning::listing::ListingState;
use crate::planning::survey;
use crate::text;

verus! {

/// A plan states what the walks and surveys found: nothing of it is lost or mixed up on
/// the way into the plan.
pub proof fn law_a_plan_states_what_was_found(
    plan: CompactionPlan,
    facts: GatheredPlanFacts,
    inputs: PlanInputs,
    options: &CompactionOptions,
    listed: ListingState,
)
    requires
        assembly::gathers(facts, inputs),
        assembly::assembles(plan, &facts, options, listed),
    ensures
        plan.directory@ == inputs.directory@,
        plan.current_head == inputs.current_head,
        plan.fingerprint == inputs.fingerprint_after,
        plan.journal == inputs.state.journal_analysis.plan,
        plan.checkpoints == inputs.state.checkpoints,
        plan.checkpoint_archive_number == inputs.state.checkpoint_archive_number,
        plan.temporaries == inputs.temporaries,
        plan.recovery_backups == inputs.recovery_backups,
        plan.stale_archives == inputs.segment_work.stale_archives,
        plan.segment_plan == inputs.segment_work.segment_plan,
        plan.residue_sweep == inputs.segment_work.residue_sweep,
        plan.reference_generation == inputs.segment_work.reference_generation,
        plan.history_protection == inputs.segment_work.history_protection,
        plan.protected_history_segments == inputs.segment_work.protected_history_segments,
        plan.effective_compaction_kind == inputs.segment_work.effective_compaction_kind,
        plan.already_fully_compacted == inputs.segment_work.already_fully_compacted,
        plan.external_binary_footprint.measured_bytes
            == inputs.census@.external_binaries.measured_bytes,
        plan.external_binary_footprint.unmeasured_references
            == inputs.census@.external_binaries.unmeasured_references,
        plan.external_binary_footprint.distinct_references
            == inputs.census@.external_binaries.distinct.len() as u64,
        plan.version_history_purge is Some ==> inputs.selection is Some,
        facts.available_filesystem_bytes == inputs.available_filesystem_bytes,
        facts.fingerprint_before == inputs.fingerprint_before,
        facts.identity_preview == inputs.identity_preview,
        facts.head_nodes == inputs.head_nodes,
{
}

/// A plan names exactly the tasks that were selected.
pub proof fn law_a_plan_names_the_selected_tasks(
    plan: CompactionPlan,
    facts: GatheredPlanFacts,
    selected: &CompactionOptions,
    listed: ListingState,
    task: MaintenanceTask,
)
    requires
        assembly::assembles(plan, &facts, selected, listed),
    ensures
        plan.tasks@.contains(task) <==> selected@.tasks.contains(task),
{
    let all = options::every_task();
    let selects = |other: MaintenanceTask| selected@.tasks.contains(other);
    assert(all.contains(task)) by {
        match task {
            MaintenanceTask::Journal => {
                assert(all[0] == task);
            },
            MaintenanceTask::Segments => {
                assert(all[1] == task);
            },
            MaintenanceTask::StaleArchives => {
                assert(all[2] == task);
            },
            MaintenanceTask::ExpiredCheckpoints => {
                assert(all[3] == task);
            },
            MaintenanceTask::StaleTemporaries => {
                assert(all[4] == task);
            },
            MaintenanceTask::UnreferencedCheckpoints => {
                assert(all[5] == task);
            },
            MaintenanceTask::RecoveryBackups => {
                assert(all[6] == task);
            },
            MaintenanceTask::RepairArchives => {
                assert(all[7] == task);
            },
        }
    }
    if selects(task) {
        let place = choose|i: int| 0 <= i < all.len() && all[i] == task;
        all.lemma_filter_contains(selects, place);
    }
    if plan.tasks@.contains(task) {
        let place = choose|i: int| 0 <= i < plan.tasks@.len() && plan.tasks@[i] == task;
        all.lemma_filter_pred(selects, place);
    }
}

/// A plan warns of what its listing warned of and of what the preview of the run's
/// identity found, each once; and its totals are those of the listing.
pub proof fn law_a_plan_warns_as_its_listing_does(
    plan: CompactionPlan,
    facts: GatheredPlanFacts,
    options: &CompactionOptions,
    listed: ListingState,
    warning: Seq<char>,
)
    requires
        assembly::assembles(plan, &facts, options, listed),
    ensures
        text::texts(plan.warnings@).contains(warning) <==> listed.warnings.contains(warning)
            || apply_identity::preview_warnings(facts.identity_preview).contains(warning),
        plan::action_views(plan.actions@) == listed.actions,
        plan.estimated_reclaimable_bytes == listed.totals.reclaimable_bytes,
        plan.estimated_archive_rewrite_source_bytes == listed.totals.rewrite_source_bytes,
        plan.retained_reclaimable == listed.totals.retained,
{
    let found = apply_identity::preview_warnings(facts.identity_preview);
    let given = listed.warnings + found;
    let warned = text::texts(plan.warnings@);
    assert(warned.contains(warning) <==> warned.to_set().contains(warning));
    assert(given.contains(warning) <==> given.to_set().contains(warning));
    if listed.warnings.contains(warning) {
        let i = choose|i: int| 0 <= i < listed.warnings.len() && listed.warnings[i] == warning;
        assert(given[i] == warning);
    }
    if found.contains(warning) {
        let i = choose|i: int| 0 <= i < found.len() && found[i] == warning;
        assert(given[listed.warnings.len() + i] == warning);
    }
    if given.contains(warning) {
        let i = choose|i: int| 0 <= i < given.len() && given[i] == warning;
        if i < listed.warnings.len() {
            assert(listed.warnings[i] == warning);
        } else {
            assert(found[i - listed.warnings.len()] == warning);
        }
    }
}

/// The store is raised to version two exactly if it is older and something is written:
/// an archive is rebuilt or rewritten, or a checkpoint goes.
pub proof fn law_only_an_older_store_that_is_written_is_raised(
    facts: GatheredPlanFacts,
    inputs: PlanInputs,
)
    requires
        assembly::gathers(facts, inputs),
    ensures
        facts.manifest_upgrade <==> {
            &&& inputs.store_version < 2
            &&& {
                ||| inputs.state.pending_repairs@.len() > 0
                ||| inputs.state.checkpoints.names@.len() > 0
                ||| (inputs.segment_work.segment_plan matches Some(sweep) && exists|i: int|
                    0 <= i < sweep.archives@.len() && #[trigger] sweep.archives@[i] is Rewrite)
            }
        },
{
}

/// The checkpoints that stay and those that go are all there are.
pub proof fn law_checkpoints_stay_or_go(inputs: PlanInputs)
    requires
        inputs.state.checkpoints.names@.len() <= inputs.checkpoint_count,
    ensures
        inputs.retained_checkpoints() + inputs.state.checkpoints.names@.len()
            == inputs.checkpoint_count,
{
}

/// The bytes of some files together.
pub open spec fn file_bytes(files: Seq<(ActionView, u64)>) -> nat
    decreases files.len(),
{
    if files.len() == 0 {
        0
    } else {
        files[0].1 as nat + file_bytes(files.drop_first())
    }
}

/// Files are listed one after the other, and what they free is added up; the listing is
/// given up exactly if the sum does not fit.
pub proof fn law_files_are_listed_while_the_sum_fits(
    state: ListingState,
    files: Seq<(ActionView, u64)>,
)
    ensures
        ({
            let (after, fits) = listing::after_files(state, files);
            &&& fits <==> state.totals.reclaimable_bytes + file_bytes(files)
                <= 0xffff_ffff_ffff_ffff
            &&& fits ==> after.totals.reclaimable_bytes == state.totals.reclaimable_bytes
                + file_bytes(files)
            &&& fits ==> after.actions.len() == state.actions.len() + files.len()
            &&& fits ==> forall|i: int|
                0 <= i < state.actions.len() ==> #[trigger] after.actions[i] == state.actions[i]
            &&& fits ==> forall|i: int|
                0 <= i < files.len() ==> after.actions[state.actions.len() + i]
                    == #[trigger] files[i].0
            &&& after.warnings == state.warnings
            &&& after.totals.rewrite_source_bytes == state.totals.rewrite_source_bytes
            &&& after.totals.retained == state.totals.retained
        }),
    decreases files.len(),
{
    if files.len() > 0 {
        let rest = files.drop_first();
        let (next, fits) = state.listing(files[0].0).freeing(files[0].1);
        if fits {
            law_files_are_listed_while_the_sum_fits(next, rest);
            let (after, all) = listing::after_files(next, rest);
            if all {
                assert forall|i: int| 0 <= i < files.len() implies after.actions[
                    state.actions.len() + i
                ] == #[trigger] files[i].0 by {
                    if i > 0 {
                        assert(rest[i - 1] == files[i]);
                        assert(after.actions[next.actions.len() + (i - 1)] == rest[i - 1].0);
                    } else {
                        assert(after.actions[state.actions.len() as int]
                            == next.actions[state.actions.len() as int]);
                    }
                }
                assert forall|i: int| 0 <= i < state.actions.len() implies #[trigger] after.actions[
                    i
                ] == state.actions[i] by {
                    assert(after.actions[i] == next.actions[i]);
                }
            }
        }
    }
}

/// A numbered name is the stem, a full stop and the number in three digits.
pub proof fn law_a_numbered_name_has_three_digits(stem: Seq<char>, counter: nat)
    requires
        counter < 1000,
    ensures
        survey::numbered(stem, counter) == stem + seq![
            '.',
            text::digit_char((counter / 100) as int),
            text::digit_char((counter / 10 % 10) as int),
            text::digit_char((counter % 10) as int),
        ],
{
    reveal_strlit(".");
    reveal_with_fuel(text::fixed_digits, 4);
    assert(counter / 10 / 10 == counter / 100);
    assert(counter / 100 % 10 == counter / 100);
    assert(survey::numbered(stem, counter) =~= stem + seq![
        '.',
        text::digit_char((counter / 100) as int),
        text::digit_char((counter / 10 % 10) as int),
        text::digit_char((counter % 10) as int),
    ]);
}

/// Whether failures name the targets at some places, in the order of the targets.
pub open spec fn names_places(
    failures: Seq<FileDeletionFailure>,
    targets: Seq<TargetView>,
    places: Seq<int>,
) -> bool {
    &&& places.len() == failures.len()
    &&& forall|i: int|
        0 <= i < places.len() ==> 0 <= #[trigger] places[i] < targets.len()
            && failures[i]@.file_name == targets[places[i]].file_name
    &&& forall|i: int, j: int|
        0 <= i < j < places.len() ==> #[trigger] places[i] < #[trigger] places[j]
}

/// A report on files accounts for every target: as many went or failed as there were,
/// and the failures name targets, each another one, in their order.
pub proof fn law_a_report_accounts_for_every_target(
    report: (usize, Vec<FileDeletionFailure>),
    targets: Seq<TargetView>,
)
    requires
        run::is_report_on(report, targets),
    ensures
        report.0 + report.1@.len() == targets.len(),
        exists|places: Seq<int>| #[trigger] names_places(report.1@, targets, places),
{
    let failures = plan::failure_views(report.1@);
    let places = choose|failed: Seq<int>| #[trigger]
        file_removal::names_failed(
            run::target_names(targets),
            failures,
            failed,
            targets.len() as int,
        );
    assert forall|i: int| 0 <= i < places.len() implies 0 <= #[trigger] places[i] < targets.len()
        && report.1@[i]@.file_name == targets[places[i]].file_name by {
        assert(failures[i].file_name == run::target_names(targets)[places[i]]);
    }
    assert(names_places(report.1@, targets, places));
}

/// What is done to the journal is what the work calls for: after a copy one line stays
/// of several, and a single line is left alone; pruning rewrites exactly if lines go,
/// and keeps what the fresh analysis keeps.
pub proof fn law_the_journal_is_rewritten_where_lines_go(finding: JournalFinding)
    ensures
        finding.follows(JournalWork::Prune) ==> {
            &&& finding.fresh is Some
            &&& finding.decision is Rewrite <==> finding.fresh->0.plan.removed_lines != 0
            &&& finding.decision matches JournalRewriteDecision::Rewrite { retained_indexes }
                ==> retained_indexes@ == finding.fresh->0.retained_indexes@
            &&& finding.decision matches JournalRewriteDecision::Unchanged(outcome)
                ==> !outcome.changed && outcome.removed_line_count == 0
        },
        forall|head: RecordIdentifier| #[trigger]
            finding.follows(JournalWork::RetireHistory { head }) ==> {
                &&& finding.decision is Rewrite <==> finding.raw.listed().len() != 1
                &&& finding.decision matches JournalRewriteDecision::Rewrite { retained_indexes }
                    ==> retained_indexes@.len() == 1
                &&& finding.decision matches JournalRewriteDecision::Unchanged(outcome)
                    ==> !outcome.changed && outcome.removed_line_count == 0
                    && outcome.retained_record_count == 1
            },
        !finding.follows(JournalWork::Leave),
{
}

} // verus!
