//! What holds of every listing: an operator sees all that goes, and the bytes
//! that it comes to.
use vstd::prelude::*;
use crate::apply::session;
use crate::options::{CompactionOptions, MaintenanceTask};
use crate::plan;
use crate::plan::{ActionView, CompactionPlan};
use crate::planning::assembly;
use crate::planning::assembly::GatheredPlanFacts;
use crate::planning::listing;
use crate::planning::listing::{ListingState, PlanFindings};
use crate::planning::PlannedArchiveSweep;

verus! {

/// The bytes that an action frees. A repair, an upgrade and whatever moves the
/// head are listed without such a figure.
pub open spec fn freed_by(action: ActionView) -> nat {
    match action {
        ActionView::RemoveReclaimableArchive { bytes, .. } => bytes as nat,
        ActionView::RewriteArchive { eligible_bytes, .. } => eligible_bytes as nat,
        ActionView::RemoveStaleArchive { bytes, .. } => bytes as nat,
        ActionView::RemoveTemporary { bytes, .. } => bytes as nat,
        ActionView::RemoveRecoveryBackup { bytes, .. } => bytes as nat,
        _ => 0,
    }
}

/// The bytes that some actions free.
pub open spec fn freed_by_all(actions: Seq<ActionView>) -> nat
    decreases actions.len(),
{
    if actions.len() == 0 {
        0
    } else {
        freed_by_all(actions.drop_last()) + freed_by(actions.last())
    }
}

/// How the change of an archive is listed, where a sweep changes it.
pub open spec fn sweep_action(sweep: PlannedArchiveSweep) -> Option<ActionView> {
    match sweep {
        PlannedArchiveSweep::Remove { file_name, segment_count, file_bytes } => Some(
            ActionView::RemoveReclaimableArchive {
                file_name: file_name@,
                segments: segment_count,
                bytes: file_bytes,
            },
        ),
        PlannedArchiveSweep::Rewrite {
            file_name,
            replacement_name,
            segment_count,
            eligible_entry_bytes,
            ..
        } => Some(
            ActionView::RewriteArchive {
                file_name: file_name@,
                replacement_name: replacement_name@,
                segments: segment_count,
                eligible_bytes: eligible_entry_bytes,
            },
        ),
        _ => None,
    }
}

/// Nothing that was listed is taken back, and the total grows by what the new
/// actions free.
pub open spec fn grows(before: ListingState, after: ListingState) -> bool {
    &&& before.actions.is_prefix_of(after.actions)
    &&& freed_by_all(after.actions) - freed_by_all(before.actions)
        == after.totals.reclaimable_bytes - before.totals.reclaimable_bytes
}

proof fn lemma_listing_grows(state: ListingState, action: ActionView)
    ensures
        state.listing(action).actions.last() == action,
        state.actions.is_prefix_of(state.listing(action).actions),
        freed_by_all(state.listing(action).actions) == freed_by_all(state.actions) + freed_by(
            action,
        ),
{
    assert(state.listing(action).actions.drop_last() =~= state.actions);
}

proof fn lemma_concatenated(first: Seq<ActionView>, second: Seq<ActionView>)
    ensures
        freed_by_all(first + second) == freed_by_all(first) + freed_by_all(second),
        first.is_prefix_of(first + second),
    decreases second.len(),
{
    if second.len() == 0 {
        assert(first + second =~= first);
    } else {
        lemma_concatenated(first, second.drop_last());
        assert((first + second).drop_last() =~= first + second.drop_last());
    }
}

proof fn lemma_prefix_contains(first: Seq<ActionView>, second: Seq<ActionView>, action: ActionView)
    requires
        first.is_prefix_of(second),
        first.contains(action),
    ensures
        second.contains(action),
{
    let i = choose|i: int| 0 <= i < first.len() && first[i] == action;
    assert(second[i] == action);
}

proof fn lemma_prefix_chain(
    first: Seq<ActionView>,
    second: Seq<ActionView>,
    third: Seq<ActionView>,
)
    requires
        first.is_prefix_of(second),
        second.is_prefix_of(third),
    ensures
        first.is_prefix_of(third),
{
    assert(third.take(first.len() as int) =~= second.take(first.len() as int));
}

proof fn lemma_archives(
    state: ListingState,
    sweeps: Seq<PlannedArchiveSweep>,
    standalone: bool,
)
    requires
        listing::after_archives(state, sweeps, standalone).1,
    ensures
        grows(state, listing::after_archives(state, sweeps, standalone).0),
        forall|i: int|
            0 <= i < sweeps.len() && sweep_action(#[trigger] sweeps[i]) is Some
                ==> listing::after_archives(state, sweeps, standalone).0.actions.contains(
                sweep_action(sweeps[i])->0,
            ),
    decreases sweeps.len(),
{
    if sweeps.len() > 0 {
        let (next, _) = listing::after_archive(state, sweeps[0], standalone);
        let (after, _) = listing::after_archives(next, sweeps.drop_first(), standalone);
        lemma_archives(next, sweeps.drop_first(), standalone);
        match sweep_action(sweeps[0]) {
            Some(action) => {
                lemma_listing_grows(state, action);
                assert(next.actions =~= state.listing(action).actions);
                assert(next.actions.contains(action)) by {
                    assert(next.actions[state.actions.len() as int] == action);
                }
                lemma_prefix_contains(next.actions, after.actions, action);
            },
            None => {
                assert(next.actions == state.actions);
            },
        }
        lemma_prefix_chain(state.actions, next.actions, after.actions);
        assert forall|i: int|
            0 <= i < sweeps.len() && sweep_action(#[trigger] sweeps[i])
                is Some implies after.actions.contains(sweep_action(sweeps[i])->0) by {
            if i > 0 {
                assert(sweeps.drop_first()[i - 1] == sweeps[i]);
            }
        }
    }
}

proof fn lemma_files(state: ListingState, files: Seq<(ActionView, u64)>)
    requires
        listing::after_files(state, files).1,
        forall|i: int| 0 <= i < files.len() ==> freed_by((#[trigger] files[i]).0) == files[i].1,
    ensures
        grows(state, listing::after_files(state, files).0),
        forall|i: int|
            0 <= i < files.len() ==> listing::after_files(state, files).0.actions.contains(
                (#[trigger] files[i]).0,
            ),
    decreases files.len(),
{
    if files.len() > 0 {
        let action = files[0].0;
        let (next, _) = state.listing(action).freeing(files[0].1);
        let rest = files.drop_first();
        assert forall|i: int| 0 <= i < rest.len() implies freed_by((#[trigger] rest[i]).0)
            == rest[i].1 by {
            assert(rest[i] == files[i + 1]);
        }
        lemma_files(next, rest);
        let (after, _) = listing::after_files(next, rest);
        lemma_listing_grows(state, action);
        assert(next.actions == state.listing(action).actions);
        assert(next.actions.contains(action)) by {
            assert(next.actions[state.actions.len() as int] == action);
        }
        lemma_prefix_contains(next.actions, after.actions, action);
        lemma_prefix_chain(state.actions, next.actions, after.actions);
        assert forall|i: int| 0 <= i < files.len() implies after.actions.contains(
            (#[trigger] files[i]).0,
        ) by {
            if i > 0 {
                assert(rest[i - 1] == files[i]);
            }
        }
    }
}

/// The listing before the sweeps.
pub open spec fn leading(findings: PlanFindings<'_>, warnings: Seq<Seq<char>>) -> ListingState {
    let work = *findings.segment_work;
    ListingState {
        actions: listing::leading_actions(
            findings.state.pending_repairs@,
            findings.manifest_upgrade,
            if work.residue_sweep is Some {
                Some(work.residue_segments)
            } else {
                None
            },
            findings.version_history_purge,
            listing::copy_action(work, findings.head_nodes),
        ),
        warnings,
        totals: listing::no_totals(),
    }
}

/// The actions that move the head.
pub open spec fn head_moves(findings: PlanFindings<'_>, journal_lines: usize) -> Seq<ActionView> {
    listing::head_moving_actions(
        findings.options@.tasks.contains(MaintenanceTask::Journal),
        findings.segment_work.effective_compaction_kind is Some,
        findings.state.checkpoints,
        findings.state.journal_analysis.plan,
        journal_lines,
    )
}

/// Every file that a sweep changes is among some actions.
pub open spec fn sweeps_listed(
    sweeps: Seq<PlannedArchiveSweep>,
    actions: Seq<ActionView>,
) -> bool {
    forall|i: int|
        0 <= i < sweeps.len() && sweep_action(#[trigger] sweeps[i]) is Some ==> actions.contains(
            sweep_action(sweeps[i])->0,
        )
}

/// Every file that goes for itself is among some actions.
pub open spec fn files_listed(findings: PlanFindings<'_>, actions: Seq<ActionView>) -> bool {
    &&& forall|i: int|
        0 <= i < findings.segment_work.stale_archives@.len() ==> actions.contains(
            listing::stale_action(#[trigger] findings.segment_work.stale_archives@[i]),
        )
    &&& forall|i: int|
        0 <= i < findings.temporaries@.len() ==> actions.contains(
            listing::temporary_action(#[trigger] findings.temporaries@[i]),
        )
    &&& forall|i: int|
        0 <= i < findings.recovery_backups@.len() ==> actions.contains(
            listing::backup_action(#[trigger] findings.recovery_backups@[i]),
        )
}

/// Every pending repair is what its kind says.
pub open spec fn only_repairs(findings: PlanFindings<'_>) -> bool {
    forall|i: int|
        0 <= i < findings.state.pending_repairs@.len()
            ==> #[trigger] findings.state.pending_repairs@[i] is RepairArchiveIndex
}

proof fn lemma_repairs_free_nothing(repairs: Seq<plan::CompactionAction>)
    requires
        forall|i: int| 0 <= i < repairs.len() ==> #[trigger] repairs[i] is RepairArchiveIndex,
    ensures
        freed_by_all(plan::action_views(repairs)) == 0,
    decreases repairs.len(),
{
    if repairs.len() > 0 {
        lemma_repairs_free_nothing(repairs.drop_last());
        assert(plan::action_views(repairs).drop_last() =~= plan::action_views(
            repairs.drop_last(),
        ));
    }
}

proof fn lemma_leading(findings: PlanFindings<'_>, warnings: Seq<Seq<char>>)
    requires
        only_repairs(findings),
    ensures
        freed_by_all(leading(findings, warnings).actions) == 0,
{
    let work = *findings.segment_work;
    let repairs = plan::action_views(findings.state.pending_repairs@);
    lemma_repairs_free_nothing(findings.state.pending_repairs@);
    let upgrade = if findings.manifest_upgrade {
        seq![ActionView::UpgradeManifest]
    } else {
        Seq::empty()
    };
    let residue = if work.residue_sweep is Some {
        seq![
            ActionView::RetireInterruptedCompactionResidue { segments: work.residue_segments },
        ]
    } else {
        Seq::empty()
    };
    let purge = match findings.version_history_purge {
        Some((histories, nodes, retained_checkpoints)) => seq![
            ActionView::PurgeOrphanedVersionHistories { histories, nodes, retained_checkpoints },
        ],
        None => Seq::empty(),
    };
    let copy = match listing::copy_action(work, findings.head_nodes) {
        Some(action) => seq![action],
        None => Seq::empty(),
    };
    reveal_with_fuel(freed_by_all, 2);
    assert(freed_by_all(upgrade) == 0);
    assert(freed_by_all(residue) == 0);
    assert(freed_by_all(purge) == 0);
    assert(freed_by_all(copy) == 0);
    lemma_concatenated(repairs, upgrade);
    lemma_concatenated(repairs + upgrade, residue);
    lemma_concatenated(repairs + upgrade + residue, purge);
    lemma_concatenated(repairs + upgrade + residue + purge, copy);
    assert(leading(findings, warnings).actions =~= repairs + upgrade + residue + purge + copy);
}

proof fn lemma_head_moves(findings: PlanFindings<'_>, journal_lines: usize)
    ensures
        freed_by_all(head_moves(findings, journal_lines)) == 0,
{
    reveal_with_fuel(freed_by_all, 3);
    let moves = head_moves(findings, journal_lines);
    assert(moves.len() <= 2);
    if moves.len() == 2 {
        assert(moves.drop_last().drop_last() =~= Seq::empty());
    }
}

/// A complete listing, step by step.
proof fn lemma_full(findings: PlanFindings<'_>, warnings: Seq<Seq<char>>, journal_lines: usize)
    requires
        listing::full_listing(findings, warnings, journal_lines).1,
    ensures
        ({
            let after = listing::full_listing(findings, warnings, journal_lines).0;
            &&& leading(findings, warnings).actions.is_prefix_of(after.actions)
            &&& freed_by_all(after.actions) - freed_by_all(leading(findings, warnings).actions)
                == after.totals.reclaimable_bytes
            &&& sweeps_listed(
                listing::sweeps_of(findings.segment_work.predicted_sweep),
                after.actions,
            )
            &&& sweeps_listed(
                listing::sweeps_of(findings.segment_work.segment_plan),
                after.actions,
            )
            &&& files_listed(findings, after.actions)
            &&& forall|action: ActionView|
                #[trigger] head_moves(findings, journal_lines).contains(action)
                    ==> after.actions.contains(action)
        }),
{
    let work = *findings.segment_work;
    let first = leading(findings, warnings);
    let predicted = listing::sweeps_of(work.predicted_sweep);
    let standalone = listing::sweeps_of(work.segment_plan);
    let (middle, _) = listing::after_archives(first, predicted, false);
    lemma_archives(first, predicted, false);
    let (last, _) = listing::after_archives(middle, standalone, true);
    lemma_archives(middle, standalone, true);
    let (swept, _) = listing::after_sweeps(
        first,
        predicted,
        standalone,
        findings.available_filesystem_bytes,
    );
    assert(swept.actions == last.actions);
    assert(swept.totals == last.totals);
    let stale = listing::stale_entries(work.stale_archives@);
    let (staled, _) = listing::after_files(swept, stale);
    lemma_files(swept, stale);
    let moves = head_moves(findings, journal_lines);
    let moved = ListingState { actions: staled.actions + moves, ..staled };
    lemma_concatenated(staled.actions, moves);
    lemma_head_moves(findings, journal_lines);
    let temporaries = listing::temporary_entries(findings.temporaries@);
    let backups = listing::backup_entries(findings.recovery_backups@);
    let files = temporaries + backups;
    assert forall|i: int| 0 <= i < files.len() implies freed_by((#[trigger] files[i]).0)
        == files[i].1 by {
        if i < temporaries.len() {
            assert(files[i] == temporaries[i]);
        } else {
            assert(files[i] == backups[i - temporaries.len()]);
        }
    }
    let (after, _) = listing::after_files(moved, files);
    lemma_files(moved, files);
    lemma_prefix_chain(staled.actions, moved.actions, after.actions);
    lemma_prefix_chain(swept.actions, staled.actions, after.actions);
    lemma_prefix_chain(middle.actions, swept.actions, after.actions);
    lemma_prefix_chain(first.actions, middle.actions, after.actions);
    assert forall|i: int|
        0 <= i < predicted.len() && sweep_action(#[trigger] predicted[i])
            is Some implies after.actions.contains(sweep_action(predicted[i])->0) by {
        lemma_prefix_contains(middle.actions, after.actions, sweep_action(predicted[i])->0);
    }
    assert forall|i: int|
        0 <= i < standalone.len() && sweep_action(#[trigger] standalone[i])
            is Some implies after.actions.contains(sweep_action(standalone[i])->0) by {
        lemma_prefix_contains(swept.actions, after.actions, sweep_action(standalone[i])->0);
    }
    assert forall|i: int| 0 <= i < work.stale_archives@.len() implies after.actions.contains(
        listing::stale_action(#[trigger] work.stale_archives@[i]),
    ) by {
        assert(stale[i].0 == listing::stale_action(work.stale_archives@[i]));
        lemma_prefix_contains(staled.actions, after.actions, stale[i].0);
    }
    assert forall|i: int| 0 <= i < findings.temporaries@.len() implies after.actions.contains(
        listing::temporary_action(#[trigger] findings.temporaries@[i]),
    ) by {
        assert(files[i].0 == listing::temporary_action(findings.temporaries@[i]));
    }
    assert forall|i: int| 0 <= i < findings.recovery_backups@.len() implies after.actions.contains(
        listing::backup_action(#[trigger] findings.recovery_backups@[i]),
    ) by {
        assert(files[temporaries.len() + i].0 == listing::backup_action(
            findings.recovery_backups@[i],
        ));
    }
    assert forall|action: ActionView| #[trigger] moves.contains(action) implies after
        .actions.contains(action) by {
        let i = choose|i: int| 0 <= i < moves.len() && moves[i] == action;
        assert(moved.actions[staled.actions.len() + i] == action);
        lemma_prefix_contains(moved.actions, after.actions, action);
    }
}

/// The estimate of a listing is the sum of the bytes that its actions state, as
/// long as nothing stands among the pending repairs but repairs.
pub proof fn law_the_estimate_is_the_sum_of_the_listed_bytes(
    findings: PlanFindings<'_>,
    warnings: Seq<Seq<char>>,
    journal_lines: usize,
)
    requires
        only_repairs(findings),
        listing::full_listing(findings, warnings, journal_lines).1,
    ensures
        ({
            let listed = listing::full_listing(findings, warnings, journal_lines).0;
            listed.totals.reclaimable_bytes == freed_by_all(listed.actions)
        }),
{
    lemma_full(findings, warnings, journal_lines);
    lemma_leading(findings, warnings);
}

/// Nothing goes that the operator did not read: every archive that a sweep
/// removes or rewrites, every stale archive, staging file and recovery backup,
/// and whatever becomes of checkpoints and journal is listed.
pub proof fn law_everything_that_goes_is_listed(
    findings: PlanFindings<'_>,
    warnings: Seq<Seq<char>>,
    journal_lines: usize,
)
    requires
        listing::full_listing(findings, warnings, journal_lines).1,
    ensures
        ({
            let actions = listing::full_listing(findings, warnings, journal_lines).0.actions;
            &&& sweeps_listed(
                listing::sweeps_of(findings.segment_work.predicted_sweep),
                actions,
            )
            &&& sweeps_listed(listing::sweeps_of(findings.segment_work.segment_plan), actions)
            &&& files_listed(findings, actions)
            &&& findings.state.checkpoints.names@.len() > 0 ==> exists|i: int|
                0 <= i < actions.len() && #[trigger] actions[i] is RemoveCheckpoints
            &&& findings.segment_work.effective_compaction_kind is Some ==> exists|i: int|
                0 <= i < actions.len() && #[trigger] actions[i] is RetireJournalHistory
        }),
{
    lemma_full(findings, warnings, journal_lines);
    let actions = listing::full_listing(findings, warnings, journal_lines).0.actions;
    let moves = head_moves(findings, journal_lines);
    if findings.state.checkpoints.names@.len() > 0 {
        assert(moves[0] is RemoveCheckpoints);
        assert(moves.contains(moves[0]));
        let i = choose|i: int| 0 <= i < actions.len() && actions[i] == moves[0];
        assert(actions[i] is RemoveCheckpoints);
    }
    if findings.segment_work.effective_compaction_kind is Some {
        assert(moves.last() is RetireJournalHistory);
        assert(moves[moves.len() - 1] == moves.last());
        assert(moves.contains(moves.last()));
        let i = choose|i: int| 0 <= i < actions.len() && actions[i] == moves.last();
        assert(actions[i] is RetireJournalHistory);
    }
}

/// A plan without an action leaves the store alone: its application upgrades,
/// copies, retires and removes nothing, and a sweep that it carries neither
/// removes nor rewrites an archive.
pub proof fn law_an_empty_plan_changes_nothing(
    plan: CompactionPlan,
    facts: GatheredPlanFacts,
    options: CompactionOptions,
    warnings: Seq<Seq<char>>,
)
    requires
        assembly::listing_of(&facts, &options, warnings).1,
        assembly::assembles(
            plan,
            &facts,
            &options,
            assembly::listing_of(&facts, &options, warnings).0,
        ),
        plan.actions@.len() == 0,
    ensures
        ({
            let demands = session::demands_of(plan, options@);
            &&& !demands.upgrades_manifest
            &&& !demands.sweeps_residue
            &&& !demands.copies_head
            &&& !demands.removes_checkpoints
        }),
        forall|i: int|
            0 <= i < listing::sweeps_of(plan.segment_plan).len() ==> sweep_action(
                #[trigger] listing::sweeps_of(plan.segment_plan)[i],
            ) is None,
        plan.stale_archives@.len() == 0,
        plan.temporaries@.len() == 0,
        plan.recovery_backups@.len() == 0,
        plan.checkpoints.names@.len() == 0,
        plan.version_history_purge is None,
        options@.tasks.contains(MaintenanceTask::Journal) ==> plan.journal.removed_lines == 0,
{
    let findings = assembly::findings_of(&facts, &options);
    let lines = facts.state.raw_journal.listed().len() as usize;
    lemma_full(findings, warnings, lines);
    let listed = listing::full_listing(findings, warnings, lines).0;
    assert(plan::action_views(plan.actions@).len() == 0);
    assert(listed.actions.len() == 0);
    let first = leading(findings, warnings).actions;
    assert(first.len() == 0);
    let moves = head_moves(findings, lines);
    if moves.len() > 0 {
        assert(moves.contains(moves[0]));
    }
    let sweeps = listing::sweeps_of(plan.segment_plan);
    assert forall|i: int| 0 <= i < sweeps.len() implies sweep_action(#[trigger] sweeps[i])
        is None by {
        if sweep_action(sweeps[i]) is Some {
            assert(listed.actions.contains(sweep_action(sweeps[i])->0));
        }
    }
    if plan.stale_archives@.len() > 0 {
        assert(listed.actions.contains(listing::stale_action(plan.stale_archives@[0])));
    }
    if plan.temporaries@.len() > 0 {
        assert(listed.actions.contains(listing::temporary_action(plan.temporaries@[0])));
    }
    if plan.recovery_backups@.len() > 0 {
        assert(listed.actions.contains(listing::backup_action(plan.recovery_backups@[0])));
    }
}

} // verus!
