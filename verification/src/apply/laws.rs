//! What holds over two runs: the second finds what the first left, and has
//! nothing to do.
use vstd::prelude::*;
use crate::apply::journal_phase;
use crate::apply::run;
use crate::apply::run::ApplyRun;
use crate::apply::session;
use crate::apply::session::ApplyStage;
use crate::checkpoints;
use crate::checkpoints::CheckpointFacts;
use crate::directory;
use crate::directory::Files;
use crate::journal::analysis;
use crate::journal::analysis::LineFate;
use crate::journal::proofs;
use crate::journal::rewrite::JournalRewriteOutcome;
use crate::journal::scan::LineView;
use crate::options::{CompactionOptions, MaintenanceTask};
use crate::plan;
use crate::plan::{CompactionOutcome, CompactionPlan};
use crate::planning::assembly;
use crate::planning::assembly::{GatheredPlanFacts, PlanInputs};
use crate::planning::laws;
use crate::planning::listing;
use crate::planning::listing::ListingState;
use crate::planning::segment_work::{SegmentPlanner, SegmentStage};
use crate::planning::survey;
use crate::planning::{PlannedArchiveSweep, SegmentCompactionPlan};
use crate::publication;
use crate::publication::Replacement;
use crate::text;

verus! {

/// What the head's checkpoints were when a run was planned, what is left of them
/// after it, and what decides over them.
pub struct CheckpointHistory {
    /// The checkpoints that the run was planned over.
    pub before: Seq<CheckpointFacts>,
    /// The checkpoints that are left.
    pub left: Seq<CheckpointFacts>,
    /// The names that the async state refers to.
    pub referenced: Set<Seq<char>>,
    /// The moment.
    pub now_milliseconds: i64,
}

/// No archive of a sweep is removed or rewritten.
pub open spec fn sweeps_nothing(sweep: Option<SegmentCompactionPlan>) -> bool {
    forall|i: int|
        0 <= i < listing::sweeps_of(sweep).len() ==> laws::sweep_action(
            #[trigger] listing::sweeps_of(sweep)[i],
        ) is None
}

/// The checkpoints that planning finds are those that a run left.
pub open spec fn finds_the_checkpoints_left(
    first: ApplyRun<'_>,
    inputs: PlanInputs,
    history: CheckpointHistory,
) -> bool {
    let expiry = first.options()@.tasks.contains(MaintenanceTask::ExpiredCheckpoints);
    let references = first.options()@.tasks.contains(MaintenanceTask::UnreferencedCheckpoints);
    &&& checkpoints::plans(
        first.plan().checkpoints,
        checkpoints::expired_names(history.before, history.now_milliseconds, expiry),
        checkpoints::unreferenced_names(
            history.before,
            history.referenced,
            history.now_milliseconds,
            expiry,
            references,
        ),
    )
    &&& checkpoints::are_left(
        history.left,
        history.before,
        text::texts(first.plan().checkpoints.names@).to_set(),
    )
    &&& checkpoints::plans(
        inputs.state.checkpoints,
        checkpoints::expired_names(history.left, history.now_milliseconds, expiry),
        checkpoints::unreferenced_names(
            history.left,
            history.referenced,
            history.now_milliseconds,
            expiry,
            references,
        ),
    )
}

/// The journal that planning finds is the one that a run proved, and its
/// analysis is the one that the run made.
pub open spec fn finds_the_journal_left(
    first: ApplyRun<'_>,
    inputs: PlanInputs,
    fates: Seq<LineFate>,
) -> bool {
    let lines = inputs.state.raw_journal.listed();
    &&& first.proved_journal() == Some((inputs.state.raw_journal, inputs.state.journal_analysis))
    &&& inputs.current_head == first.expected_head()
    &&& inputs.state.journal_analysis.describes(lines, fates)
    &&& fates.len() == lines.len()
    &&& analysis::all_decided(fates)
    &&& analysis::retained_records(fates).contains(inputs.current_head)
}

/// The files that planning finds are those that a run left: no file that it was
/// to remove, no archive that a sweep would still change, and, where a copy is
/// asked for, a head that is compacted throughout.
pub open spec fn finds_the_files_left(
    first: ApplyRun<'_>,
    inputs: PlanInputs,
    planner: SegmentPlanner<'_>,
) -> bool {
    let options = first.options()@;
    let head = inputs.current_head;
    &&& planner.well_formed()
    &&& planner.stage() == SegmentStage::Finished
    &&& planner.work() == inputs.segment_work
    &&& planner.inputs().options@ == options
    &&& *planner.inputs().checkpoints == inputs.state.checkpoints
    &&& planner.inputs().journal_convergence.single_line_naming_head
        == proofs::converges(inputs.state.raw_journal.listed(), head)
    &&& !planner.inputs().purge_selected
    &&& inputs.selection is Some ==> (inputs.selection->0).histories == 0
    &&& inputs.state.pending_repairs@.len() == 0
    &&& inputs.segment_work.stale_archives@.len() == 0
    &&& inputs.segment_work.residue_segments == 0
    &&& sweeps_nothing(inputs.segment_work.segment_plan)
    &&& inputs.temporaries@.len() == 0
    &&& inputs.recovery_backups@.len() == 0
    &&& options.compaction_kind is Some ==> !options.always_copy && planner.uniformly_compacted()
    &&& options.compaction_kind is Some && first.copied_head() is None ==> proofs::converges(
        inputs.state.raw_journal.listed(),
        head,
    )
}

proof fn lemma_decided_counts(lines: Seq<LineView>, fates: Seq<LineFate>)
    requires
        fates.len() <= lines.len(),
        analysis::all_decided(fates),
    ensures
        analysis::retained_records(fates).len() + analysis::removals(lines, fates).len()
            == fates.len(),
    decreases fates.len(),
{
    if fates.len() > 0 {
        let shorter = fates.drop_last();
        assert forall|i: int| 0 <= i < shorter.len() implies !(#[trigger] shorter[i] is Open) by {
            assert(fates[i] == shorter[i]);
        }
        lemma_decided_counts(lines, shorter);
        assert(!(fates[fates.len() - 1] is Open));
    }
}

proof fn lemma_lists_nothing(
    state: ListingState,
    sweeps: Seq<PlannedArchiveSweep>,
    standalone: bool,
)
    requires
        forall|i: int|
            0 <= i < sweeps.len() ==> laws::sweep_action(#[trigger] sweeps[i]) is None,
    ensures
        listing::after_archives(state, sweeps, standalone).0.actions == state.actions,
    decreases sweeps.len(),
{
    if sweeps.len() > 0 {
        let (next, fits) = listing::after_archive(state, sweeps[0], standalone);
        assert(laws::sweep_action(sweeps[0]) is None);
        assert(next.actions == state.actions);
        if fits {
            let rest = sweeps.drop_first();
            assert forall|i: int| 0 <= i < rest.len() implies laws::sweep_action(
                #[trigger] rest[i],
            ) is None by {
                assert(sweeps[i + 1] == rest[i]);
            }
            lemma_lists_nothing(next, rest, standalone);
        }
    }
}

/// A second run with the same options has nothing to do. Where planning finds
/// exactly what a finished run left, at the same moment and with no copy forced,
/// the plan is empty: nothing is upgraded, copied, retired, swept or removed.
/// Applying it leaves the head where the first run did, and the journal has no
/// line to lose.
pub proof fn law_a_second_run_changes_nothing(
    first: ApplyRun<'_>,
    inputs: PlanInputs,
    planner: SegmentPlanner<'_>,
    history: CheckpointHistory,
    fates: Seq<LineFate>,
    facts: GatheredPlanFacts,
    options: CompactionOptions,
    warnings: Seq<Seq<char>>,
    plan: CompactionPlan,
    second: ApplyRun<'_>,
)
    requires
        first.well_formed(),
        first.stage() == ApplyStage::Finished,
        first.options() == options,
        finds_the_checkpoints_left(first, inputs, history),
        finds_the_journal_left(first, inputs, fates),
        finds_the_files_left(first, inputs, planner),
        assembly::gathers(facts, inputs),
        assembly::listing_of(&facts, &options, warnings).1,
        assembly::assembles(
            plan,
            &facts,
            &options,
            assembly::listing_of(&facts, &options, warnings).0,
        ),
        second.well_formed(),
        second.plan() == plan,
        second.options() == options,
    ensures
        plan.actions@.len() == 0,
        ({
            let demands = session::demands_of(plan, options@);
            &&& !demands.upgrades_manifest
            &&& !demands.sweeps_residue
            &&& !demands.copies_head
            &&& !demands.removes_checkpoints
        }),
        sweeps_nothing(plan.segment_plan),
        plan.stale_archives@.len() == 0,
        plan.temporaries@.len() == 0,
        plan.recovery_backups@.len() == 0,
        plan.version_history_purge is None,
        options@.tasks.contains(MaintenanceTask::Journal) ==> plan.journal.removed_lines == 0,
        second.expected_head() == first.expected_head(),
        second.findings().compaction is None,
        second.findings().removed_checkpoints == 0,
        !(journal_phase::work_of(
            second.copied_head(),
            options@.tasks.contains(MaintenanceTask::Journal),
        ) is RetireHistory),
        !options@.tasks.contains(MaintenanceTask::Journal)
            ==> second.findings().journal.removed_line_count == 0,
{
    let expiry = options@.tasks.contains(MaintenanceTask::ExpiredCheckpoints);
    let references = options@.tasks.contains(MaintenanceTask::UnreferencedCheckpoints);
    checkpoints::law_a_removal_leaves_no_checkpoint_to_remove(
        history.before,
        history.left,
        history.referenced,
        history.now_milliseconds,
        expiry,
        references,
        first.plan().checkpoints,
        inputs.state.checkpoints,
    );
    let lines = inputs.state.raw_journal.listed();
    let prunes = options@.tasks.contains(MaintenanceTask::Journal);
    lemma_decided_counts(lines, fates);
    if first.copied_head() is Some {
        assert(first.expected_head() == first.copied_head()->0);
        assert(lines.len() == 1);
        assert(analysis::removals(lines, fates).len() == 0);
        proofs::lemma_single_line_converges(lines, inputs.current_head);
    }
    assert(prunes ==> inputs.state.journal_analysis.plan.removed_lines == 0);
    let work = inputs.segment_work;
    assert(work.effective_compaction_kind is None);
    assert(work.residue_sweep is None);
    assert(work.predicted_sweep is None);
    assert(facts.version_history_purge is None);
    assert(!facts.manifest_upgrade);
    let findings = assembly::findings_of(&facts, &options);
    let start = laws::leading(findings, warnings);
    assert(start.actions =~= Seq::empty());
    let predicted = listing::sweeps_of(work.predicted_sweep);
    let standalone = listing::sweeps_of(work.segment_plan);
    let (middle, _) = listing::after_archives(start, predicted, false);
    lemma_lists_nothing(start, predicted, false);
    lemma_lists_nothing(middle, standalone, true);
    let listed = assembly::listing_of(&facts, &options, warnings).0;
    assert(listing::stale_entries(work.stale_archives@) =~= Seq::empty());
    assert(listing::temporary_entries(facts.temporaries@) + listing::backup_entries(
        facts.recovery_backups@,
    ) =~= Seq::empty());
    assert(listed.actions =~= Seq::empty());
    assert(plan::action_views(plan.actions@).len() == 0);
}

/// The name of the journal.
pub open spec fn journal_name() -> Seq<char> {
    "journal.log"@
}

/// The names of a journal's backups.
pub open spec fn backup_name(number: nat) -> Seq<char> {
    survey::numbered("journal.log.bak"@, number)
}

/// The names under which a journal's replacement is prepared.
pub open spec fn staging_name(number: nat) -> Seq<char> {
    survey::numbered("journal.log.cleaning"@, number)
}

/// A replacement of the journal, under numbered names.
pub open spec fn replaces_journal(replacement: Replacement, staged: nat, backup: nat) -> bool {
    &&& staged < 1000
    &&& backup < 1000
    &&& replacement.target == journal_name()
    &&& replacement.staged == staging_name(staged)
    &&& replacement.backup == backup_name(backup)
}

/// What a rewrite of the journal does to the directory: a changed journal is
/// published over the old one and its backup is named; otherwise nothing happens.
pub open spec fn rewrites_journal(
    outcome: JournalRewriteOutcome,
    directory: Seq<char>,
    before: Files,
    after: Files,
) -> bool {
    match outcome.backup_path {
        Some(path) => exists|replacement: Replacement, staged: nat, backup: nat| #[trigger]
            replaces_journal(replacement, staged, backup) && replacement.fits(before) && after
                == replacement.published(before) && path@ == directory + "/"@
                + replacement.backup,
        None => after == before,
    }
}

/// An outcome names a backup exactly if lines left the journal. Where it does,
/// the backup is a new numbered file of the repository directory that holds the
/// bytes of the journal just before its replacement. Where it does not, the run
/// left the journal, and everything beside it, alone.
pub proof fn law_a_named_backup_holds_the_replaced_journal(
    run: ApplyRun<'_>,
    outcome: CompactionOutcome,
    directory: Seq<char>,
    before: Files,
    after: Files,
)
    requires
        run.well_formed(),
        run.stage() == ApplyStage::Finished,
        session::concludes(outcome, run.findings()),
        rewrites_journal(run.findings().journal, directory, before, after),
    ensures
        outcome.journal_backup_path is Some <==> outcome.removed_journal_lines != 0,
        match outcome.journal_backup_path {
            Some(path) => exists|number: nat|
                number < 1000 && path@ == directory + "/"@ + #[trigger] backup_name(number)
                    && !before.contains_key(backup_name(number)) && after.contains_key(
                    backup_name(number),
                ) && before.contains_key(journal_name()) && after[backup_name(number)]
                    == before[journal_name()],
            None => after == before,
        },
{
    if run.findings().journal.backup_path is Some {
        let path = run.findings().journal.backup_path->0;
        let (replacement, staged, backup) = choose|
            replacement: Replacement,
            staged: nat,
            backup: nat,
        | #[trigger]
            replaces_journal(replacement, staged, backup) && replacement.fits(before) && after
                == replacement.published(before) && path@ == directory + "/"@
                + replacement.backup;
        publication::law_a_publication_keeps_the_old_journal(replacement, before);
        assert(path@ == directory + "/"@ + backup_name(backup));
    }
}

/// An archive of a sweep is removed or rewritten, or is what a rewrite makes.
pub open spec fn sweep_names(sweep: Option<SegmentCompactionPlan>, name: Seq<char>) -> bool {
    exists|i: int|
        0 <= i < listing::sweeps_of(sweep).len() && (match #[trigger] listing::sweeps_of(
            sweep,
        )[i] {
            PlannedArchiveSweep::Remove { file_name, .. } => file_name@ == name,
            PlannedArchiveSweep::Rewrite { file_name, replacement_name, .. } => file_name@ == name
                || replacement_name@ == name,
            _ => false,
        })
}

/// Whether a stage of a run may change what a name leads to. A stage that moves
/// the head writes where the store decides.
pub open spec fn may_touch(run: ApplyRun<'_>, stage: ApplyStage, name: Seq<char>) -> bool {
    match stage {
        ApplyStage::UpgradeManifest => name == "manifest"@ || exists|number: nat|
            name == #[trigger] survey::numbered("manifest.cleaning"@, number),
        ApplyStage::SweepSegments => sweep_names(run.plan().segment_plan, name),
        ApplyStage::RemoveStaleArchives => run::target_names(
            run::stale_views(run.plan().stale_archives@),
        ).contains(name),
        ApplyStage::SweepResidue => sweep_names(run.plan().residue_sweep, name),
        ApplyStage::CopyHead | ApplyStage::RemoveCheckpoints => true,
        ApplyStage::RewriteJournal => run.findings().journal.changed && (name == journal_name()
            || exists|number: nat|
            name == #[trigger] backup_name(number) || name == staging_name(number)),
        ApplyStage::RemoveTemporaries => run::target_names(
            run::target_views(run.plan().temporaries@),
        ).contains(name),
        ApplyStage::RemoveRecoveryBackups => run::target_names(
            run::target_views(run.plan().recovery_backups@),
        ).contains(name),
        _ => false,
    }
}

/// The directory from stage to stage of a run: each stage is one that the plan
/// calls for, and changes nothing that it may not touch.
pub open spec fn carries_files(
    run: ApplyRun<'_>,
    stages: Seq<ApplyStage>,
    files: Seq<Files>,
) -> bool {
    &&& files.len() == stages.len() + 1
    &&& forall|i: int|
        0 <= i < stages.len() ==> run.demands().calls_for(#[trigger] stages[i]) && (forall|
            name: Seq<char>,
        |
            !may_touch(run, stages[i], name) ==> #[trigger] directory::same_file(
                files[i],
                files[i + 1],
                name,
            ))
}

/// A file that no called-for stage may touch is after a run what it was before.
pub proof fn law_a_run_leaves_other_files_alone(
    run: ApplyRun<'_>,
    stages: Seq<ApplyStage>,
    files: Seq<Files>,
    name: Seq<char>,
)
    requires
        carries_files(run, stages, files),
        forall|stage: ApplyStage|
            run.demands().calls_for(stage) ==> !#[trigger] may_touch(run, stage, name),
    ensures
        directory::same_file(files[0], files.last(), name),
    decreases stages.len(),
{
    if stages.len() > 0 {
        let last = stages.len() - 1;
        let shorter = stages.drop_last();
        let earlier = files.drop_last();
        assert forall|i: int| 0 <= i < shorter.len() implies run.demands().calls_for(
            #[trigger] shorter[i],
        ) && (forall|other: Seq<char>|
            !may_touch(run, shorter[i], other) ==> #[trigger] directory::same_file(
                earlier[i],
                earlier[i + 1],
                other,
            )) by {
            assert(shorter[i] == stages[i]);
            assert(earlier[i] == files[i] && earlier[i + 1] == files[i + 1]);
        }
        law_a_run_leaves_other_files_alone(run, shorter, earlier, name);
        assert(run.demands().calls_for(stages[last]));
        assert(!may_touch(run, stages[last], name));
        assert(directory::same_file(files[last], files[last + 1], name));
        assert(earlier.last() == files[last]);
    }
}

/// A second run with the same options leaves every byte of the directory as it
/// is: where planning finds exactly what a finished run left, and the second run
/// finds in the journal what planning found, no file appears, changes or goes.
pub proof fn law_a_second_run_leaves_every_file(
    first: ApplyRun<'_>,
    inputs: PlanInputs,
    planner: SegmentPlanner<'_>,
    history: CheckpointHistory,
    fates: Seq<LineFate>,
    facts: GatheredPlanFacts,
    options: CompactionOptions,
    warnings: Seq<Seq<char>>,
    plan: CompactionPlan,
    second: ApplyRun<'_>,
    stages: Seq<ApplyStage>,
    files: Seq<Files>,
)
    requires
        first.well_formed(),
        first.stage() == ApplyStage::Finished,
        first.options() == options,
        finds_the_checkpoints_left(first, inputs, history),
        finds_the_journal_left(first, inputs, fates),
        finds_the_files_left(first, inputs, planner),
        assembly::gathers(facts, inputs),
        assembly::listing_of(&facts, &options, warnings).1,
        assembly::assembles(
            plan,
            &facts,
            &options,
            assembly::listing_of(&facts, &options, warnings).0,
        ),
        second.well_formed(),
        second.stage() == ApplyStage::Finished,
        second.plan() == plan,
        second.options() == options,
        second.decided_journal() matches Some(found) ==> found.fresh == Some(
            inputs.state.journal_analysis,
        ),
        carries_files(second, stages, files),
    ensures
        files.last() == files[0],
        !second.findings().journal.changed,
        forall|outcome: CompactionOutcome|
            session::concludes(outcome, second.findings()) ==> {
                &&& (#[trigger] outcome.head_before) == outcome.head_after
                &&& outcome.head_after == first.expected_head()
                &&& outcome.compacted is None
                &&& outcome.removed_checkpoints == 0
                &&& outcome.removed_journal_lines == 0
                &&& outcome.journal_backup_path is None
                &&& outcome.removed_stale_archives == 0
                &&& outcome.removed_temporaries == 0
                &&& outcome.removed_recovery_backups == 0
            },
{
    law_a_second_run_changes_nothing(
        first,
        inputs,
        planner,
        history,
        fates,
        facts,
        options,
        warnings,
        plan,
        second,
    );
    assert(!second.findings().journal.changed);
    assert forall|stage: ApplyStage, name: Seq<char>|
        second.demands().calls_for(stage) implies !#[trigger] may_touch(second, stage, name) by {
        if stage == ApplyStage::SweepSegments {
            let swept = listing::sweeps_of(plan.segment_plan);
            assert forall|i: int| 0 <= i < swept.len() implies (match #[trigger] swept[i] {
                PlannedArchiveSweep::Remove { .. } => false,
                PlannedArchiveSweep::Rewrite { .. } => false,
                _ => true,
            }) by {
                assert(laws::sweep_action(swept[i]) is None);
            }
        }
    }
    assert forall|name: Seq<char>| #[trigger] directory::same_file(
        files[0],
        files.last(),
        name,
    ) by {
        assert forall|stage: ApplyStage| second.demands().calls_for(stage) implies !#[trigger] may_touch(
            second,
            stage,
            name,
        ) by {}
        law_a_run_leaves_other_files_alone(second, stages, files, name);
    }
    directory::lemma_same_files(files[0], files.last());
}

} // verus!
