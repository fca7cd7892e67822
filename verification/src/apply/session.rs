//! The order in which a plan is applied, and the outcome it comes to.
use vstd::prelude::*;
use vstd::string::*;
use crate::apply::compaction_phase::CompactionPhaseOutcome;
use crate::apply::failures;
use crate::apply::failures::{collect_deletion_failures, SegmentDeletionFailure};
use crate::error::{refusal, Error};
use crate::identifier::RecordIdentifier;
use crate::journal::rewrite::JournalRewriteOutcome;
use crate::options::{CompactionOptions, MaintenanceTask, OptionsView};
use crate::order;
use crate::plan;
use crate::plan::{
    CompactedGeneration, CompactionOutcome, CompactionPlan, FileDeletionFailure,
};
use crate::planning::shape::same_directory;
use crate::planning::DirectoryFingerprint;
use crate::text;

verus! {

/// Refuses to apply a plan that the directory no longer matches.
pub fn reject_changed_directory(
    planned: &DirectoryFingerprint,
    current: &DirectoryFingerprint,
) -> (checked: Result<(), Error>)
    ensures
        match checked {
            Ok(_) => current@ == planned@,
            Err(error) => current@ != planned@ && error.refuses(
                "the repository changed after the authoritative cleanup plan was built; refusing to apply a stale plan"@,
            ),
        },
{
    if same_directory(current, planned) {
        Ok(())
    } else {
        Err(
            refusal(
                "the repository changed after the authoritative cleanup plan was built; refusing to apply a stale plan",
            ),
        )
    }
}

/// One stage of applying a plan.
#[derive(Clone, Copy, Debug, PartialEq, Eq, Structural)]
pub enum ApplyStage {
    /// Refuse a directory that changed since the plan was built.
    CheckDirectory,
    /// Read the log of compaction cycles.
    ReadCycleLog,
    /// Measure the archives.
    MeasureArchives,
    /// Certify every source before even the manifest may be replaced.
    CertifySources,
    /// Raise the manifest to version two.
    UpgradeManifest,
    /// Sweep segments without a copy.
    SweepSegments,
    /// Prove that the lock is still held, before archives go.
    ProveArchiveLock,
    /// Remove archives that serve no active segment.
    RemoveStaleArchives,
    /// Retire what an interrupted run left, before the copy: its output holds
    /// bulk segments alive, and a retry converges only if it goes first.
    SweepResidue,
    /// Copy the head into a fresh generation and reclaim what it supersedes.
    CopyHead,
    /// Remove checkpoints from the head.
    RemoveCheckpoints,
    /// Rewrite the journal.
    RewriteJournal,
    /// Prove what was added to the log of compaction cycles.
    VerifyCycleLog,
    /// Prove the head and the retained history through fresh mappings.
    VerifyStore,
    /// Prove that the lock is still held, before recovery material goes.
    ProveRecoveryLock,
    /// Remove staging files.
    RemoveTemporaries,
    /// Remove old recovery backups.
    RemoveRecoveryBackups,
    /// Make the directory durable.
    SyncDirectory,
    /// Measure the archives and the backups that stay.
    MeasureResult,
    /// Nothing is left to do.
    Finished,
}

/// The place of a stage in the order.
pub open spec fn rank(stage: ApplyStage) -> int {
    match stage {
        ApplyStage::CheckDirectory => 0,
        ApplyStage::ReadCycleLog => 1,
        ApplyStage::MeasureArchives => 2,
        ApplyStage::CertifySources => 3,
        ApplyStage::UpgradeManifest => 4,
        ApplyStage::SweepSegments => 5,
        ApplyStage::ProveArchiveLock => 6,
        ApplyStage::RemoveStaleArchives => 7,
        ApplyStage::SweepResidue => 8,
        ApplyStage::CopyHead => 9,
        ApplyStage::RemoveCheckpoints => 10,
        ApplyStage::RewriteJournal => 11,
        ApplyStage::VerifyCycleLog => 12,
        ApplyStage::VerifyStore => 13,
        ApplyStage::ProveRecoveryLock => 14,
        ApplyStage::RemoveTemporaries => 15,
        ApplyStage::RemoveRecoveryBackups => 16,
        ApplyStage::SyncDirectory => 17,
        ApplyStage::MeasureResult => 18,
        ApplyStage::Finished => 19,
    }
}

/// What a plan and its options ask for.
#[derive(Clone, Copy, Debug, PartialEq, Eq, Structural)]
pub struct ApplyDemands {
    /// The manifest is upgraded.
    pub upgrades_manifest: bool,
    /// Segments are swept without a copy.
    pub sweeps_segments: bool,
    /// Stale archives are looked after.
    pub removes_stale_archives: bool,
    /// Residue is retired.
    pub sweeps_residue: bool,
    /// The head is copied.
    pub copies_head: bool,
    /// Checkpoints are removed without a copy.
    pub removes_checkpoints: bool,
    /// Staging files are looked after.
    pub removes_temporaries: bool,
    /// Recovery backups are looked after.
    pub removes_recovery_backups: bool,
}

/// What a plan and its options ask for.
pub open spec fn demands_of(plan: CompactionPlan, options: OptionsView) -> ApplyDemands {
    ApplyDemands {
        upgrades_manifest: plan.manifest_upgrade,
        sweeps_segments: plan.segment_plan is Some,
        removes_stale_archives: options.tasks.contains(MaintenanceTask::StaleArchives),
        sweeps_residue: plan.residue_sweep is Some,
        copies_head: plan.effective_compaction_kind is Some,
        removes_checkpoints: plan.effective_compaction_kind is None
            && plan.checkpoints.names@.len() > 0,
        removes_temporaries: options.tasks.contains(MaintenanceTask::StaleTemporaries),
        removes_recovery_backups: options.tasks.contains(MaintenanceTask::RecoveryBackups),
    }
}

impl ApplyDemands {
    /// Reads what a plan and its options ask for.
    pub fn of(plan: &CompactionPlan, options: &CompactionOptions) -> (demands: Self)
        ensures
            demands == demands_of(*plan, options@),
    {
        ApplyDemands {
            upgrades_manifest: plan.manifest_upgrade,
            sweeps_segments: plan.segment_plan.is_some(),
            removes_stale_archives: options.contains(MaintenanceTask::StaleArchives),
            sweeps_residue: plan.residue_sweep.is_some(),
            copies_head: plan.effective_compaction_kind.is_some(),
            removes_checkpoints: plan.effective_compaction_kind.is_none()
                && plan.checkpoints.names.len() > 0,
            removes_temporaries: options.contains(MaintenanceTask::StaleTemporaries),
            removes_recovery_backups: options.contains(MaintenanceTask::RecoveryBackups),
        }
    }

    /// Whether a stage takes place.
    pub open spec fn calls_for(self, stage: ApplyStage) -> bool {
        match stage {
            ApplyStage::CertifySources => self.sweeps_segments && self.upgrades_manifest,
            ApplyStage::UpgradeManifest => self.upgrades_manifest,
            ApplyStage::SweepSegments => self.sweeps_segments,
            ApplyStage::RemoveStaleArchives => self.removes_stale_archives,
            ApplyStage::SweepResidue => self.sweeps_residue,
            ApplyStage::CopyHead => self.copies_head,
            ApplyStage::RemoveCheckpoints => self.removes_checkpoints,
            ApplyStage::RemoveTemporaries => self.removes_temporaries,
            ApplyStage::RemoveRecoveryBackups => self.removes_recovery_backups,
            _ => true,
        }
    }

    /// Whether a stage is the one that follows another: the first in order that
    /// takes place.
    pub open spec fn follows(self, before: ApplyStage, after: ApplyStage) -> bool {
        &&& rank(before) < rank(after)
        &&& self.calls_for(after)
        &&& forall|other: ApplyStage|
            rank(before) < rank(other) < rank(after) ==> !#[trigger] self.calls_for(other)
    }

    fn selects(&self, stage: ApplyStage) -> (selected: bool)
        ensures
            selected == self.calls_for(stage),
    {
        match stage {
            ApplyStage::CertifySources => self.sweeps_segments && self.upgrades_manifest,
            ApplyStage::UpgradeManifest => self.upgrades_manifest,
            ApplyStage::SweepSegments => self.sweeps_segments,
            ApplyStage::RemoveStaleArchives => self.removes_stale_archives,
            ApplyStage::SweepResidue => self.sweeps_residue,
            ApplyStage::CopyHead => self.copies_head,
            ApplyStage::RemoveCheckpoints => self.removes_checkpoints,
            ApplyStage::RemoveTemporaries => self.removes_temporaries,
            ApplyStage::RemoveRecoveryBackups => self.removes_recovery_backups,
            _ => true,
        }
    }
}

/// The stage right after another, whether it takes place or not.
fn successor(stage: ApplyStage) -> (next: ApplyStage)
    requires
        stage != ApplyStage::Finished,
    ensures
        rank(next) == rank(stage) + 1,
{
    match stage {
        ApplyStage::CheckDirectory => ApplyStage::ReadCycleLog,
        ApplyStage::ReadCycleLog => ApplyStage::MeasureArchives,
        ApplyStage::MeasureArchives => ApplyStage::CertifySources,
        ApplyStage::CertifySources => ApplyStage::UpgradeManifest,
        ApplyStage::UpgradeManifest => ApplyStage::SweepSegments,
        ApplyStage::SweepSegments => ApplyStage::ProveArchiveLock,
        ApplyStage::ProveArchiveLock => ApplyStage::RemoveStaleArchives,
        ApplyStage::RemoveStaleArchives => ApplyStage::SweepResidue,
        ApplyStage::SweepResidue => ApplyStage::CopyHead,
        ApplyStage::CopyHead => ApplyStage::RemoveCheckpoints,
        ApplyStage::RemoveCheckpoints => ApplyStage::RewriteJournal,
        ApplyStage::RewriteJournal => ApplyStage::VerifyCycleLog,
        ApplyStage::VerifyCycleLog => ApplyStage::VerifyStore,
        ApplyStage::VerifyStore => ApplyStage::ProveRecoveryLock,
        ApplyStage::ProveRecoveryLock => ApplyStage::RemoveTemporaries,
        ApplyStage::RemoveTemporaries => ApplyStage::RemoveRecoveryBackups,
        ApplyStage::RemoveRecoveryBackups => ApplyStage::SyncDirectory,
        ApplyStage::SyncDirectory => ApplyStage::MeasureResult,
        _ => ApplyStage::Finished,
    }
}

/// The name under which a stage is reported, where it is one step of its own.
pub open spec fn step_of(stage: ApplyStage) -> Option<Seq<char>> {
    match stage {
        ApplyStage::RemoveStaleArchives => Some("removing stale archives"@),
        ApplyStage::SweepResidue => Some("retiring interrupted-compaction residue"@),
        ApplyStage::RemoveCheckpoints => Some("removing checkpoints"@),
        ApplyStage::RemoveTemporaries => Some("removing stale temporary files"@),
        ApplyStage::RemoveRecoveryBackups => Some("removing old recovery backups"@),
        _ => None,
    }
}

/// The name under which a stage is reported, where it is one step of its own.
pub fn step_name(stage: ApplyStage) -> (name: Option<&'static str>)
    ensures
        match name {
            Some(text) => step_of(stage) == Some(text@),
            None => step_of(stage) is None,
        },
{
    match stage {
        ApplyStage::RemoveStaleArchives => Some("removing stale archives"),
        ApplyStage::SweepResidue => Some("retiring interrupted-compaction residue"),
        ApplyStage::RemoveCheckpoints => Some("removing checkpoints"),
        ApplyStage::RemoveTemporaries => Some("removing stale temporary files"),
        ApplyStage::RemoveRecoveryBackups => Some("removing old recovery backups"),
        _ => None,
    }
}

/// The application of a plan in the making.
#[derive(Clone, Copy, Debug, PartialEq, Eq, Structural)]
pub struct ApplySession {
    demands: ApplyDemands,
    stage: ApplyStage,
}

impl ApplySession {
    /// What is asked for.
    pub closed spec fn demands(self) -> ApplyDemands {
        self.demands
    }

    /// The stage that is due.
    pub closed spec fn stage(self) -> ApplyStage {
        self.stage
    }

    /// Begins: the directory is checked before anything moves.
    pub fn apply_prepared(plan: &CompactionPlan, options: &CompactionOptions) -> (session: Self)
        ensures
            session.demands() == demands_of(*plan, options@),
            session.stage() == ApplyStage::CheckDirectory,
    {
        ApplySession {
            demands: ApplyDemands::of(plan, options),
            stage: ApplyStage::CheckDirectory,
        }
    }

    /// The stage that is due.
    pub fn due(&self) -> (stage: ApplyStage)
        ensures
            stage == self.stage(),
    {
        self.stage
    }

    /// Goes on once the stage was carried out. A failed stage ends the
    /// application where it stands.
    pub fn done(&mut self)
        requires
            old(self).stage() != ApplyStage::Finished,
        ensures
            final(self).demands() == old(self).demands(),
            old(self).demands().follows(old(self).stage(), final(self).stage()),
    {
        let ghost before = self.stage;
        let ghost demands = self.demands;
        let mut candidate = successor(self.stage);
        while !self.demands.selects(candidate)
            invariant
                self.demands == demands,
                self.stage == before,
                rank(before) < rank(candidate) <= 19,
                forall|other: ApplyStage|
                    rank(before) < rank(other) < rank(candidate) ==> !#[trigger] demands.calls_for(
                        other,
                    ),
            decreases 19 - rank(candidate),
        {
            let ghost skipped = candidate;
            candidate = successor(candidate);
            assert forall|other: ApplyStage|
                rank(before) < rank(other) < rank(candidate) implies !#[trigger] demands.calls_for(
                other,
            ) by {
                if rank(other) == rank(skipped) {
                    lemma_rank_is_injective(other, skipped);
                }
            }
        }
        self.stage = candidate;
    }
}

/// No two stages have the same place.
pub proof fn lemma_rank_is_injective(left: ApplyStage, right: ApplyStage)
    requires
        rank(left) == rank(right),
    ensures
        left == right,
{
}

/// Nothing is skipped that the plan calls for, and nothing is done that it does
/// not call for: between a stage and the next there is none that takes place.
pub proof fn law_no_called_for_stage_is_skipped(
    demands: ApplyDemands,
    before: ApplyStage,
    after: ApplyStage,
    wanted: ApplyStage,
)
    requires
        demands.follows(before, after),
        demands.calls_for(wanted),
        rank(before) < rank(wanted),
    ensures
        rank(after) <= rank(wanted),
        demands.calls_for(after),
{
}

/// Recovery and staging material goes last of all mutations: it is touched only
/// after the store's final state was proved.
pub proof fn law_recovery_material_goes_after_the_final_proof(stage: ApplyStage)
    requires
        stage == ApplyStage::RemoveTemporaries || stage == ApplyStage::RemoveRecoveryBackups,
    ensures
        rank(ApplyStage::VerifyStore) < rank(stage),
        rank(ApplyStage::VerifyCycleLog) < rank(stage),
        rank(ApplyStage::RewriteJournal) < rank(stage),
        rank(ApplyStage::CopyHead) < rank(stage),
        forall|demands: ApplyDemands| #[trigger] demands.calls_for(ApplyStage::VerifyStore),
{
}

/// Nothing is written before the directory was found to be the planned one, and
/// the manifest is never replaced for a sweep before every source is certified.
pub proof fn law_proofs_precede_the_first_mutation(demands: ApplyDemands)
    ensures
        demands.calls_for(ApplyStage::CheckDirectory),
        rank(ApplyStage::CheckDirectory) < rank(ApplyStage::UpgradeManifest)
            < rank(ApplyStage::SweepSegments),
        demands.calls_for(ApplyStage::UpgradeManifest) && demands.calls_for(
            ApplyStage::SweepSegments,
        ) ==> demands.calls_for(ApplyStage::CertifySources),
        rank(ApplyStage::CertifySources) < rank(ApplyStage::UpgradeManifest),
{
}

/// The head moves at most once: a run copies it or removes checkpoints from it,
/// never both, and what an interrupted run left is retired before.
pub proof fn law_the_head_moves_at_most_once(plan: CompactionPlan, options: OptionsView)
    ensures
        !(demands_of(plan, options).calls_for(ApplyStage::CopyHead) && demands_of(
            plan,
            options,
        ).calls_for(ApplyStage::RemoveCheckpoints)),
        rank(ApplyStage::SweepResidue) < rank(ApplyStage::CopyHead),
{
}

/// Whether a stage changes what is on disk.
pub open spec fn mutates(stage: ApplyStage) -> bool {
    match stage {
        ApplyStage::UpgradeManifest | ApplyStage::SweepSegments | ApplyStage::RemoveStaleArchives
        | ApplyStage::SweepResidue | ApplyStage::CopyHead | ApplyStage::RemoveCheckpoints
        | ApplyStage::RewriteJournal | ApplyStage::RemoveTemporaries
        | ApplyStage::RemoveRecoveryBackups => true,
        _ => false,
    }
}

/// Whether the lock is proved to be held still: as the stage begins, or, once
/// the directory was checked, as it ends.
pub open spec fn holds_lock_proof(stage: ApplyStage, journal_changes: bool) -> bool {
    match stage {
        ApplyStage::CheckDirectory | ApplyStage::UpgradeManifest | ApplyStage::SweepSegments
        | ApplyStage::ProveArchiveLock | ApplyStage::SweepResidue | ApplyStage::CopyHead
        | ApplyStage::RemoveCheckpoints | ApplyStage::ProveRecoveryLock => true,
        ApplyStage::RewriteJournal => journal_changes,
        _ => false,
    }
}

/// Whether the lock is to be proved at a stage. A journal that the run leaves
/// alone needs no proof.
pub fn proves_lock(stage: ApplyStage, journal_changes: bool) -> (proves: bool)
    ensures
        proves == holds_lock_proof(stage, journal_changes),
{
    match stage {
        ApplyStage::CheckDirectory | ApplyStage::UpgradeManifest | ApplyStage::SweepSegments
        | ApplyStage::ProveArchiveLock | ApplyStage::SweepResidue | ApplyStage::CopyHead
        | ApplyStage::RemoveCheckpoints | ApplyStage::ProveRecoveryLock => true,
        ApplyStage::RewriteJournal => journal_changes,
        _ => false,
    }
}

/// Nothing changes on disk without a proof that the lock is held still: one at
/// the stage itself, or one at an earlier stage that is never left out, with
/// nothing in between but stages covered by the same proof.
pub proof fn law_every_mutation_is_covered_by_a_lock_proof(
    demands: ApplyDemands,
    stage: ApplyStage,
)
    requires
        mutates(stage),
    ensures
        holds_lock_proof(stage, true) || exists|proof_stage: ApplyStage|
            {
                &&& #[trigger] demands.calls_for(proof_stage)
                &&& holds_lock_proof(proof_stage, false)
                &&& rank(proof_stage) < rank(stage)
                &&& forall|between: ApplyStage|
                    rank(proof_stage) < #[trigger] rank(between) < rank(stage) && mutates(between)
                        ==> !holds_lock_proof(between, true)
            },
{
    if !holds_lock_proof(stage, true) {
        let proof_stage = if stage == ApplyStage::RemoveStaleArchives {
            ApplyStage::ProveArchiveLock
        } else {
            ApplyStage::ProveRecoveryLock
        };
        assert(demands.calls_for(proof_stage));
        assert forall|between: ApplyStage|
            rank(proof_stage) < #[trigger] rank(between) < rank(stage) && mutates(between) implies
            !holds_lock_proof(between, true) by {}
    }
}

/// A task that is not selected takes no stage of its own.
pub proof fn law_unselected_tasks_take_no_stage(plan: CompactionPlan, options: OptionsView)
    ensures
        !options.tasks.contains(MaintenanceTask::StaleArchives) ==> !demands_of(
            plan,
            options,
        ).calls_for(ApplyStage::RemoveStaleArchives),
        !options.tasks.contains(MaintenanceTask::StaleTemporaries) ==> !demands_of(
            plan,
            options,
        ).calls_for(ApplyStage::RemoveTemporaries),
        !options.tasks.contains(MaintenanceTask::RecoveryBackups) ==> !demands_of(
            plan,
            options,
        ).calls_for(ApplyStage::RemoveRecoveryBackups),
{
}

/// What a sweep did.
#[derive(Clone, Copy, Debug, PartialEq, Eq, Structural)]
pub struct SweepCounts {
    /// Archives that were rewritten.
    pub rewritten_archives: usize,
    /// Archives that went whole.
    pub removed_archives: usize,
    /// Segments that went.
    pub removed_segments: usize,
}

/// Which pass's counts an outcome reports: those of the sweep that follows a
/// copy, or those of the sweep without one.
pub fn archive_counts(
    compaction: &Option<CompactionPhaseOutcome>,
    segment_counts: SweepCounts,
) -> (counts: SweepCounts)
    ensures
        counts == match *compaction {
            Some(phase) => phase.sweep,
            None => segment_counts,
        },
{
    match compaction {
        Some(phase) => phase.sweep,
        None => segment_counts,
    }
}

/// Everything that the stages of an application reported.
#[derive(Debug)]
pub struct ApplyFindings {
    /// The head before.
    pub head_before: RecordIdentifier,
    /// The head that a fresh reopen selected and proved.
    pub head_after: RecordIdentifier,
    /// How many checkpoints went.
    pub removed_checkpoints: u64,
    /// What the copy did, where there was one.
    pub compaction: Option<CompactionPhaseOutcome>,
    /// What the journal's rewrite did.
    pub journal: JournalRewriteOutcome,
    /// What the sweep without a copy did.
    pub segment_counts: SweepCounts,
    /// What that sweep could not remove.
    pub segment_failures: Vec<SegmentDeletionFailure>,
    /// How many stale archives went, and which did not.
    pub stale_archives: (usize, Vec<FileDeletionFailure>),
    /// How many staging files went, and which did not.
    pub temporaries: (usize, Vec<FileDeletionFailure>),
    /// How many recovery backups went, and which did not.
    pub recovery_backups: (usize, Vec<FileDeletionFailure>),
    /// How many archives the preparation had repaired.
    pub repaired_archives: usize,
    /// Bytes of archives before.
    pub archive_bytes_before: u64,
    /// Bytes of archives after.
    pub archive_bytes_after: u64,
    /// Bytes of the recovery backups that stay.
    pub retained_recovery_backup_bytes: u64,
}

/// Every deletion that was planned and not achieved, in the order in which the
/// stages reported it.
pub open spec fn reported_failures(findings: ApplyFindings) -> Seq<plan::DeletionFailureView> {
    failures::translated(findings.segment_failures@) + plan::failure_views(
        findings.stale_archives.1@,
    ) + plan::failure_views(findings.temporaries.1@) + plan::failure_views(
        findings.recovery_backups.1@,
    )
}

/// What a copy wrote, as an outcome states it.
pub open spec fn compacted_of(compaction: Option<CompactionPhaseOutcome>) -> Option<
    CompactedGeneration,
> {
    match compaction {
        Some(phase) => Some(
            CompactedGeneration { nodes: phase.copied_nodes, generation: phase.target_generation },
        ),
        None => None,
    }
}

/// Which pass's counts an outcome reports.
pub open spec fn reported_counts(findings: ApplyFindings) -> SweepCounts {
    match findings.compaction {
        Some(phase) => phase.sweep,
        None => findings.segment_counts,
    }
}

/// An outcome states what the stages reported, and nothing else.
pub open spec fn concludes(outcome: CompactionOutcome, findings: ApplyFindings) -> bool {
    let counts = reported_counts(findings);
    &&& outcome.head_before == findings.head_before
    &&& outcome.head_after == findings.head_after
    &&& outcome.removed_checkpoints == findings.removed_checkpoints
    &&& outcome.removed_journal_lines == findings.journal.removed_line_count
    &&& outcome.rewritten_archives == counts.rewritten_archives
    &&& outcome.removed_reclaimable_archives == counts.removed_archives
    &&& outcome.removed_segments == counts.removed_segments
    &&& outcome.removed_stale_archives == findings.stale_archives.0
    &&& outcome.removed_temporaries == findings.temporaries.0
    &&& outcome.removed_recovery_backups == findings.recovery_backups.0
    &&& outcome.repaired_archives == findings.repaired_archives
    &&& outcome.archive_bytes_before == findings.archive_bytes_before
    &&& outcome.archive_bytes_after == findings.archive_bytes_after
    &&& outcome.retained_recovery_backup_bytes == findings.retained_recovery_backup_bytes
    &&& outcome.compacted == compacted_of(findings.compaction)
    &&& outcome.journal_backup_path == findings.journal.backup_path
    &&& plan::failure_views(outcome.deletion_failures@) == failures::collected(
        reported_failures(findings),
    )
    &&& order::ascending(text::texts(outcome.files_not_deleted@))
    &&& text::texts(outcome.files_not_deleted@).to_set() == failures::names_of(
        reported_failures(findings),
    )
}

/// Assembles the outcome of an application.
pub fn conclude(findings: ApplyFindings) -> (outcome: CompactionOutcome)
    ensures
        concludes(outcome, findings),
{
    let counts = archive_counts(&findings.compaction, findings.segment_counts);
    let compacted = match &findings.compaction {
        Some(phase) => Some(
            CompactedGeneration {
                nodes: phase.copied_nodes,
                generation: phase.target_generation,
            },
        ),
        None => None,
    };
    let (deletion_failures, files_not_deleted) = collect_deletion_failures(
        &findings.segment_failures,
        &findings.stale_archives.1,
        &findings.temporaries.1,
        &findings.recovery_backups.1,
    );
    CompactionOutcome {
        head_before: findings.head_before,
        head_after: findings.head_after,
        removed_checkpoints: findings.removed_checkpoints,
        removed_journal_lines: findings.journal.removed_line_count,
        rewritten_archives: counts.rewritten_archives,
        removed_reclaimable_archives: counts.removed_archives,
        removed_stale_archives: findings.stale_archives.0,
        removed_temporaries: findings.temporaries.0,
        removed_recovery_backups: findings.recovery_backups.0,
        repaired_archives: findings.repaired_archives,
        files_not_deleted,
        archive_bytes_before: findings.archive_bytes_before,
        archive_bytes_after: findings.archive_bytes_after,
        retained_recovery_backup_bytes: findings.retained_recovery_backup_bytes,
        compacted,
        removed_segments: counts.removed_segments,
        journal_backup_path: findings.journal.backup_path,
        deletion_failures,
    }
}

} // verus!
