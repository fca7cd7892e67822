//! Applying a plan: every stage takes what the store answered, and the outcome
//! states what the stages reported.
use vstd::prelude::*;
use vstd::string::*;
use crate::apply::compaction_phase;
use crate::apply::compaction_phase::{
    require_removed_checkpoints, verify_gc_log_delta, CompactionPhaseOutcome,
};
use crate::apply::failures::SegmentDeletionFailure;
use crate::apply::journal_phase;
use crate::apply::journal_phase::{
    journal_work, require_final_head, untouched_journal, verify_final_journal, JournalWork,
};
use crate::apply::session;
use crate::apply::session::{
    conclude, proves_lock, reject_changed_directory, ApplyFindings, ApplySession, ApplyStage,
    SweepCounts,
};
use crate::error::Error;
use crate::file_removal;
use crate::file_removal::{PlannedFileRemovalFailureMode, PlannedFileRemovals};
use crate::identifier::{CompactionKind, GarbageCollectionGeneration, ReclaimRule, RecordIdentifier};
use crate::journal::analysis::JournalAnalysis;
use crate::journal::proofs;
use crate::journal::proofs::{
    compacted_journal_rewrite, pruned_journal_rewrite, JournalRewriteDecision,
};
use crate::journal::rewrite::JournalRewriteOutcome;
use crate::journal::scan::RawJournal;
use crate::options::{CompactionOptions, MaintenanceTask};
use crate::plan;
use crate::plan::{CompactionOutcome, CompactionPlan, FileDeletionFailure};
use crate::planning::shape::FingerprintView;
use crate::planning::{DirectoryFingerprint, FileFingerprint, PlannedFileRemoval, StaleArchive};
use crate::reclamation;
use crate::reclamation::compaction_target_generation;

verus! {

/// A file that goes: its name, its size, and how it is recognised.
#[verifier::ext_equal]
pub struct TargetView {
    /// Its name.
    pub file_name: Seq<char>,
    /// Its size.
    pub bytes: u64,
    /// How it is recognised.
    pub fingerprint: FingerprintView,
}

/// The files that go.
pub open spec fn target_views(files: Seq<PlannedFileRemoval>) -> Seq<TargetView> {
    files.map_values(
        |file: PlannedFileRemoval|
            TargetView {
                file_name: file.file_name@,
                bytes: file.bytes,
                fingerprint: file.fingerprint@,
            },
    )
}

/// The stale archives, as files that go.
pub open spec fn stale_views(archives: Seq<StaleArchive>) -> Seq<TargetView> {
    archives.map_values(
        |archive: StaleArchive|
            TargetView {
                file_name: archive.file_name@,
                bytes: archive.bytes,
                fingerprint: archive.fingerprint@,
            },
    )
}

/// The names of files that go.
pub open spec fn target_names(targets: Seq<TargetView>) -> Seq<Seq<char>> {
    targets.map_values(|target: TargetView| target.file_name)
}

proof fn lemma_same_names(files: Seq<PlannedFileRemoval>)
    ensures
        target_names(target_views(files)) == file_removal::file_names(files),
{
    assert(target_names(target_views(files)) =~= file_removal::file_names(files));
}

/// A stage's removals reported each of some files once: as gone, or, in their
/// order, as a failure.
pub open spec fn is_report_on(
    report: (usize, Vec<FileDeletionFailure>),
    targets: Seq<TargetView>,
) -> bool {
    &&& report.0 + report.1@.len() == targets.len()
    &&& exists|failed: Seq<int>| #[trigger]
        file_removal::names_failed(
            target_names(targets),
            plan::failure_views(report.1@),
            failed,
            targets.len() as int,
        )
}

/// A removal of some files, in some mode, that came to its end.
pub open spec fn is_finished_removal(
    removals: PlannedFileRemovals,
    targets: Seq<TargetView>,
    mode: PlannedFileRemovalFailureMode,
) -> bool {
    &&& removals.well_formed()
    &&& removals@.position == removals.files().len()
    &&& target_views(removals.files()) == targets
    &&& removals.mode() == mode
}

fn report_of(
    removals: PlannedFileRemovals,
    Ghost(targets): Ghost<Seq<TargetView>>,
    Ghost(mode): Ghost<PlannedFileRemovalFailureMode>,
) -> (report: (usize, Vec<FileDeletionFailure>))
    requires
        is_finished_removal(removals, targets, mode),
    ensures
        report.0 == removals@.removed,
        plan::failure_views(report.1@) == removals@.failures,
        is_report_on(report, targets),
{
    proof {
        lemma_same_names(removals.files());
    }
    removals.finish()
}

/// What a run found in the journal, and what it decided to do.
pub struct JournalFinding {
    /// The journal.
    pub raw: RawJournal,
    /// Its fresh analysis, where lines are pruned.
    pub fresh: Option<JournalAnalysis>,
    /// What is done.
    pub decision: JournalRewriteDecision,
}

impl JournalFinding {
    /// The decision is the one that the journal and the run's work call for.
    pub open spec fn follows(self, work: JournalWork) -> bool {
        let lines = self.raw.listed();
        let length = self.raw.source().len();
        match work {
            JournalWork::RetireHistory { head } => {
                &&& self.fresh is None
                &&& proofs::lines_naming(lines, head) == 1
                &&& if lines.len() == 1 {
                    proofs::is_unchanged(self.decision, 1, length)
                } else {
                    self.decision matches JournalRewriteDecision::Rewrite { retained_indexes }
                        && retained_indexes@.len() == 1
                }
            },
            JournalWork::Prune => self.fresh matches Some(fresh) && if fresh.plan.removed_lines
                == 0 {
                proofs::is_unchanged(self.decision, fresh.retained_indexes@.len(), length)
            } else {
                self.decision matches JournalRewriteDecision::Rewrite { retained_indexes }
                    && retained_indexes == fresh.retained_indexes
            },
            JournalWork::Leave => false,
        }
    }
}

fn copy_fingerprint(fingerprint: &FileFingerprint) -> (copied: FileFingerprint)
    ensures
        copied@ == fingerprint@,
{
    let name = fingerprint.name.clone();
    assert(name@ =~= fingerprint.name@);
    FileFingerprint {
        name,
        kind: fingerprint.kind,
        length: fingerprint.length,
        modified: fingerprint.modified,
        device: fingerprint.device,
        inode: fingerprint.inode,
        change_time_seconds: fingerprint.change_time_seconds,
        change_time_nanoseconds: fingerprint.change_time_nanoseconds,
    }
}

fn copy_targets(files: &Vec<PlannedFileRemoval>) -> (copied: Vec<PlannedFileRemoval>)
    ensures
        target_views(copied@) == target_views(files@),
{
    let mut copied: Vec<PlannedFileRemoval> = Vec::new();
    let mut index: usize = 0;
    assert(target_views(copied@) =~= target_views(files@).take(0));
    while index < files.len()
        invariant
            index <= files@.len(),
            target_views(copied@) == target_views(files@).take(index as int),
        decreases files@.len() - index,
    {
        let file = &files[index];
        let ghost before = target_views(copied@);
        copied.push(
            PlannedFileRemoval {
                file_name: file.file_name.clone(),
                bytes: file.bytes,
                fingerprint: copy_fingerprint(&file.fingerprint),
            },
        );
        assert(target_views(copied@) =~= before.push(target_views(files@)[index as int]));
        assert(target_views(copied@) =~= target_views(files@).take(index as int + 1));
        index = index + 1;
    }
    assert(target_views(files@).take(index as int) =~= target_views(files@));
    copied
}

fn stale_targets(archives: &Vec<StaleArchive>) -> (targets: Vec<PlannedFileRemoval>)
    ensures
        target_views(targets@) == stale_views(archives@),
{
    let mut targets: Vec<PlannedFileRemoval> = Vec::new();
    let mut index: usize = 0;
    assert(target_views(targets@) =~= stale_views(archives@).take(0));
    while index < archives.len()
        invariant
            index <= archives@.len(),
            target_views(targets@) == stale_views(archives@).take(index as int),
        decreases archives@.len() - index,
    {
        let archive = &archives[index];
        let ghost before = target_views(targets@);
        targets.push(
            PlannedFileRemoval {
                file_name: archive.file_name.clone(),
                bytes: archive.bytes,
                fingerprint: copy_fingerprint(&archive.fingerprint),
            },
        );
        assert(target_views(targets@) =~= before.push(stale_views(archives@)[index as int]));
        assert(target_views(targets@) =~= stale_views(archives@).take(index as int + 1));
        index = index + 1;
    }
    assert(stale_views(archives@).take(index as int) =~= stale_views(archives@));
    targets
}

/// Nothing was swept.
pub open spec fn no_counts() -> SweepCounts {
    SweepCounts { rewritten_archives: 0, removed_archives: 0, removed_segments: 0 }
}

/// What a stage's removals reported is nothing.
pub open spec fn nothing_removed(report: (usize, Vec<FileDeletionFailure>)) -> bool {
    report.0 == 0 && report.1@.len() == 0
}

/// Whether a stage lies behind.
pub open spec fn is_past(current: ApplyStage, stage: ApplyStage) -> bool {
    session::rank(current) > session::rank(stage)
}

/// Of the stages that take place, exactly those lie behind that lay behind
/// before, and the one that was due.
proof fn lemma_past(
    demands: session::ApplyDemands,
    before: ApplyStage,
    after: ApplyStage,
    stage: ApplyStage,
)
    requires
        demands.follows(before, after),
        demands.calls_for(stage),
    ensures
        is_past(after, stage) == (is_past(before, stage) || before == stage),
{
    if session::rank(before) == session::rank(stage) {
        session::lemma_rank_is_injective(before, stage);
    }
}

/// The application of a plan, with everything that was reported so far.
pub struct ApplyRun<'a> {
    plan: &'a CompactionPlan,
    options: &'a CompactionOptions,
    retained_generations: i32,
    session: ApplySession,
    expected_head: RecordIdentifier,
    cycle_log: Option<Vec<u8>>,
    findings: ApplyFindings,
    decided: Ghost<Option<JournalFinding>>,
    proved: Ghost<Option<(RawJournal, JournalAnalysis)>>,
}

impl<'a> ApplyRun<'a> {
    /// The plan.
    pub closed spec fn plan(&self) -> CompactionPlan {
        *self.plan
    }

    /// The options.
    pub closed spec fn options(&self) -> CompactionOptions {
        *self.options
    }

    /// How many generations a sweep keeps.
    pub closed spec fn retained_generations(&self) -> i32 {
        self.retained_generations
    }

    /// The stage that is due.
    pub closed spec fn stage(&self) -> ApplyStage {
        self.session.stage()
    }

    /// What the plan and the options ask for.
    pub open spec fn demands(&self) -> session::ApplyDemands {
        session::demands_of(self.plan(), self.options()@)
    }

    /// The head that the run must end at.
    pub closed spec fn expected_head(&self) -> RecordIdentifier {
        self.expected_head
    }

    /// The log of cycles as the run found it.
    pub closed spec fn cycle_log(&self) -> Option<Vec<u8>> {
        self.cycle_log
    }

    /// What was reported so far.
    pub closed spec fn findings(&self) -> ApplyFindings {
        self.findings
    }

    /// What the run found in the journal before it rewrote it, and decided.
    pub closed spec fn decided_journal(&self) -> Option<JournalFinding> {
        self.decided@
    }

    /// What the journal's stage does.
    pub open spec fn work(&self) -> JournalWork {
        journal_phase::work_of(
            self.copied_head(),
            self.options()@.tasks.contains(MaintenanceTask::Journal),
        )
    }

    /// The journal that the run proved in the end, and its analysis.
    pub closed spec fn proved_journal(&self) -> Option<(RawJournal, JournalAnalysis)> {
        self.proved@
    }

    /// Everything but the stage, the reports and the expected head stays.
    pub open spec fn continues(&self, earlier: &Self) -> bool {
        &&& self.plan() == earlier.plan()
        &&& self.options() == earlier.options()
        &&& self.retained_generations() == earlier.retained_generations()
        &&& earlier.demands().follows(earlier.stage(), self.stage())
        &&& self.decided_journal() == earlier.decided_journal()
        &&& earlier.stage() != ApplyStage::VerifyStore ==> self.proved_journal()
            == earlier.proved_journal()
    }

    /// Nothing but what was decided over the journal is new.
    pub open spec fn decides_after(&self, earlier: &Self) -> bool {
        &&& self.plan() == earlier.plan()
        &&& self.options() == earlier.options()
        &&& self.retained_generations() == earlier.retained_generations()
        &&& self.stage() == earlier.stage()
        &&& self.expected_head() == earlier.expected_head()
        &&& self.cycle_log() == earlier.cycle_log()
        &&& self.findings() == earlier.findings()
        &&& self.proved_journal() == earlier.proved_journal()
    }

    /// The head was copied.
    pub open spec fn has_copied(&self) -> bool {
        self.demands().copies_head && is_past(self.stage(), ApplyStage::CopyHead)
    }

    /// Checkpoints were removed without a copy.
    pub open spec fn has_removed_checkpoints(&self) -> bool {
        self.demands().removes_checkpoints && is_past(self.stage(), ApplyStage::RemoveCheckpoints)
    }

    /// The stages are those of the plan and the options.
    pub closed spec fn session_agrees(&self) -> bool {
        self.session.demands() == session::demands_of(*self.plan, self.options@)
    }

    /// A stage that was not called for, or is still ahead, has reported nothing;
    /// and the expected head is the one that the run published, if it did.
    pub open spec fn well_formed(&self) -> bool {
        let findings = self.findings();
        let demands = self.demands();
        let stage = self.stage();
        &&& self.session_agrees()
        &&& demands.calls_for(stage)
        &&& findings.head_before == self.plan().current_head
        &&& !(demands.sweeps_segments && is_past(stage, ApplyStage::SweepSegments)) ==> findings
            .segment_counts == no_counts() && findings.segment_failures@.len() == 0
        &&& !(demands.removes_stale_archives && is_past(stage, ApplyStage::RemoveStaleArchives))
            ==> nothing_removed(findings.stale_archives)
        &&& !(demands.removes_temporaries && is_past(stage, ApplyStage::RemoveTemporaries))
            ==> nothing_removed(findings.temporaries)
        &&& !(demands.removes_recovery_backups && is_past(
            stage,
            ApplyStage::RemoveRecoveryBackups,
        )) ==> nothing_removed(findings.recovery_backups)
        &&& demands.removes_stale_archives && is_past(stage, ApplyStage::RemoveStaleArchives)
            ==> is_report_on(findings.stale_archives, stale_views(self.plan().stale_archives@))
        &&& demands.removes_temporaries && is_past(stage, ApplyStage::RemoveTemporaries)
            ==> is_report_on(findings.temporaries, target_views(self.plan().temporaries@))
        &&& demands.removes_recovery_backups && is_past(stage, ApplyStage::RemoveRecoveryBackups)
            ==> is_report_on(findings.recovery_backups, target_views(self.plan().recovery_backups@))
        &&& findings.compaction is Some <==> self.has_copied()
        &&& findings.removed_checkpoints == if self.has_copied() || self.has_removed_checkpoints() {
            self.plan().checkpoints.names@.len()
        } else {
            0
        }
        &&& match findings.compaction {
            Some(phase) => self.expected_head() == phase.head_after && self.plan().writes(
                phase.target_generation,
            ),
            None => !self.has_removed_checkpoints() ==> self.expected_head()
                == self.plan().current_head,
        }
        &&& is_past(stage, ApplyStage::VerifyStore) ==> findings.head_after == self.expected_head()
        &&& is_past(stage, ApplyStage::VerifyStore) ==> self.proved_journal() is Some
            && journal_phase::final_journal_holds(
            (self.proved_journal()->0).0,
            self.copied_head(),
            self.options()@.tasks.contains(MaintenanceTask::Journal),
            self.plan().journal,
            (self.proved_journal()->0).1,
        )
        &&& findings.journal.is_consistent()
        &&& !is_past(stage, ApplyStage::RewriteJournal) ==> !findings.journal.changed
        &&& !demands.copies_head && !self.options()@.tasks.contains(MaintenanceTask::Journal)
            ==> !findings.journal.changed
        &&& self.decided_journal() matches Some(finding) ==> finding.follows(self.work()) && (stage
            == ApplyStage::RewriteJournal || is_past(stage, ApplyStage::RewriteJournal))
        &&& is_past(stage, ApplyStage::RewriteJournal) && self.work() != JournalWork::Leave
            ==> self.decided_journal() is Some && proofs::is_outcome_of(
            findings.journal,
            (self.decided_journal()->0).decision,
            (self.decided_journal()->0).raw.listed().len(),
        )
    }

    /// Begins: the directory is checked before anything moves.
    pub fn apply_prepared(
        plan: &'a CompactionPlan,
        options: &'a CompactionOptions,
        repaired_archives: usize,
        retained_generations: i32,
    ) -> (run: Self)
        ensures
            run.well_formed(),
            run.plan() == *plan,
            run.options() == *options,
            run.retained_generations() == retained_generations,
            run.stage() == ApplyStage::CheckDirectory,
            run.findings().repaired_archives == repaired_archives,
    {
        ApplyRun {
            plan,
            options,
            retained_generations,
            session: ApplySession::apply_prepared(plan, options),
            expected_head: plan.current_head,
            cycle_log: None,
            findings: ApplyFindings {
                head_before: plan.current_head,
                head_after: plan.current_head,
                removed_checkpoints: 0,
                compaction: None,
                journal: untouched_journal(),
                segment_counts: SweepCounts {
                    rewritten_archives: 0,
                    removed_archives: 0,
                    removed_segments: 0,
                },
                segment_failures: Vec::new(),
                stale_archives: (0, Vec::new()),
                temporaries: (0, Vec::new()),
                recovery_backups: (0, Vec::new()),
                repaired_archives,
                archive_bytes_before: 0,
                archive_bytes_after: 0,
                retained_recovery_backup_bytes: 0,
            },
            decided: Ghost(None),
            proved: Ghost(None),
        }
    }

    /// The stage that is due.
    pub fn due(&self) -> (stage: ApplyStage)
        ensures
            stage == self.stage(),
    {
        self.session.due()
    }

    fn advance(&mut self)
        requires
            old(self).session_agrees(),
            old(self).stage() != ApplyStage::Finished,
        ensures
            final(self).session_agrees(),
            final(self).continues(old(self)),
            final(self).expected_head() == old(self).expected_head(),
            final(self).proved_journal() == old(self).proved_journal(),
            final(self).decided_journal() == old(self).decided_journal(),
            final(self).cycle_log() == old(self).cycle_log(),
            final(self).findings() == old(self).findings(),
            forall|stage: ApplyStage|
                old(self).demands().calls_for(stage) ==> #[trigger] is_past(
                    final(self).stage(),
                    stage,
                ) == (is_past(old(self).stage(), stage) || old(self).stage() == stage),
    {
        let ghost before = self.stage();
        let ghost demands = self.demands();
        self.session.done();
        assert forall|stage: ApplyStage| demands.calls_for(stage) implies #[trigger] is_past(
            self.stage(),
            stage,
        ) == (is_past(before, stage) || before == stage) by {
            lemma_past(demands, before, self.stage(), stage);
        }
    }

    /// Takes the directory as it is now.
    pub fn check_directory(&mut self, current: &DirectoryFingerprint) -> (checked: Result<
        (),
        Error,
    >)
        requires
            old(self).well_formed(),
            old(self).stage() == ApplyStage::CheckDirectory,
        ensures
            final(self).well_formed(),
            match checked {
                Ok(_) => current@ == old(self).plan().fingerprint@ && final(self).continues(
                    old(self),
                ) && final(self).findings() == old(self).findings(),
                Err(error) => current@ != old(self).plan().fingerprint@ && *final(self) == *old(self) && error.refuses(
                    "the repository changed after the authoritative cleanup plan was built; refusing to apply a stale plan"@,
                ),
            },
    {
        match reject_changed_directory(&self.plan.fingerprint, current) {
            Ok(_) => {
                self.advance();
                Ok(())
            },
            Err(error) => Err(error),
        }
    }

    /// Takes the log of cycles.
    pub fn take_cycle_log(&mut self, log: Option<Vec<u8>>)
        requires
            old(self).well_formed(),
            old(self).stage() == ApplyStage::ReadCycleLog,
        ensures
            final(self).well_formed(),
            final(self).continues(old(self)),
            final(self).cycle_log() == log,
            final(self).expected_head() == old(self).expected_head(),
            final(self).findings() == old(self).findings(),
    {
        self.cycle_log = log;
        self.advance();
    }

    /// Takes what the archives measure.
    pub fn take_archive_bytes(&mut self, bytes: u64)
        requires
            old(self).well_formed(),
            old(self).stage() == ApplyStage::MeasureArchives,
        ensures
            final(self).well_formed(),
            final(self).continues(old(self)),
            final(self).expected_head() == old(self).expected_head(),
            final(self).cycle_log() == old(self).cycle_log(),
            final(self).findings() == (ApplyFindings {
                archive_bytes_before: bytes,
                ..old(self).findings()
            }),
    {
        self.findings.archive_bytes_before = bytes;
        self.advance();
    }

    /// Goes on once every source was certified.
    pub fn sources_certified(&mut self)
        requires
            old(self).well_formed(),
            old(self).stage() == ApplyStage::CertifySources,
        ensures
            final(self).well_formed(),
            final(self).continues(old(self)),
            final(self).expected_head() == old(self).expected_head(),
            final(self).cycle_log() == old(self).cycle_log(),
            final(self).findings() == old(self).findings(),
    {
        self.advance();
    }

    /// Goes on once the manifest was upgraded.
    pub fn manifest_upgraded(&mut self)
        requires
            old(self).well_formed(),
            old(self).stage() == ApplyStage::UpgradeManifest,
        ensures
            final(self).well_formed(),
            final(self).continues(old(self)),
            final(self).expected_head() == old(self).expected_head(),
            final(self).cycle_log() == old(self).cycle_log(),
            final(self).findings() == old(self).findings(),
    {
        self.advance();
    }

    /// The rule of a sweep. One that retires residue keeps every generation: what
    /// goes are entries positioned after the head.
    pub fn sweep_rule(&self) -> (rule: ReclaimRule)
        ensures
            rule == (ReclaimRule {
                reference: self.plan().reference_generation,
                kind: CompactionKind::Full,
                retained_generations: if self.stage() == ApplyStage::SweepResidue {
                    i32::MAX
                } else {
                    self.retained_generations()
                },
            }),
    {
        ReclaimRule {
            reference: self.plan.reference_generation,
            kind: CompactionKind::Full,
            retained_generations: if self.session.due() == ApplyStage::SweepResidue {
                i32::MAX
            } else {
                self.retained_generations
            },
        }
    }

    /// Takes what the sweep without a copy did.
    pub fn take_sweep(&mut self, counts: SweepCounts, failures: Vec<SegmentDeletionFailure>)
        requires
            old(self).well_formed(),
            old(self).stage() == ApplyStage::SweepSegments,
        ensures
            final(self).well_formed(),
            final(self).continues(old(self)),
            final(self).expected_head() == old(self).expected_head(),
            final(self).cycle_log() == old(self).cycle_log(),
            final(self).findings() == (ApplyFindings {
                segment_counts: counts,
                segment_failures: failures,
                ..old(self).findings()
            }),
    {
        self.findings.segment_counts = counts;
        self.findings.segment_failures = failures;
        self.advance();
    }

    /// Goes on once the lock was proved to be held, before archives go.
    pub fn archive_lock_proved(&mut self)
        requires
            old(self).well_formed(),
            old(self).stage() == ApplyStage::ProveArchiveLock,
        ensures
            final(self).well_formed(),
            final(self).continues(old(self)),
            final(self).expected_head() == old(self).expected_head(),
            final(self).cycle_log() == old(self).cycle_log(),
            final(self).findings() == old(self).findings(),
    {
        self.advance();
    }

    /// The removal that is due. A stale archive that cannot be certified stops
    /// the run; recovery material that cannot be removed is only reported.
    pub fn removals(&self) -> (removals: PlannedFileRemovals)
        requires
            self.stage() == ApplyStage::RemoveStaleArchives || self.stage()
                == ApplyStage::RemoveTemporaries || self.stage()
                == ApplyStage::RemoveRecoveryBackups,
        ensures
            removals.well_formed(),
            removals@.position == 0,
            removals.mode() == if self.stage() == ApplyStage::RemoveStaleArchives {
                PlannedFileRemovalFailureMode::RequireCertifiedTarget
            } else {
                PlannedFileRemovalFailureMode::Partial
            },
            target_views(removals.files()) == if self.stage() == ApplyStage::RemoveStaleArchives {
                stale_views(self.plan().stale_archives@)
            } else if self.stage() == ApplyStage::RemoveTemporaries {
                target_views(self.plan().temporaries@)
            } else {
                target_views(self.plan().recovery_backups@)
            },
    {
        match self.session.due() {
            ApplyStage::RemoveStaleArchives => PlannedFileRemovals::remove_planned_files(
                stale_targets(&self.plan.stale_archives),
                PlannedFileRemovalFailureMode::RequireCertifiedTarget,
            ),
            ApplyStage::RemoveTemporaries => PlannedFileRemovals::remove_planned_files(
                copy_targets(&self.plan.temporaries),
                PlannedFileRemovalFailureMode::Partial,
            ),
            _ => PlannedFileRemovals::remove_planned_files(
                copy_targets(&self.plan.recovery_backups),
                PlannedFileRemovalFailureMode::Partial,
            ),
        }
    }

    /// Takes how many stale archives went, and which did not.
    pub fn take_stale_archives(&mut self, removals: PlannedFileRemovals)
        requires
            old(self).well_formed(),
            old(self).stage() == ApplyStage::RemoveStaleArchives,
            is_finished_removal(
                removals,
                stale_views(old(self).plan().stale_archives@),
                PlannedFileRemovalFailureMode::RequireCertifiedTarget,
            ),
        ensures
            final(self).well_formed(),
            final(self).continues(old(self)),
            final(self).expected_head() == old(self).expected_head(),
            final(self).cycle_log() == old(self).cycle_log(),
            final(self).findings().stale_archives.0 == removals@.removed,
            plan::failure_views(final(self).findings().stale_archives.1@) == removals@.failures,
            final(self).findings() == (ApplyFindings {
                stale_archives: final(self).findings().stale_archives,
                ..old(self).findings()
            }),
    {
        let report = report_of(
            removals,
            Ghost(stale_views(self.plan.stale_archives@)),
            Ghost(PlannedFileRemovalFailureMode::RequireCertifiedTarget),
        );
        self.findings.stale_archives = report;
        self.advance();
    }

    /// Goes on once residue was retired.
    pub fn residue_swept(&mut self)
        requires
            old(self).well_formed(),
            old(self).stage() == ApplyStage::SweepResidue,
        ensures
            final(self).well_formed(),
            final(self).continues(old(self)),
            final(self).expected_head() == old(self).expected_head(),
            final(self).cycle_log() == old(self).cycle_log(),
            final(self).findings() == old(self).findings(),
    {
        self.advance();
    }

    /// The generation that the copy writes, where one is planned.
    pub fn copy_target(&self) -> (target: Option<GarbageCollectionGeneration>)
        ensures
            target == match self.plan().effective_compaction_kind {
                Some(kind) => Some(
                    reclamation::target_generation(self.plan().reference_generation, kind),
                ),
                None => None,
            },
    {
        match self.plan.effective_compaction_kind {
            Some(kind) => Some(
                compaction_target_generation(self.plan.reference_generation, kind),
            ),
            None => None,
        }
    }

    /// Takes what the copy did. Its head is where the run must end, and the
    /// checkpoints that it left out are gone.
    pub fn take_copy(&mut self, outcome: CompactionPhaseOutcome)
        requires
            old(self).well_formed(),
            old(self).stage() == ApplyStage::CopyHead,
            old(self).plan().writes(outcome.target_generation),
        ensures
            final(self).well_formed(),
            final(self).continues(old(self)),
            final(self).expected_head() == outcome.head_after,
            final(self).cycle_log() == old(self).cycle_log(),
            final(self).findings() == (ApplyFindings {
                compaction: Some(outcome),
                removed_checkpoints: old(self).plan().checkpoints.names@.len() as u64,
                ..old(self).findings()
            }),
    {
        self.expected_head = outcome.head_after;
        self.findings.removed_checkpoints = self.plan.checkpoints.names.len() as u64;
        self.findings.compaction = Some(outcome);
        self.advance();
    }

    /// Takes how many checkpoints were removed from the head, and the head that
    /// this left.
    pub fn take_checkpoint_removal(
        &mut self,
        removed: u64,
        head_after: RecordIdentifier,
    ) -> (checked: Result<(), Error>)
        requires
            old(self).well_formed(),
            old(self).stage() == ApplyStage::RemoveCheckpoints,
        ensures
            final(self).well_formed(),
            match checked {
                Ok(_) => {
                    &&& removed == old(self).plan().checkpoints.names@.len()
                    &&& final(self).continues(old(self))
                    &&& final(self).expected_head() == head_after
                    &&& final(self).cycle_log() == old(self).cycle_log()
                    &&& final(self).findings() == (ApplyFindings {
                        removed_checkpoints: removed,
                        ..old(self).findings()
                    })
                },
                Err(error) => removed != old(self).plan().checkpoints.names@.len()
                    && *final(self) == *old(self) && error.refuses(
                    compaction_phase::other_count_text(
                        old(self).plan().checkpoints.names@.len(),
                        removed,
                    ),
                ),
            },
    {
        match require_removed_checkpoints(self.plan.checkpoints.names.len(), removed) {
            Ok(_) => {
                self.expected_head = head_after;
                self.findings.removed_checkpoints = removed;
                self.advance();
                Ok(())
            },
            Err(error) => Err(error),
        }
    }

    /// The head that the copy published, where there was one.
    pub open spec fn copied_head(&self) -> Option<RecordIdentifier> {
        match self.findings().compaction {
            Some(phase) => Some(phase.head_after),
            None => None,
        }
    }

    /// The head that the copy published, where there was one.
    pub fn compacted_head(&self) -> (head: Option<RecordIdentifier>)
        ensures
            head == self.copied_head(),
    {
        match &self.findings.compaction {
            Some(phase) => Some(phase.head_after),
            None => None,
        }
    }

    /// What the journal's stage does.
    pub fn journal_work(&self) -> (work: JournalWork)
        ensures
            work == journal_phase::work_of(
                self.copied_head(),
                self.options()@.tasks.contains(MaintenanceTask::Journal),
            ),
    {
        journal_work(self.compacted_head(), self.options.contains(MaintenanceTask::Journal))
    }

    /// Whether the lock is to be proved at the stage that is due.
    pub fn proves_lock(&self) -> (proves: bool)
        ensures
            proves == session::holds_lock_proof(
                self.stage(),
                journal_phase::work_of(
                    self.copied_head(),
                    self.options()@.tasks.contains(MaintenanceTask::Journal),
                ) != JournalWork::Leave,
            ),
    {
        proves_lock(self.session.due(), self.journal_work() != JournalWork::Leave)
    }

    /// Decides over the journal after a copy: all history but the line that names
    /// the published head goes.
    pub fn retire_journal(&mut self, raw: &RawJournal) -> (decided: Result<
        JournalRewriteDecision,
        Error,
    >)
        requires
            old(self).well_formed(),
            old(self).stage() == ApplyStage::RewriteJournal,
            old(self).copied_head() is Some,
            raw.well_formed(),
        ensures
            final(self).well_formed(),
            match decided {
                Ok(decision) => {
                    &&& final(self).decides_after(old(self))
                    &&& final(self).decided_journal() == Some(
                        JournalFinding { raw: *raw, fresh: None, decision },
                    )
                    &&& proofs::retires_history(*raw, old(self).copied_head()->0, decision)
                },
                Err(error) => *final(self) == *old(self) && proofs::refuses_retiring(
                    *raw,
                    old(self).copied_head()->0,
                    error,
                ),
            },
    {
        let head = match &self.findings.compaction {
            Some(phase) => phase.head_after,
            None => self.expected_head,
        };
        match compacted_journal_rewrite(raw, head) {
            Ok(decision) => {
                self.decided = Ghost(Some(JournalFinding { raw: *raw, fresh: None, decision }));
                Ok(decision)
            },
            Err(error) => Err(error),
        }
    }

    /// Decides over the journal without a copy: what a fresh analysis does not
    /// retain goes, once every root and line that the plan promised was found.
    pub fn prune_journal(&mut self, raw: &RawJournal, fresh: JournalAnalysis) -> (decided: Result<
        JournalRewriteDecision,
        Error,
    >)
        requires
            old(self).well_formed(),
            old(self).stage() == ApplyStage::RewriteJournal,
            old(self).work() == JournalWork::Prune,
        ensures
            final(self).well_formed(),
            match decided {
                Ok(decision) => {
                    &&& final(self).decides_after(old(self))
                    &&& final(self).decided_journal() == Some(
                        JournalFinding { raw: *raw, fresh: Some(fresh), decision },
                    )
                    &&& proofs::prunes_history(*raw, old(self).plan().journal, fresh, decision)
                },
                Err(error) => *final(self) == *old(self) && proofs::refuses_pruning(
                    *raw,
                    old(self).plan().journal,
                    fresh,
                    error,
                ),
            },
    {
        let ghost found = fresh;
        match pruned_journal_rewrite(raw, &self.plan.journal, fresh) {
            Ok(decision) => {
                self.decided = Ghost(
                    Some(JournalFinding { raw: *raw, fresh: Some(found), decision }),
                );
                Ok(decision)
            },
            Err(error) => Err(error),
        }
    }

    /// Takes what the journal's rewrite did: what was decided, or nothing where
    /// the journal is to be left alone.
    pub fn take_journal(&mut self, outcome: JournalRewriteOutcome)
        requires
            old(self).well_formed(),
            old(self).stage() == ApplyStage::RewriteJournal,
            outcome.is_consistent(),
            if old(self).work() == JournalWork::Leave {
                !outcome.changed
            } else {
                old(self).decided_journal() is Some && proofs::is_outcome_of(
                    outcome,
                    (old(self).decided_journal()->0).decision,
                    (old(self).decided_journal()->0).raw.listed().len(),
                )
            },
        ensures
            final(self).well_formed(),
            final(self).continues(old(self)),
            final(self).expected_head() == old(self).expected_head(),
            final(self).cycle_log() == old(self).cycle_log(),
            final(self).findings() == (ApplyFindings {
                journal: outcome,
                ..old(self).findings()
            }),
    {
        self.findings.journal = outcome;
        self.advance();
    }

    /// Takes the log of cycles as it is now: untouched without a copy, and grown
    /// by exactly the cycle's line with one.
    pub fn verify_cycle_log(&mut self, after: &Option<Vec<u8>>) -> (checked: Result<(), Error>)
        requires
            old(self).well_formed(),
            old(self).stage() == ApplyStage::VerifyCycleLog,
        ensures
            final(self).well_formed(),
            ({
                let holds = compaction_phase::cycle_log_holds(
                    old(self).cycle_log(),
                    *after,
                    compaction_phase::entry_of(old(self).findings().compaction),
                );
                match checked {
                    Ok(_) => {
                        &&& holds
                        &&& final(self).continues(old(self))
                        &&& final(self).expected_head() == old(self).expected_head()
                        &&& final(self).findings() == old(self).findings()
                    },
                    Err(error) => !holds && *final(self) == *old(self) && error.refuses(
                        compaction_phase::cycle_log_text(
                            old(self).findings().compaction is Some,
                        ),
                    ),
                }
            }),
    {
        match verify_gc_log_delta(&self.cycle_log, after, &self.findings.compaction) {
            Ok(_) => {
                self.advance();
                Ok(())
            },
            Err(error) => Err(error),
        }
    }

    /// The head that the run must end at.
    pub fn expected_head_after(&self) -> (head: RecordIdentifier)
        ensures
            head == self.expected_head(),
    {
        self.expected_head
    }

    /// Takes the head that a fresh reopen selected and proved, and the journal
    /// that it analysed.
    pub fn verify_store(
        &mut self,
        selected: RecordIdentifier,
        raw: &RawJournal,
        fresh: &JournalAnalysis,
    ) -> (checked: Result<(), Error>)
        requires
            old(self).well_formed(),
            old(self).stage() == ApplyStage::VerifyStore,
            raw.well_formed(),
        ensures
            final(self).well_formed(),
            ({
                let prunes = old(self).options()@.tasks.contains(MaintenanceTask::Journal);
                let planned = old(self).plan().journal;
                let head = old(self).copied_head();
                match checked {
                    Ok(_) => {
                        &&& selected == old(self).expected_head()
                        &&& journal_phase::final_journal_holds(*raw, head, prunes, planned, *fresh)
                        &&& final(self).continues(old(self))
                        &&& final(self).proved_journal() == Some((*raw, *fresh))
                        &&& final(self).expected_head() == old(self).expected_head()
                        &&& final(self).findings() == (ApplyFindings {
                            head_after: selected,
                            ..old(self).findings()
                        })
                    },
                    Err(error) => *final(self) == *old(self) && if selected != old(self).expected_head() {
                        error.refuses(
                            journal_phase::other_final_head_text(
                                old(self).expected_head(),
                                selected,
                            ),
                        )
                    } else {
                        !journal_phase::final_journal_holds(*raw, head, prunes, planned, *fresh)
                            && journal_phase::final_journal_refusal(
                            error,
                            *raw,
                            head,
                            prunes,
                            planned,
                            *fresh,
                        )
                    },
                }
            }),
    {
        match require_final_head(self.expected_head, selected) {
            Ok(_) => {},
            Err(error) => {
                return Err(error);
            },
        }
        let prunes = self.options.contains(MaintenanceTask::Journal);
        let head = self.compacted_head();
        match verify_final_journal(raw, head, prunes, &self.plan.journal, fresh) {
            Ok(_) => {
                self.findings.head_after = selected;
                self.proved = Ghost(Some((*raw, *fresh)));
                self.advance();
                Ok(())
            },
            Err(error) => Err(error),
        }
    }

    /// Goes on once the lock was proved to be held, before recovery material goes.
    pub fn recovery_lock_proved(&mut self)
        requires
            old(self).well_formed(),
            old(self).stage() == ApplyStage::ProveRecoveryLock,
        ensures
            final(self).well_formed(),
            final(self).continues(old(self)),
            final(self).expected_head() == old(self).expected_head(),
            final(self).cycle_log() == old(self).cycle_log(),
            final(self).findings() == old(self).findings(),
    {
        self.advance();
    }

    /// Takes how many staging files went, and which did not.
    pub fn take_temporaries(&mut self, removals: PlannedFileRemovals)
        requires
            old(self).well_formed(),
            old(self).stage() == ApplyStage::RemoveTemporaries,
            is_finished_removal(
                removals,
                target_views(old(self).plan().temporaries@),
                PlannedFileRemovalFailureMode::Partial,
            ),
        ensures
            final(self).well_formed(),
            final(self).continues(old(self)),
            final(self).expected_head() == old(self).expected_head(),
            final(self).cycle_log() == old(self).cycle_log(),
            final(self).findings().temporaries.0 == removals@.removed,
            plan::failure_views(final(self).findings().temporaries.1@) == removals@.failures,
            final(self).findings() == (ApplyFindings {
                temporaries: final(self).findings().temporaries,
                ..old(self).findings()
            }),
    {
        let report = report_of(
            removals,
            Ghost(target_views(self.plan.temporaries@)),
            Ghost(PlannedFileRemovalFailureMode::Partial),
        );
        self.findings.temporaries = report;
        self.advance();
    }

    /// Takes how many recovery backups went, and which did not.
    pub fn take_recovery_backups(&mut self, removals: PlannedFileRemovals)
        requires
            old(self).well_formed(),
            old(self).stage() == ApplyStage::RemoveRecoveryBackups,
            is_finished_removal(
                removals,
                target_views(old(self).plan().recovery_backups@),
                PlannedFileRemovalFailureMode::Partial,
            ),
        ensures
            final(self).well_formed(),
            final(self).continues(old(self)),
            final(self).expected_head() == old(self).expected_head(),
            final(self).cycle_log() == old(self).cycle_log(),
            final(self).findings().recovery_backups.0 == removals@.removed,
            plan::failure_views(final(self).findings().recovery_backups.1@) == removals@.failures,
            final(self).findings() == (ApplyFindings {
                recovery_backups: final(self).findings().recovery_backups,
                ..old(self).findings()
            }),
    {
        let report = report_of(
            removals,
            Ghost(target_views(self.plan.recovery_backups@)),
            Ghost(PlannedFileRemovalFailureMode::Partial),
        );
        self.findings.recovery_backups = report;
        self.advance();
    }

    /// Goes on once the directory is durable.
    pub fn directory_synced(&mut self)
        requires
            old(self).well_formed(),
            old(self).stage() == ApplyStage::SyncDirectory,
        ensures
            final(self).well_formed(),
            final(self).continues(old(self)),
            final(self).expected_head() == old(self).expected_head(),
            final(self).cycle_log() == old(self).cycle_log(),
            final(self).findings() == old(self).findings(),
    {
        self.advance();
    }

    /// Takes what the archives and the recovery backups measure in the end.
    pub fn take_result(&mut self, archive_bytes: u64, backup_bytes: u64)
        requires
            old(self).well_formed(),
            old(self).stage() == ApplyStage::MeasureResult,
        ensures
            final(self).well_formed(),
            final(self).continues(old(self)),
            final(self).expected_head() == old(self).expected_head(),
            final(self).cycle_log() == old(self).cycle_log(),
            final(self).findings() == (ApplyFindings {
                archive_bytes_after: archive_bytes,
                retained_recovery_backup_bytes: backup_bytes,
                ..old(self).findings()
            }),
    {
        self.findings.archive_bytes_after = archive_bytes;
        self.findings.retained_recovery_backup_bytes = backup_bytes;
        self.advance();
    }

    /// The outcome of a run that came to its end.
    ///
    /// Every planned checkpoint is gone. The run ends at the head that it
    /// published, or where it began. A copy wrote the generation that the plan
    /// stated, and left one line in the journal. A backup of the journal is named
    /// exactly if lines left it. Of a task that was selected every planned file
    /// went or is reported; one that was not selected removed nothing.
    pub fn finish(self) -> (outcome: CompactionOutcome)
        requires
            self.well_formed(),
            self.stage() == ApplyStage::Finished,
        ensures
            session::concludes(outcome, self.findings()),
            outcome.head_before == self.plan().current_head,
            outcome.head_after == self.expected_head(),
            outcome.removed_checkpoints == self.plan().checkpoints.names@.len(),
            outcome.compacted is Some <==> self.plan().effective_compaction_kind is Some,
            outcome.compacted matches Some(compacted) ==> self.plan().writes(compacted.generation),
            outcome.journal_backup_path is Some <==> outcome.removed_journal_lines != 0,
            self.plan().effective_compaction_kind is None && self.plan().checkpoints.names@.len()
                == 0 ==> outcome.head_after == outcome.head_before,
            !self.options()@.tasks.contains(MaintenanceTask::StaleArchives)
                ==> outcome.removed_stale_archives == 0,
            !self.options()@.tasks.contains(MaintenanceTask::StaleTemporaries)
                ==> outcome.removed_temporaries == 0,
            !self.options()@.tasks.contains(MaintenanceTask::RecoveryBackups)
                ==> outcome.removed_recovery_backups == 0,
            self.options()@.tasks.contains(MaintenanceTask::StaleArchives) ==> is_report_on(
                (outcome.removed_stale_archives, self.findings().stale_archives.1),
                stale_views(self.plan().stale_archives@),
            ),
            self.options()@.tasks.contains(MaintenanceTask::StaleTemporaries) ==> is_report_on(
                (outcome.removed_temporaries, self.findings().temporaries.1),
                target_views(self.plan().temporaries@),
            ),
            self.options()@.tasks.contains(MaintenanceTask::RecoveryBackups) ==> is_report_on(
                (outcome.removed_recovery_backups, self.findings().recovery_backups.1),
                target_views(self.plan().recovery_backups@),
            ),
            self.plan().effective_compaction_kind is Some ==> self.decided_journal() is Some
                && outcome.removed_journal_lines + 1 == (
            self.decided_journal()->0).raw.listed().len(),
            self.plan().effective_compaction_kind is None
                && !self.options()@.tasks.contains(MaintenanceTask::Journal)
                ==> outcome.removed_journal_lines == 0,
            self.plan().segment_plan is None && self.plan().effective_compaction_kind is None
                ==> outcome.removed_segments == 0 && outcome.rewritten_archives == 0
                && outcome.removed_reclaimable_archives == 0,
    {
        conclude(self.findings)
    }
}

} // verus!
