//! Operator-facing maintenance options: which tasks run, what a recovery
//! backup costs, and how many journal revisions survive.
use std::time::Duration;
use vstd::prelude::*;
use vstd::string::*;
use crate::identifier::{ArchiveRewritePolicy, CompactionKind};

verus! {

/// One independently selectable cleanup category.
#[derive(Clone, Copy, Debug, PartialEq, Eq, Structural)]
pub enum MaintenanceTask {
    /// Remove parser-ignored, missing-segment, and unreadable historical
    /// journal lines while retaining every readable revision byte-for-byte.
    Journal,
    /// Run the standalone segment sweep.
    Segments,
    /// Remove superseded archive letters and empty incomplete archives.
    StaleArchives,
    /// Remove checkpoints whose valid timestamp is strictly before `now`.
    ExpiredCheckpoints,
    /// Remove provably redundant interrupted-operation staging files.
    StaleTemporaries,
    /// Remove checkpoints not referenced by string values under `/:async`.
    UnreferencedCheckpoints,
    /// Apply the explicitly configured age/count policy to recovery backups.
    RecoveryBackups,
    /// Rebuild the index of an active archive that has none, retaining the
    /// original bytes under a `.bak` name.
    RepairArchives,
}

impl MaintenanceTask {
    /// The name an operator reads.
    pub open spec fn text(self) -> Seq<char> {
        match self {
            MaintenanceTask::Journal => "journal"@,
            MaintenanceTask::Segments => "segments"@,
            MaintenanceTask::StaleArchives => "stale-archives"@,
            MaintenanceTask::ExpiredCheckpoints => "expired-checkpoints"@,
            MaintenanceTask::StaleTemporaries => "stale-temporaries"@,
            MaintenanceTask::UnreferencedCheckpoints => "unreferenced-checkpoints"@,
            MaintenanceTask::RecoveryBackups => "recovery-backups"@,
            MaintenanceTask::RepairArchives => "repair-archives"@,
        }
    }

    /// The name an operator reads.
    pub fn to_text(&self) -> (text: String)
        ensures
            text@ == self.text(),
    {
        let name = match self {
            MaintenanceTask::Journal => "journal",
            MaintenanceTask::Segments => "segments",
            MaintenanceTask::StaleArchives => "stale-archives",
            MaintenanceTask::ExpiredCheckpoints => "expired-checkpoints",
            MaintenanceTask::StaleTemporaries => "stale-temporaries",
            MaintenanceTask::UnreferencedCheckpoints => "unreferenced-checkpoints",
            MaintenanceTask::RecoveryBackups => "recovery-backups",
            MaintenanceTask::RepairArchives => "repair-archives",
        };
        String::from_str(name)
    }
}

/// Every task, in the order in which selected tasks are listed.
pub open spec fn every_task() -> Seq<MaintenanceTask> {
    seq![
        MaintenanceTask::Journal,
        MaintenanceTask::Segments,
        MaintenanceTask::StaleArchives,
        MaintenanceTask::ExpiredCheckpoints,
        MaintenanceTask::StaleTemporaries,
        MaintenanceTask::UnreferencedCheckpoints,
        MaintenanceTask::RecoveryBackups,
        MaintenanceTask::RepairArchives,
    ]
}

/// A set of tasks.
#[derive(Clone, Copy, Debug, PartialEq, Eq, Structural)]
pub struct TaskSelection {
    journal: bool,
    segments: bool,
    stale_archives: bool,
    expired_checkpoints: bool,
    stale_temporaries: bool,
    unreferenced_checkpoints: bool,
    recovery_backups: bool,
    repair_archives: bool,
}

impl TaskSelection {
    /// Whether a task is selected.
    pub closed spec fn has(self, task: MaintenanceTask) -> bool {
        match task {
            MaintenanceTask::Journal => self.journal,
            MaintenanceTask::Segments => self.segments,
            MaintenanceTask::StaleArchives => self.stale_archives,
            MaintenanceTask::ExpiredCheckpoints => self.expired_checkpoints,
            MaintenanceTask::StaleTemporaries => self.stale_temporaries,
            MaintenanceTask::UnreferencedCheckpoints => self.unreferenced_checkpoints,
            MaintenanceTask::RecoveryBackups => self.recovery_backups,
            MaintenanceTask::RepairArchives => self.repair_archives,
        }
    }

    /// No task at all.
    pub fn none() -> (selection: Self)
        ensures
            forall|task: MaintenanceTask| !#[trigger] selection.has(task),
    {
        TaskSelection {
            journal: false,
            segments: false,
            stale_archives: false,
            expired_checkpoints: false,
            stale_temporaries: false,
            unreferenced_checkpoints: false,
            recovery_backups: false,
            repair_archives: false,
        }
    }

    /// The selection with one task set or cleared.
    pub fn with(self, task: MaintenanceTask, selected: bool) -> (selection: Self)
        ensures
            forall|other: MaintenanceTask|
                #[trigger] selection.has(other) == if other == task {
                    selected
                } else {
                    self.has(other)
                },
    {
        let mut selection = self;
        match task {
            MaintenanceTask::Journal => selection.journal = selected,
            MaintenanceTask::Segments => selection.segments = selected,
            MaintenanceTask::StaleArchives => selection.stale_archives = selected,
            MaintenanceTask::ExpiredCheckpoints => selection.expired_checkpoints = selected,
            MaintenanceTask::StaleTemporaries => selection.stale_temporaries = selected,
            MaintenanceTask::UnreferencedCheckpoints => selection.unreferenced_checkpoints =
            selected,
            MaintenanceTask::RecoveryBackups => selection.recovery_backups = selected,
            MaintenanceTask::RepairArchives => selection.repair_archives = selected,
        }
        selection
    }

    /// Whether a task is selected.
    pub fn contains(&self, task: MaintenanceTask) -> (selected: bool)
        ensures
            selected == self.has(task),
    {
        match task {
            MaintenanceTask::Journal => self.journal,
            MaintenanceTask::Segments => self.segments,
            MaintenanceTask::StaleArchives => self.stale_archives,
            MaintenanceTask::ExpiredCheckpoints => self.expired_checkpoints,
            MaintenanceTask::StaleTemporaries => self.stale_temporaries,
            MaintenanceTask::UnreferencedCheckpoints => self.unreferenced_checkpoints,
            MaintenanceTask::RecoveryBackups => self.recovery_backups,
            MaintenanceTask::RepairArchives => self.repair_archives,
        }
    }
}

/// Explicit retention policy required before cleanup may remove recovery
/// backups. Both conditions apply: a backup must be at least `minimum_age` old
/// and fall outside the newest `keep_latest_per_target` files for its target.
/// If modification times tie at the count boundary, every file in the tie is
/// retained because no safe newest-first order is provable.
#[derive(Clone, Copy, Debug, PartialEq, Eq)]
pub struct RecoveryBackupPolicy {
    /// Minimum age of a removable backup.
    pub minimum_age: Duration,
    /// Minimum number of newest backups retained for each original target;
    /// an mtime tie at the boundary can retain more.
    pub keep_latest_per_target: usize,
}

impl RecoveryBackupPolicy {
    /// Creates the mandatory age-and-count policy for opt-in backup cleanup.
    pub fn new(minimum_age: Duration, keep_latest_per_target: usize) -> (policy: Self)
        ensures
            policy == (RecoveryBackupPolicy { minimum_age, keep_latest_per_target }),
    {
        RecoveryBackupPolicy { minimum_age, keep_latest_per_target }
    }

    /// Minimum age of a removable backup.
    pub fn minimum_age(&self) -> (minimum_age: Duration)
        ensures
            minimum_age == self.minimum_age,
    {
        self.minimum_age
    }

    /// Minimum number of newest backups retained for each original target;
    /// an mtime tie at the boundary can retain more.
    pub fn keep_latest_per_target(&self) -> (count: usize)
        ensures
            count == self.keep_latest_per_target,
    {
        self.keep_latest_per_target
    }
}

/// A request to omit orphaned version histories from a copy.
#[derive(Clone, Copy, Debug, PartialEq, Eq, Structural)]
pub struct HistoryPurgeRequest {
    /// Histories whose newest version is younger than this stay.
    pub minimum_age_seconds: Option<u64>,
}

/// Cleanup selection and opt-in retention settings.
#[derive(Clone, Debug, PartialEq, Eq)]
pub struct CompactionOptions {
    tasks: TaskSelection,
    recovery_backup_policy: Option<RecoveryBackupPolicy>,
    journal_revision_retention: Option<usize>,
    archive_rewrite_policy: ArchiveRewritePolicy,
    compaction_kind: Option<CompactionKind>,
    always_copy: bool,
    history_purge: Option<HistoryPurgeRequest>,
}

/// What the options select.
pub struct OptionsView {
    /// The selected tasks.
    pub tasks: Set<MaintenanceTask>,
    /// The policy for recovery backups.
    pub recovery_backup_policy: Option<RecoveryBackupPolicy>,
    /// How many journal revisions stay.
    pub journal_revision_retention: Option<usize>,
    /// Which archives a sweep rewrites.
    pub archive_rewrite_policy: ArchiveRewritePolicy,
    /// The compaction that the run performs.
    pub compaction_kind: Option<CompactionKind>,
    /// Whether a store that is already compact is copied all the same.
    pub always_copy: bool,
    /// Whether and which orphaned version histories go.
    pub history_purge: Option<HistoryPurgeRequest>,
}

impl View for CompactionOptions {
    type V = OptionsView;

    closed spec fn view(&self) -> OptionsView {
        OptionsView {
            tasks: Set::new(|task: MaintenanceTask| self.tasks.has(task)),
            recovery_backup_policy: self.recovery_backup_policy,
            journal_revision_retention: self.journal_revision_retention,
            archive_rewrite_policy: self.archive_rewrite_policy,
            compaction_kind: self.compaction_kind,
            always_copy: self.always_copy,
            history_purge: self.history_purge,
        }
    }
}

/// What the conservative defaults select.
pub open spec fn default_view() -> OptionsView {
    OptionsView {
        tasks: set![
            MaintenanceTask::Journal,
            MaintenanceTask::Segments,
            MaintenanceTask::StaleArchives,
            MaintenanceTask::ExpiredCheckpoints,
            MaintenanceTask::StaleTemporaries,
        ],
        recovery_backup_policy: None,
        journal_revision_retention: None,
        archive_rewrite_policy: ArchiveRewritePolicy::EveryReclaimableArchive,
        compaction_kind: None,
        always_copy: false,
        history_purge: None,
    }
}

impl Default for CompactionOptions {
    fn default() -> (options: Self)
        ensures
            options@ == default_view(),
    {
        let tasks = TaskSelection {
            journal: true,
            segments: true,
            stale_archives: true,
            expired_checkpoints: true,
            stale_temporaries: true,
            unreferenced_checkpoints: false,
            recovery_backups: false,
            repair_archives: false,
        };
        let options = CompactionOptions {
            tasks,
            recovery_backup_policy: None,
            journal_revision_retention: None,
            archive_rewrite_policy: ArchiveRewritePolicy::EveryReclaimableArchive,
            compaction_kind: None,
            always_copy: false,
            history_purge: None,
        };
        assert(options@.tasks =~= default_view().tasks);
        options
    }
}

impl CompactionOptions {
    /// Starts with the conservative default task set.
    pub fn new() -> (options: Self)
        ensures
            options@ == default_view(),
    {
        Self::default()
    }

    /// Replaces the selected task set. An empty list performs a health-only
    /// plan and application.
    pub fn with_tasks(self, tasks: &[MaintenanceTask]) -> (options: Self)
        ensures
            options@ == (OptionsView { tasks: tasks@.to_set(), ..self@ }),
    {
        let mut options = self;
        let mut selection = TaskSelection::none();
        let mut index: usize = 0;
        while index < tasks.len()
            invariant
                index <= tasks@.len(),
                forall|task: MaintenanceTask|
                    #[trigger] selection.has(task) == tasks@.take(index as int).contains(task),
            decreases tasks@.len() - index,
        {
            let ghost shorter = tasks@.take(index as int);
            let ghost longer = tasks@.take(index as int + 1);
            let ghost before = selection;
            selection = selection.with(tasks[index], true);
            assert forall|task: MaintenanceTask| #[trigger] selection.has(task) == longer.contains(
                task,
            ) by {
                assert(before.has(task) == shorter.contains(task));
                assert(longer =~= shorter.push(tasks@[index as int]));
                if longer.contains(task) {
                    let k = choose|k: int| 0 <= k < longer.len() && longer[k] == task;
                    if k < index {
                        assert(shorter[k] == task);
                    }
                }
                if shorter.contains(task) {
                    let k = choose|k: int| 0 <= k < shorter.len() && shorter[k] == task;
                    assert(longer[k] == task);
                }
                assert(longer[index as int] == tasks@[index as int]);
            }
            index = index + 1;
        }
        assert(tasks@.take(index as int) =~= tasks@);
        options.tasks = selection;
        assert(options@.tasks =~= tasks@.to_set());
        options
    }

    /// Enables one task in addition to the current selection.
    pub fn with_task(self, task: MaintenanceTask) -> (options: Self)
        ensures
            options@ == (OptionsView { tasks: self@.tasks.insert(task), ..self@ }),
    {
        let mut options = self;
        options.tasks = options.tasks.with(task, true);
        assert(options@.tasks =~= self@.tasks.insert(task));
        options
    }

    /// Enables backup cleanup with its mandatory two-part retention policy.
    pub fn with_recovery_backup_policy(self, policy: RecoveryBackupPolicy) -> (options: Self)
        ensures
            options@ == (OptionsView {
                tasks: self@.tasks.insert(MaintenanceTask::RecoveryBackups),
                recovery_backup_policy: Some(policy),
                ..self@
            }),
    {
        let mut options = self.with_task(MaintenanceTask::RecoveryBackups);
        options.recovery_backup_policy = Some(policy);
        assert(options@.tasks =~= self@.tasks.insert(MaintenanceTask::RecoveryBackups));
        options
    }

    /// Keeps only the newest `revisions` resolvable journal revisions,
    /// removing the older lines and — decisively — releasing their segment
    /// closure from the history keep-veto.
    ///
    /// This implies the journal task: the bounded lines must actually leave
    /// the journal in the same run. A line that stopped being a root while
    /// remaining in the file would still be verified as retained history when
    /// the plan is validated, and the run would refuse itself.
    pub fn with_journal_revision_retention(self, revisions: usize) -> (options: Self)
        requires
            revisions > 0,
        ensures
            options@ == (OptionsView {
                tasks: self@.tasks.insert(MaintenanceTask::Journal),
                journal_revision_retention: Some(revisions),
                ..self@
            }),
    {
        let mut options = self.with_task(MaintenanceTask::Journal);
        options.journal_revision_retention = Some(revisions);
        assert(options@.tasks =~= self@.tasks.insert(MaintenanceTask::Journal));
        options
    }

    /// Applies the 25% savings heuristic instead of rewriting every archive
    /// that holds reclaimable segments.
    pub fn with_oak_savings_gate(self) -> (options: Self)
        ensures
            options@ == (OptionsView {
                archive_rewrite_policy: ArchiveRewritePolicy::OakSavingsGate,
                ..self@
            }),
    {
        let mut options = self;
        options.archive_rewrite_policy = ArchiveRewritePolicy::OakSavingsGate;
        assert(options@.tasks =~= self@.tasks);
        options
    }

    /// Which archives a sweep is willing to rewrite.
    pub fn archive_rewrite_policy(&self) -> (policy: ArchiveRewritePolicy)
        ensures
            policy == self@.archive_rewrite_policy,
    {
        self.archive_rewrite_policy
    }

    /// Deep-copies the head into a fresh garbage-collection generation as part
    /// of this run, and reclaims every generation the copy supersedes.
    pub fn with_compaction(self, kind: CompactionKind) -> (options: Self)
        ensures
            options@ == (OptionsView { compaction_kind: Some(kind), ..self@ }),
    {
        let mut options = self;
        options.compaction_kind = Some(kind);
        assert(options@.tasks =~= self@.tasks);
        options
    }

    /// The compaction this run performs, if any.
    pub fn compaction_kind(&self) -> (kind: Option<CompactionKind>)
        ensures
            kind == self@.compaction_kind,
    {
        self.compaction_kind
    }

    /// Carries checkpoints whose valid timestamp has passed into the fresh
    /// generation instead of dropping them.
    pub fn keeping_expired_checkpoints(self) -> (options: Self)
        ensures
            options@ == (OptionsView {
                tasks: self@.tasks.remove(MaintenanceTask::ExpiredCheckpoints),
                ..self@
            }),
    {
        let mut options = self;
        options.tasks = options.tasks.with(MaintenanceTask::ExpiredCheckpoints, false);
        assert(options@.tasks =~= self@.tasks.remove(MaintenanceTask::ExpiredCheckpoints));
        options
    }

    /// Also drops checkpoints that no string value under `/:async`
    /// references. Not a default: an operator-created checkpoint held for a
    /// backup is unreferenced by that rule.
    pub fn with_unreferenced_checkpoint_removal(self) -> (options: Self)
        ensures
            options@ == (OptionsView {
                tasks: self@.tasks.insert(MaintenanceTask::UnreferencedCheckpoints),
                ..self@
            }),
    {
        self.with_task(MaintenanceTask::UnreferencedCheckpoints)
    }

    /// Rebuilds the index of an active archive that has none, keeping the
    /// original under a `.bak` name.
    pub fn with_archive_index_repair(self) -> (options: Self)
        ensures
            options@ == (OptionsView {
                tasks: self@.tasks.insert(MaintenanceTask::RepairArchives),
                ..self@
            }),
    {
        self.with_task(MaintenanceTask::RepairArchives)
    }

    /// Copies the head even when it is already fully compacted.
    pub fn always_copying(self) -> (options: Self)
        ensures
            options@ == (OptionsView { always_copy: true, ..self@ }),
    {
        let mut options = self;
        options.always_copy = true;
        assert(options@.tasks =~= self@.tasks);
        options
    }

    /// Whether a store that is already compact is copied all the same.
    pub fn always_copy(&self) -> (always: bool)
        ensures
            always == self@.always_copy,
    {
        self.always_copy
    }

    /// Omits orphaned version histories from the copy, those younger than the
    /// minimum age excepted.
    pub fn purging_orphaned_version_histories(self, minimum_age_seconds: Option<u64>) -> (options:
        Self)
        ensures
            options@ == (OptionsView {
                history_purge: Some(HistoryPurgeRequest { minimum_age_seconds }),
                ..self@
            }),
    {
        let mut options = self;
        options.history_purge = Some(HistoryPurgeRequest { minimum_age_seconds });
        assert(options@.tasks =~= self@.tasks);
        options
    }

    /// Whether orphaned version histories are omitted from the copy.
    pub fn purges_orphaned_version_histories(&self) -> (purges: bool)
        ensures
            purges == (self@.history_purge is Some),
    {
        self.history_purge.is_some()
    }

    /// Which orphaned version histories are omitted from the copy.
    pub fn history_purge(&self) -> (request: Option<HistoryPurgeRequest>)
        ensures
            request == self@.history_purge,
    {
        self.history_purge
    }

    /// How many journal revisions stay.
    pub fn journal_revision_retention(&self) -> (revisions: Option<usize>)
        ensures
            revisions == self@.journal_revision_retention,
    {
        self.journal_revision_retention
    }

    /// The policy for recovery backups.
    pub fn recovery_backup_policy(&self) -> (policy: Option<RecoveryBackupPolicy>)
        ensures
            policy == self@.recovery_backup_policy,
    {
        self.recovery_backup_policy
    }

    /// Selected tasks in deterministic order.
    pub fn tasks(&self) -> (tasks: Vec<MaintenanceTask>)
        ensures
            tasks@ == every_task().filter(|task: MaintenanceTask| self@.tasks.contains(task)),
    {
        let candidates = [
            MaintenanceTask::Journal,
            MaintenanceTask::Segments,
            MaintenanceTask::StaleArchives,
            MaintenanceTask::ExpiredCheckpoints,
            MaintenanceTask::StaleTemporaries,
            MaintenanceTask::UnreferencedCheckpoints,
            MaintenanceTask::RecoveryBackups,
            MaintenanceTask::RepairArchives,
        ];
        let ghost selected = |task: MaintenanceTask| self@.tasks.contains(task);
        let mut tasks: Vec<MaintenanceTask> = Vec::new();
        let mut index: usize = 0;
        assert(candidates@ =~= every_task());
        assert(every_task().take(0) =~= Seq::empty());
        proof {
            reveal(Seq::filter);
        }
        while index < 8
            invariant
                index <= 8,
                candidates@ == every_task(),
                selected == (|task: MaintenanceTask| self@.tasks.contains(task)),
                tasks@ == every_task().take(index as int).filter(selected),
            decreases 8 - index,
        {
            let task = candidates[index];
            proof {
                let longer = every_task().take(index as int + 1);
                assert(longer.drop_last() =~= every_task().take(index as int));
                assert(longer.last() == task);
                reveal(Seq::filter);
            }
            if self.contains(task) {
                tasks.push(task);
            }
            index = index + 1;
        }
        assert(every_task().take(8) =~= every_task());
        tasks
    }

    /// Whether a category is selected.
    pub fn contains(&self, task: MaintenanceTask) -> (selected: bool)
        ensures
            selected == self@.tasks.contains(task),
    {
        self.tasks.contains(task)
    }
}

} // verus!
