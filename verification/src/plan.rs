//! What a planned run reports: the actions it would take, why an archive or
//! journal line is stale, and what the applied run did.
use vstd::prelude::*;
use vstd::string::*;
use crate::identifier::{
    CompactionKind, GarbageCollectionGeneration, RecordIdentifier, SegmentSet,
};
use crate::journal::analysis::JournalPlan;
use crate::options::MaintenanceTask;
use crate::planning::{
    CheckpointPlan, DirectoryFingerprint, PlannedFileRemoval, SegmentCompactionPlan, StaleArchive,
};
use crate::reclamation;
use crate::text;

verus! {

/// Why one physical journal line is removable.
#[derive(Clone, Copy, Debug, PartialEq, Eq, Structural)]
pub enum JournalRemovalReason {
    /// The tolerant journal reader skips a line that contains no ASCII space.
    ParserSkippedNoSpace,
    /// The first space-delimited field is not a valid record identifier.
    InvalidRecordIdentifier,
    /// The record identifier names a segment that is not present.
    MissingSegment,
    /// The non-current historical node revision does not fully traverse.
    UnreadableRevision,
    /// The revision resolves, but an explicit retention bound keeps only
    /// newer revisions.
    BeyondRetention,
}

impl JournalRemovalReason {
    /// The reason in an operator's words.
    pub open spec fn text(self) -> Seq<char> {
        match self {
            JournalRemovalReason::ParserSkippedNoSpace => "parser-skipped (no ASCII space)"@,
            JournalRemovalReason::InvalidRecordIdentifier => "invalid record identifier"@,
            JournalRemovalReason::MissingSegment => "missing segment"@,
            JournalRemovalReason::UnreadableRevision => "unreadable historical revision"@,
            JournalRemovalReason::BeyondRetention => "beyond the journal retention bound"@,
        }
    }

    /// The reason in an operator's words.
    pub fn to_text(&self) -> (text: String)
        ensures
            text@ == self.text(),
    {
        let words = match self {
            JournalRemovalReason::ParserSkippedNoSpace => "parser-skipped (no ASCII space)",
            JournalRemovalReason::InvalidRecordIdentifier => "invalid record identifier",
            JournalRemovalReason::MissingSegment => "missing segment",
            JournalRemovalReason::UnreadableRevision => "unreadable historical revision",
            JournalRemovalReason::BeyondRetention => "beyond the journal retention bound",
        };
        String::from_str(words)
    }
}

/// What the removal of a journal line states.
pub struct RemovalView {
    /// One-based physical line number.
    pub line_number: nat,
    /// The record the line names.
    pub record_identifier: Option<RecordIdentifier>,
    /// Why the line goes.
    pub reason: JournalRemovalReason,
    /// The first bytes of the line's content.
    pub preview: Seq<u8>,
    /// Whether the content has more bytes.
    pub preview_truncated: bool,
}

/// One physical journal line selected for removal.
///
/// The preview is an exact, bounded prefix of the line excluding its line
/// terminator. It is bytes rather than text so invalid UTF-8 remains
/// auditable; terminal applications must escape it before display.
#[derive(Clone, Debug, PartialEq, Eq)]
pub struct JournalLineRemoval {
    line_number: usize,
    record_identifier: Option<RecordIdentifier>,
    reason: JournalRemovalReason,
    preview: Vec<u8>,
    preview_truncated: bool,
}

impl View for JournalLineRemoval {
    type V = RemovalView;

    closed spec fn view(&self) -> RemovalView {
        RemovalView {
            line_number: self.line_number as nat,
            record_identifier: self.record_identifier,
            reason: self.reason,
            preview: self.preview@,
            preview_truncated: self.preview_truncated,
        }
    }
}

impl JournalLineRemoval {
    /// The removal with these parts.
    pub fn new(
        line_number: usize,
        record_identifier: Option<RecordIdentifier>,
        reason: JournalRemovalReason,
        preview: Vec<u8>,
        preview_truncated: bool,
    ) -> (removal: Self)
        ensures
            removal@ == (RemovalView {
                line_number: line_number as nat,
                record_identifier,
                reason,
                preview: preview@,
                preview_truncated,
            }),
    {
        JournalLineRemoval { line_number, record_identifier, reason, preview, preview_truncated }
    }

    /// One-based physical line number in the journal snapshot.
    pub fn line_number(&self) -> (line_number: usize)
        ensures
            line_number == self@.line_number,
    {
        self.line_number
    }

    /// Parsed record identifier, when the line contained one.
    pub fn record_identifier(&self) -> (record_identifier: Option<RecordIdentifier>)
        ensures
            record_identifier == self@.record_identifier,
    {
        self.record_identifier
    }

    /// Structured reason for removing this line.
    pub fn reason(&self) -> (reason: JournalRemovalReason)
        ensures
            reason == self@.reason,
    {
        self.reason
    }

    /// Exact bounded prefix of the line, excluding its terminator.
    pub fn preview_bytes(&self) -> (preview: &[u8])
        ensures
            preview@ == self@.preview,
    {
        self.preview.as_slice()
    }

    /// Whether bytes after [`Self::preview_bytes`] were omitted.
    pub fn preview_truncated(&self) -> (truncated: bool)
        ensures
            truncated == self@.preview_truncated,
    {
        self.preview_truncated
    }
}

/// What a list of removals states.
pub open spec fn removal_views(removals: Seq<JournalLineRemoval>) -> Seq<RemovalView> {
    removals.map_values(|removal: JournalLineRemoval| removal@)
}

/// Why an archive file can be removed without losing an active segment.
#[derive(Clone, Copy, Debug, PartialEq, Eq, Structural)]
pub enum StaleArchiveReason {
    /// A different letter of the same archive number has the newest valid
    /// index and is the active reader winner.
    Superseded,
    /// The file is empty and therefore contains no recoverable segment.
    EmptyIncomplete,
}

impl StaleArchiveReason {
    /// The reason in an operator's words.
    pub open spec fn text(self) -> Seq<char> {
        match self {
            StaleArchiveReason::Superseded => "superseded by the active archive generation"@,
            StaleArchiveReason::EmptyIncomplete => "empty incomplete archive"@,
        }
    }

    /// The reason in an operator's words.
    pub fn to_text(&self) -> (text: String)
        ensures
            text@ == self.text(),
    {
        let words = match self {
            StaleArchiveReason::Superseded => "superseded by the active archive generation",
            StaleArchiveReason::EmptyIncomplete => "empty incomplete archive",
        };
        String::from_str(words)
    }
}

/// Whether a planned deletion left its target in place.
#[derive(Clone, Copy, Debug, PartialEq, Eq, Structural)]
pub enum FileDeletionFailureKind {
    /// The target remains.
    Retained,
    /// Another actor had removed the target before.
    AlreadyAbsent,
}

/// What a failed deletion states.
pub struct DeletionFailureView {
    /// The file that was to go.
    pub file_name: Seq<char>,
    /// Why it did not go, or not by this run.
    pub error: Seq<char>,
    /// Whether it was there.
    pub kind: FileDeletionFailureKind,
}

/// A planned deletion that this cleanup could not perform or confirm itself.
///
/// The target usually remains for a later retry. It can instead have already
/// been absent when the guarded unlink was reached; use
/// [`Self::target_was_already_absent`] to distinguish that auditable race.
#[derive(Clone, Debug, PartialEq, Eq)]
pub struct FileDeletionFailure {
    file_name: String,
    error: String,
    kind: FileDeletionFailureKind,
}

impl View for FileDeletionFailure {
    type V = DeletionFailureView;

    closed spec fn view(&self) -> DeletionFailureView {
        DeletionFailureView { file_name: self.file_name@, error: self.error@, kind: self.kind }
    }
}

impl FileDeletionFailure {
    /// A deletion whose target remains.
    pub fn retained(file_name: String, error: String) -> (failure: Self)
        ensures
            failure@ == (DeletionFailureView {
                file_name: file_name@,
                error: error@,
                kind: FileDeletionFailureKind::Retained,
            }),
    {
        FileDeletionFailure { file_name, error, kind: FileDeletionFailureKind::Retained }
    }

    /// A deletion whose target was gone before.
    pub fn already_absent(file_name: String, error: String) -> (failure: Self)
        ensures
            failure@ == (DeletionFailureView {
                file_name: file_name@,
                error: error@,
                kind: FileDeletionFailureKind::AlreadyAbsent,
            }),
    {
        FileDeletionFailure { file_name, error, kind: FileDeletionFailureKind::AlreadyAbsent }
    }

    /// The same failure once more.
    pub fn copy(&self) -> (copied: Self)
        ensures
            copied@ == self@,
    {
        FileDeletionFailure {
            file_name: self.file_name.clone(),
            error: self.error.clone(),
            kind: self.kind,
        }
    }

    /// Exact managed file name involved in the partial deletion result.
    ///
    /// The path need not remain when [`Self::target_was_already_absent`]
    /// returns `true`.
    pub fn file_name(&self) -> (file_name: &str)
        ensures
            file_name@ == self@.file_name,
    {
        self.file_name.as_str()
    }

    /// Operating-system or consistency detail from the incomplete or
    /// externally satisfied deletion.
    pub fn error(&self) -> (error: &str)
        ensures
            error@ == self@.error,
    {
        self.error.as_str()
    }

    /// Whether another actor had already removed the exact planned pathname
    /// when cleanup reached its guarded deletion.
    pub fn target_was_already_absent(&self) -> (absent: bool)
        ensures
            absent == (self@.kind == FileDeletionFailureKind::AlreadyAbsent),
    {
        match self.kind {
            FileDeletionFailureKind::AlreadyAbsent => true,
            FileDeletionFailureKind::Retained => false,
        }
    }
}

/// What a list of failed deletions states.
pub open spec fn failure_views(failures: Seq<FileDeletionFailure>) -> Seq<DeletionFailureView> {
    failures.map_values(|failure: FileDeletionFailure| failure@)
}

/// One concrete, deterministically ordered cleanup action.
#[derive(Clone, Debug, PartialEq, Eq)]
#[allow(inconsistent_fields)]
pub enum CompactionAction {
    /// Rebuild the index of an active archive that has none.
    ///
    /// Reported by the read-only preview, which cannot do more than name the
    /// work: the repair itself happens under the repository lock, and every
    /// index-dependent decision can only be planned once it has.
    RepairArchiveIndex {
        /// Archive file name the rebuilt archive is installed under.
        file_name: String,
        /// Other generation letters of the same number, whose contents are
        /// merged into the rebuild and which are then retired to `.bak` names.
        retired_file_names: Vec<String>,
        /// Why the existing index was rejected.
        reason: String,
        /// Whole-file bytes across every letter that will be read.
        bytes: u64,
    },
    /// Rewrite the journal while retaining readable record lines verbatim.
    PruneJournal {
        /// Total physical lines removed.
        lines: usize,
        /// Lines the tolerant reader already skips.
        parser_ignored: usize,
        /// Syntactic record lines whose head segment is absent.
        missing_segments: usize,
        /// Non-current historical node roots that do not fully traverse.
        unreadable_revisions: usize,
        /// Resolvable revisions older than an explicit retention bound.
        beyond_retention: usize,
    },
    /// Atomically raise `store.version` from 1 to 2 before writing v2 data.
    UpgradeManifest,
    /// Remove checkpoints in one head update.
    RemoveCheckpoints {
        /// Exact checkpoint names, sorted and deduplicated.
        names: Vec<String>,
        /// Names selected because their valid timestamp has expired.
        expired: usize,
        /// Additional names selected by the opt-in `/:async` rule.
        unreferenced: usize,
    },
    /// Unlink a fully reclaimable active archive.
    RemoveReclaimableArchive {
        /// Current archive file name.
        file_name: String,
        /// Segments made unavailable by the unlink.
        segments: usize,
        /// Current whole-file bytes.
        bytes: u64,
    },
    /// Rewrite an active archive to its next letter with only survivors.
    RewriteArchive {
        /// Source archive file name.
        file_name: String,
        /// Exclusively created replacement name.
        replacement_name: String,
        /// Segments omitted from the replacement.
        segments: usize,
        /// TAR-entry bytes eligible for reclamation.
        eligible_bytes: u64,
    },
    /// Remove an inactive archive generation or empty incomplete archive.
    RemoveStaleArchive {
        /// Exact archive file name.
        file_name: String,
        /// Proof supporting removal.
        reason: StaleArchiveReason,
        /// Current whole-file bytes.
        bytes: u64,
    },
    /// Remove a provably redundant interrupted-operation staging file.
    RemoveTemporary {
        /// Exact file name.
        file_name: String,
        /// Current whole-file bytes.
        bytes: u64,
    },
    /// Retire every journal revision but the one the copy publishes.
    ///
    /// Named separately from `PruneJournal`, which describes removing lines
    /// that cannot resolve. This removes lines that resolve perfectly well, by
    /// policy, because the segments behind them are what the run reclaims.
    RetireJournalHistory {
        /// Physical journal lines present before the run, all of which are
        /// replaced by the single line naming the compacted head.
        revisions: usize,
    },
    /// Retire the output an interrupted earlier compaction left behind.
    RetireInterruptedCompactionResidue {
        /// Data segments found ahead of the head.
        segments: usize,
    },
    /// Omit orphaned version histories from the copy.
    PurgeOrphanedVersionHistories {
        /// Histories that go.
        histories: u64,
        /// Nodes those histories hold.
        nodes: u64,
        /// Checkpoints that still hold their own version storage.
        retained_checkpoints: u64,
    },
    /// Deep-copy the head, and every checkpoint this run retains, into a fresh
    /// garbage-collection generation.
    CopyHeadIntoFreshGeneration {
        /// Distinct node records the current head reaches.
        head_nodes: u64,
        /// The generation the copy writes into.
        target_generation: GarbageCollectionGeneration,
        /// Whether this is a full or a tail compaction.
        kind: CompactionKind,
    },
    /// Remove an explicitly authorized old recovery backup.
    RemoveRecoveryBackup {
        /// Exact file name.
        file_name: String,
        /// Current whole-file bytes.
        bytes: u64,
    },
}

/// What an action states.
#[allow(inconsistent_fields)]
pub enum ActionView {
    RepairArchiveIndex {
        file_name: Seq<char>,
        retired_file_names: Seq<Seq<char>>,
        reason: Seq<char>,
        bytes: u64,
    },
    PruneJournal {
        lines: usize,
        parser_ignored: usize,
        missing_segments: usize,
        unreadable_revisions: usize,
        beyond_retention: usize,
    },
    UpgradeManifest,
    RemoveCheckpoints { names: Seq<Seq<char>>, expired: usize, unreferenced: usize },
    RemoveReclaimableArchive { file_name: Seq<char>, segments: usize, bytes: u64 },
    RewriteArchive {
        file_name: Seq<char>,
        replacement_name: Seq<char>,
        segments: usize,
        eligible_bytes: u64,
    },
    RemoveStaleArchive { file_name: Seq<char>, reason: StaleArchiveReason, bytes: u64 },
    RemoveTemporary { file_name: Seq<char>, bytes: u64 },
    RetireJournalHistory { revisions: usize },
    RetireInterruptedCompactionResidue { segments: usize },
    PurgeOrphanedVersionHistories { histories: u64, nodes: u64, retained_checkpoints: u64 },
    CopyHeadIntoFreshGeneration {
        head_nodes: u64,
        target_generation: GarbageCollectionGeneration,
        kind: CompactionKind,
    },
    RemoveRecoveryBackup { file_name: Seq<char>, bytes: u64 },
}

impl View for CompactionAction {
    type V = ActionView;

    open spec fn view(&self) -> ActionView {
        match *self {
            CompactionAction::RepairArchiveIndex {
                file_name,
                retired_file_names,
                reason,
                bytes,
            } => ActionView::RepairArchiveIndex {
                file_name: file_name@,
                retired_file_names: text::texts(retired_file_names@),
                reason: reason@,
                bytes,
            },
            CompactionAction::PruneJournal {
                lines,
                parser_ignored,
                missing_segments,
                unreadable_revisions,
                beyond_retention,
            } => ActionView::PruneJournal {
                lines,
                parser_ignored,
                missing_segments,
                unreadable_revisions,
                beyond_retention,
            },
            CompactionAction::UpgradeManifest => ActionView::UpgradeManifest,
            CompactionAction::RemoveCheckpoints { names, expired, unreferenced } =>
                ActionView::RemoveCheckpoints { names: text::texts(names@), expired, unreferenced },
            CompactionAction::RemoveReclaimableArchive { file_name, segments, bytes } =>
                ActionView::RemoveReclaimableArchive { file_name: file_name@, segments, bytes },
            CompactionAction::RewriteArchive {
                file_name,
                replacement_name,
                segments,
                eligible_bytes,
            } => ActionView::RewriteArchive {
                file_name: file_name@,
                replacement_name: replacement_name@,
                segments,
                eligible_bytes,
            },
            CompactionAction::RemoveStaleArchive { file_name, reason, bytes } =>
                ActionView::RemoveStaleArchive { file_name: file_name@, reason, bytes },
            CompactionAction::RemoveTemporary { file_name, bytes } => ActionView::RemoveTemporary {
                file_name: file_name@,
                bytes,
            },
            CompactionAction::RetireJournalHistory { revisions } =>
                ActionView::RetireJournalHistory { revisions },
            CompactionAction::RetireInterruptedCompactionResidue { segments } =>
                ActionView::RetireInterruptedCompactionResidue { segments },
            CompactionAction::PurgeOrphanedVersionHistories {
                histories,
                nodes,
                retained_checkpoints,
            } => ActionView::PurgeOrphanedVersionHistories {
                histories,
                nodes,
                retained_checkpoints,
            },
            CompactionAction::CopyHeadIntoFreshGeneration {
                head_nodes,
                target_generation,
                kind,
            } => ActionView::CopyHeadIntoFreshGeneration { head_nodes, target_generation, kind },
            CompactionAction::RemoveRecoveryBackup { file_name, bytes } =>
                ActionView::RemoveRecoveryBackup { file_name: file_name@, bytes },
        }
    }
}

/// What a list of actions states.
pub open spec fn action_views(actions: Seq<CompactionAction>) -> Seq<ActionView> {
    actions.map_values(|action: CompactionAction| action@)
}

/// Copies a list of strings.
pub fn copy_strings(strings: &Vec<String>) -> (copied: Vec<String>)
    ensures
        text::texts(copied@) == text::texts(strings@),
{
    let copied = strings.clone();
    assert(text::texts(copied@) =~= text::texts(strings@));
    copied
}

impl CompactionAction {
    /// The same action once more.
    pub fn copy(&self) -> (copied: Self)
        ensures
            copied@ == self@,
    {
        match self {
            CompactionAction::RepairArchiveIndex {
                file_name,
                retired_file_names,
                reason,
                bytes,
            } => CompactionAction::RepairArchiveIndex {
                file_name: file_name.clone(),
                retired_file_names: copy_strings(retired_file_names),
                reason: reason.clone(),
                bytes: *bytes,
            },
            CompactionAction::PruneJournal {
                lines,
                parser_ignored,
                missing_segments,
                unreadable_revisions,
                beyond_retention,
            } => CompactionAction::PruneJournal {
                lines: *lines,
                parser_ignored: *parser_ignored,
                missing_segments: *missing_segments,
                unreadable_revisions: *unreadable_revisions,
                beyond_retention: *beyond_retention,
            },
            CompactionAction::UpgradeManifest => CompactionAction::UpgradeManifest,
            CompactionAction::RemoveCheckpoints { names, expired, unreferenced } =>
                CompactionAction::RemoveCheckpoints {
                names: copy_strings(names),
                expired: *expired,
                unreferenced: *unreferenced,
            },
            CompactionAction::RemoveReclaimableArchive { file_name, segments, bytes } =>
                CompactionAction::RemoveReclaimableArchive {
                file_name: file_name.clone(),
                segments: *segments,
                bytes: *bytes,
            },
            CompactionAction::RewriteArchive {
                file_name,
                replacement_name,
                segments,
                eligible_bytes,
            } => CompactionAction::RewriteArchive {
                file_name: file_name.clone(),
                replacement_name: replacement_name.clone(),
                segments: *segments,
                eligible_bytes: *eligible_bytes,
            },
            CompactionAction::RemoveStaleArchive { file_name, reason, bytes } =>
                CompactionAction::RemoveStaleArchive {
                file_name: file_name.clone(),
                reason: *reason,
                bytes: *bytes,
            },
            CompactionAction::RemoveTemporary { file_name, bytes } =>
                CompactionAction::RemoveTemporary { file_name: file_name.clone(), bytes: *bytes },
            CompactionAction::RetireJournalHistory { revisions } =>
                CompactionAction::RetireJournalHistory { revisions: *revisions },
            CompactionAction::RetireInterruptedCompactionResidue { segments } =>
                CompactionAction::RetireInterruptedCompactionResidue { segments: *segments },
            CompactionAction::PurgeOrphanedVersionHistories {
                histories,
                nodes,
                retained_checkpoints,
            } => CompactionAction::PurgeOrphanedVersionHistories {
                histories: *histories,
                nodes: *nodes,
                retained_checkpoints: *retained_checkpoints,
            },
            CompactionAction::CopyHeadIntoFreshGeneration {
                head_nodes,
                target_generation,
                kind,
            } => CompactionAction::CopyHeadIntoFreshGeneration {
                head_nodes: *head_nodes,
                target_generation: *target_generation,
                kind: *kind,
            },
            CompactionAction::RemoveRecoveryBackup { file_name, bytes } =>
                CompactionAction::RemoveRecoveryBackup {
                file_name: file_name.clone(),
                bytes: *bytes,
            },
        }
    }
}

/// Segments this run identified as reclaimable and then declined to remove.
///
/// Every count here is garbage the mark phase proved removable; the archive
/// sweep kept it anyway, because rewriting the archive that holds it would not
/// repay the rewrite.
#[derive(Clone, Copy, Debug, PartialEq, Eq, Structural)]
pub struct RetainedReclaimable {
    /// Segments kept by the 25% savings gate.
    pub below_savings_gate: usize,
    /// Segments kept because the archive exhausted the `a`–`z` namespace.
    pub at_last_generation: usize,
    /// Segments kept because another generation pathname is occupied.
    pub blocked_by_occupied_generation: usize,
    /// TAR entry bytes those segments occupy, summed across every reason.
    pub bytes: u64,
}

impl RetainedReclaimable {
    /// Nothing retained.
    pub open spec fn nothing() -> Self {
        RetainedReclaimable {
            below_savings_gate: 0,
            at_last_generation: 0,
            blocked_by_occupied_generation: 0,
            bytes: 0,
        }
    }

    /// Segments identified as reclaimable and left in place, all reasons.
    pub fn segments(&self) -> (segments: usize)
        ensures
            segments == if self.below_savings_gate + self.at_last_generation
                + self.blocked_by_occupied_generation > usize::MAX {
                usize::MAX as int
            } else {
                self.below_savings_gate + self.at_last_generation
                    + self.blocked_by_occupied_generation
            },
    {
        self.below_savings_gate.saturating_add(self.at_last_generation).saturating_add(
            self.blocked_by_occupied_generation,
        )
    }
}

impl Default for RetainedReclaimable {
    fn default() -> (retained: Self)
        ensures
            retained == RetainedReclaimable::nothing(),
    {
        RetainedReclaimable {
            below_savings_gate: 0,
            at_last_generation: 0,
            blocked_by_occupied_generation: 0,
            bytes: 0,
        }
    }
}

/// What the journal-history keep-veto protects, and what it costs.
#[derive(Clone, Copy, Debug, PartialEq, Eq, Structural)]
pub struct HistoryProtection {
    /// Data segments reachable only from a historical journal revision, and
    /// not from the current head.
    pub history_only_segments: usize,
    /// Segments this same sweep would physically free with the veto lifted and
    /// nothing else changed.
    pub would_be_reclaimable_segments: usize,
    /// Bytes those segments occupy, whole archive files included where the
    /// unvetoed sweep would unlink one outright.
    pub would_be_reclaimable_bytes: u64,
}

impl Default for HistoryProtection {
    fn default() -> (protection: Self)
        ensures
            protection == (HistoryProtection {
                history_only_segments: 0,
                would_be_reclaimable_segments: 0,
                would_be_reclaimable_bytes: 0,
            }),
    {
        HistoryProtection {
            history_only_segments: 0,
            would_be_reclaimable_segments: 0,
            would_be_reclaimable_bytes: 0,
        }
    }
}

/// What the external binaries of the walked content amount to.
#[derive(Clone, Copy, Debug, PartialEq, Eq, Structural)]
pub struct ExternalBinaryFootprint {
    /// Distinct external binaries.
    pub distinct_references: u64,
    /// Bytes of those whose identifier carries a length.
    pub measured_bytes: u64,
    /// Those whose identifier carries none.
    pub unmeasured_references: u64,
}

/// What orphaned version histories hold, reported on every run.
#[derive(Clone, Copy, Debug, PartialEq, Eq, Structural)]
pub struct OrphanedVersionHistoryReport {
    /// Histories whose versionable is gone.
    pub orphaned_histories: u64,
    /// Nodes in them.
    pub orphaned_nodes: u64,
    /// Inline binary bytes in them.
    pub inline_binary_bytes: u64,
    /// External binary references in them.
    pub external_references: u64,
    /// Bulk segments only the released histories reference.
    pub released_bulk_segments: u64,
    /// Indexed bytes of those segments.
    pub released_bulk_bytes: u64,
    /// The released histories' share of the node records, estimated.
    pub node_record_bytes_estimate: u64,
    /// Histories whose versionable identifier does not parse.
    pub malformed_identifiers: u64,
    /// Checkpoints that keep their own version storage.
    pub retained_checkpoints: u64,
}

/// The histories that a copy omits.
#[derive(Debug)]
pub struct VersionHistoryPurge {
    /// The records the copy declines to enter.
    pub omitted_records: Vec<RecordIdentifier>,
    /// The records whose copy depends on the scope they are copied in.
    pub context_dependent_records: Vec<RecordIdentifier>,
    /// Histories that go.
    pub histories: u64,
    /// Nodes those histories hold.
    pub nodes: u64,
    /// Checkpoints that keep their own version storage.
    pub retained_checkpoints: u64,
}

/// A strictly read-only cleanup analysis.
#[derive(Debug)]
pub struct CompactionPlan {
    /// Canonical absolute repository directory this plan describes.
    pub directory: String,
    /// Selected cleanup categories in deterministic order.
    pub tasks: Vec<MaintenanceTask>,
    /// Exact current head verified while planning.
    pub current_head: RecordIdentifier,
    /// Concrete mutations in deterministic display order.
    pub actions: Vec<CompactionAction>,
    /// Non-fatal deferrals and malformed metadata retained for safety.
    pub warnings: Vec<String>,
    /// Sum of whole files and TAR entry bytes selected for removal.
    pub estimated_reclaimable_bytes: u64,
    /// Sum of the current source-file sizes of archives to be rewritten.
    pub estimated_archive_rewrite_source_bytes: u64,
    /// What the sweeps declined to reclaim.
    pub retained_reclaimable: RetainedReclaimable,
    /// What the journal history protects.
    pub history_protection: HistoryProtection,
    /// The directory that the plan was built from.
    pub fingerprint: DirectoryFingerprint,
    /// What the run keeps and removes of the journal.
    pub journal: JournalPlan,
    /// The checkpoints that go.
    pub checkpoints: CheckpointPlan,
    /// The certified output archive number of a run that moves the head.
    pub checkpoint_archive_number: Option<u32>,
    /// The archive files that serve no active segment.
    pub stale_archives: Vec<StaleArchive>,
    /// The staging files that go.
    pub temporaries: Vec<PlannedFileRemoval>,
    /// The recovery backups that go.
    pub recovery_backups: Vec<PlannedFileRemoval>,
    /// What a standalone sweep does to each archive.
    pub segment_plan: Option<SegmentCompactionPlan>,
    /// The sweep that retires an interrupted earlier compaction's output,
    /// applied before this run's own copy.
    pub residue_sweep: Option<SegmentCompactionPlan>,
    /// The generation of the head segment.
    pub reference_generation: GarbageCollectionGeneration,
    /// Data segments that the retained history or the head reaches.
    pub protected_history_segments: SegmentSet,
    /// Whether the store is raised to version 2 first.
    pub manifest_upgrade: bool,
    /// What a copy writes at most, when one is selected.
    pub predicted_copy_output_bytes: Option<u64>,
    /// The external binaries of the walked content.
    pub external_binary_footprint: ExternalBinaryFootprint,
    /// The compaction that the run performs.
    pub effective_compaction_kind: Option<CompactionKind>,
    /// Whether the head was found fully compacted.
    pub already_fully_compacted: bool,
    /// What orphaned version histories hold.
    pub orphaned_version_histories: OrphanedVersionHistoryReport,
    /// The histories that a copy omits.
    pub version_history_purge: Option<VersionHistoryPurge>,
}

impl CompactionPlan {
    /// Whether the copy of this plan writes a generation: the one that follows
    /// the head's own.
    pub open spec fn writes(&self, generation: GarbageCollectionGeneration) -> bool {
        self.effective_compaction_kind matches Some(kind) && generation
            == reclamation::target_generation(self.reference_generation, kind)
    }

    /// Canonical absolute repository directory this plan describes.
    pub fn directory(&self) -> (directory: &str)
        ensures
            directory@ == self.directory@,
    {
        self.directory.as_str()
    }

    /// Selected cleanup categories in deterministic order.
    pub fn tasks(&self) -> (tasks: &[MaintenanceTask])
        ensures
            tasks@ == self.tasks@,
    {
        self.tasks.as_slice()
    }

    /// Exact current head verified while planning.
    pub fn current_head(&self) -> (head: RecordIdentifier)
        ensures
            head == self.current_head,
    {
        self.current_head
    }

    /// Concrete mutations in deterministic display order.
    pub fn actions(&self) -> (actions: &[CompactionAction])
        ensures
            actions@ == self.actions@,
    {
        self.actions.as_slice()
    }

    /// Exact physical journal lines selected for removal. This is empty unless
    /// the journal task was selected; internal journal analysis still runs for
    /// the safety of other tasks.
    pub fn journal_line_removals(&self) -> (removals: &[JournalLineRemoval])
        ensures
            removals@ == if self.tasks@.contains(MaintenanceTask::Journal) {
                self.journal.removals@
            } else {
                Seq::empty()
            },
    {
        let mut index: usize = 0;
        while index < self.tasks.len()
            invariant
                index <= self.tasks@.len(),
                forall|i: int| 0 <= i < index ==> self.tasks@[i] != MaintenanceTask::Journal,
            decreases self.tasks@.len() - index,
        {
            if self.tasks[index] == MaintenanceTask::Journal {
                assert(self.tasks@[index as int] == MaintenanceTask::Journal);
                return self.journal.removals.as_slice();
            }
            index = index + 1;
        }
        let removals = vstd::slice::slice_subrange(self.journal.removals.as_slice(), 0, 0);
        assert(removals@ =~= Seq::empty());
        removals
    }

    /// Non-fatal deferrals and malformed metadata retained for safety.
    pub fn warnings(&self) -> (warnings: &[String])
        ensures
            warnings@ == self.warnings@,
    {
        self.warnings.as_slice()
    }

    /// Conservative sum of whole files and TAR entry bytes selected for
    /// removal. Archive overhead and deletion failures can make the actual
    /// result differ.
    pub fn estimated_reclaimable_bytes(&self) -> (bytes: u64)
        ensures
            bytes == self.estimated_reclaimable_bytes,
    {
        self.estimated_reclaimable_bytes
    }

    /// Sum of the current source-file sizes for archives that will be
    /// rewritten.
    pub fn estimated_archive_rewrite_source_bytes(&self) -> (bytes: u64)
        ensures
            bytes == self.estimated_archive_rewrite_source_bytes,
    {
        self.estimated_archive_rewrite_source_bytes
    }

    /// Segments proved reclaimable that this run will nevertheless leave in
    /// place. Nonzero alongside a zero reclaimable estimate means the store
    /// holds garbage this cleanup declined, not that it holds none.
    pub fn retained_reclaimable_segments(&self) -> (segments: usize)
        ensures
            segments == if self.retained_reclaimable.below_savings_gate
                + self.retained_reclaimable.at_last_generation
                + self.retained_reclaimable.blocked_by_occupied_generation > usize::MAX {
                usize::MAX as int
            } else {
                self.retained_reclaimable.below_savings_gate
                    + self.retained_reclaimable.at_last_generation
                    + self.retained_reclaimable.blocked_by_occupied_generation
            },
    {
        self.retained_reclaimable.segments()
    }

    /// TAR entry bytes occupied by [`Self::retained_reclaimable_segments`].
    pub fn retained_reclaimable_bytes(&self) -> (bytes: u64)
        ensures
            bytes == self.retained_reclaimable.bytes,
    {
        self.retained_reclaimable.bytes
    }

    /// Data segments kept alive only because a historical journal revision
    /// still reaches them. Zero unless the segment task ran.
    pub fn history_protected_segments(&self) -> (segments: usize)
        ensures
            segments == self.history_protection.history_only_segments,
    {
        self.history_protection.history_only_segments
    }

    /// What retiring the journal history would make eligible: segments and
    /// bytes.
    pub fn history_protected_reclaimable(&self) -> (reclaimable: (usize, u64))
        ensures
            reclaimable.0 == self.history_protection.would_be_reclaimable_segments,
            reclaimable.1 == self.history_protection.would_be_reclaimable_bytes,
    {
        (
            self.history_protection.would_be_reclaimable_segments,
            self.history_protection.would_be_reclaimable_bytes,
        )
    }

    /// Whether application would request no mutation.
    pub fn is_empty(&self) -> (empty: bool)
        ensures
            empty == (self.actions@.len() == 0),
    {
        self.actions.len() == 0
    }
}

/// What a run's deep copy produced.
#[derive(Clone, Copy, Debug, PartialEq, Eq, Structural)]
pub struct CompactedGeneration {
    /// Distinct node records the copy rewrote.
    pub nodes: u64,
    /// The garbage-collection generation the copy wrote into.
    pub generation: GarbageCollectionGeneration,
}

/// Result of a prepared maintenance application and its final fresh
/// verification.
#[derive(Debug)]
pub struct CompactionOutcome {
    /// Head before cleanup.
    pub head_before: RecordIdentifier,
    /// Freshly reopened and verified head after cleanup.
    pub head_after: RecordIdentifier,
    /// Number of checkpoints removed in one logical commit.
    pub removed_checkpoints: u64,
    /// Journal physical lines removed.
    pub removed_journal_lines: usize,
    /// Active archives rewritten.
    pub rewritten_archives: usize,
    /// Active fully reclaimable archives unlinked.
    pub removed_reclaimable_archives: usize,
    /// Superseded/empty archive files unlinked.
    pub removed_stale_archives: usize,
    /// Proven staging files removed.
    pub removed_temporaries: usize,
    /// Opt-in recovery backups removed.
    pub removed_recovery_backups: usize,
    /// Archive indexes rebuilt before planning, under the repository lock.
    pub repaired_archives: usize,
    /// Recognized deletion targets this cleanup did not unlink itself.
    ///
    /// Most entries remain for retry; entries reported as already absent need
    /// no further deletion attempt.
    pub files_not_deleted: Vec<String>,
    /// Bytes in recognized archive files before application.
    pub archive_bytes_before: u64,
    /// Bytes in recognized archive files after application.
    pub archive_bytes_after: u64,
    /// Bytes still held by retained recovery backups after application.
    pub retained_recovery_backup_bytes: u64,
    /// Distinct node records copied into the fresh generation, and the
    /// generation they were copied into. `None` when the run did not compact.
    pub compacted: Option<CompactedGeneration>,
    /// Orphan segments removed from the active archive set.
    pub removed_segments: usize,
    /// Durable byte-exact journal backup created by this cleanup, if any.
    pub journal_backup_path: Option<String>,
    /// Planned deletions this cleanup did not perform itself.
    pub deletion_failures: Vec<FileDeletionFailure>,
}

impl CompactionOutcome {
    /// Orphan segments removed from the active archive set.
    pub fn removed_segments(&self) -> (segments: usize)
        ensures
            segments == self.removed_segments,
    {
        self.removed_segments
    }

    /// Durable byte-exact journal backup created by this cleanup, if any.
    pub fn journal_backup_path(&self) -> (path: Option<&str>)
        ensures
            match self.journal_backup_path {
                Some(stated) => path matches Some(shown) && shown@ == stated@,
                None => path is None,
            },
    {
        match &self.journal_backup_path {
            Some(path) => Some(path.as_str()),
            None => None,
        }
    }

    /// Planned deletions this cleanup did not perform itself, making the
    /// result partial even when another actor already removed a target.
    pub fn deletion_failures(&self) -> (failures: &[FileDeletionFailure])
        ensures
            failures@ == self.deletion_failures@,
    {
        self.deletion_failures.as_slice()
    }

    /// Whether this cleanup itself completed every planned deletion without an
    /// auditable partial result.
    pub fn is_complete(&self) -> (complete: bool)
        ensures
            complete == (self.deletion_failures@.len() == 0),
    {
        self.deletion_failures.len() == 0
    }
}

} // verus!
