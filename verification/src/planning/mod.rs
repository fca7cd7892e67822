//! Building a plan: what the store must look like, what a run would reclaim,
//! and the actions an operator confirms.
use vstd::prelude::*;
use vstd::string::*;
use crate::identifier::{CompactionKind, GarbageCollectionGeneration, SegmentSet};
use crate::journal::analysis::JournalAnalysis;
use crate::journal::scan::RawJournal;
use crate::plan::{CompactionAction, HistoryProtection, StaleArchiveReason};

pub mod assembly;
pub mod content_census;
pub mod dates;
pub mod external_binaries;
pub mod head_verification;
pub mod history;
pub mod laws;
pub mod listing;
pub mod paths;
pub mod purge;
pub mod references;
pub mod segment_work;
pub mod segments;
pub mod shape;
pub mod state;
pub mod survey;
pub mod version_history_plan;
pub mod version_storage;

verus! {

/// The checkpoints that a run removes.
#[derive(Debug)]
pub struct CheckpointPlan {
    /// Their names, sorted and without repetition.
    pub names: Vec<String>,
    /// How many of them are expired.
    pub expired: usize,
    /// How many of them only lack a reference.
    pub unreferenced: usize,
}

/// When a file was last modified.
#[derive(Clone, Copy, Debug, PartialEq, Eq, Structural)]
pub struct ModificationTime {
    /// Whole seconds since the epoch.
    pub seconds: i64,
    /// Nanoseconds of the second.
    pub nanoseconds: u32,
}

/// Everything by which one directory entry is recognised.
#[derive(Debug)]
pub struct FileFingerprint {
    /// The entry's name, as bytes.
    pub name: Vec<u8>,
    /// One for a file, two for a directory, three for a symbolic link, four
    /// for anything else.
    pub kind: u8,
    /// The entry's size.
    pub length: u64,
    /// When the entry was last modified, where the file system says so.
    pub modified: Option<ModificationTime>,
    /// The device that holds the entry.
    pub device: u64,
    /// The entry's inode.
    pub inode: u64,
    /// When the inode last changed: whole seconds.
    pub change_time_seconds: i64,
    /// When the inode last changed: nanoseconds.
    pub change_time_nanoseconds: i64,
}

/// A directory and all its entries.
#[derive(Debug)]
pub struct DirectoryFingerprint {
    /// The entries, sorted by name.
    pub entries: Vec<FileFingerprint>,
    /// The device that holds the directory.
    pub device: u64,
    /// The directory's inode.
    pub inode: u64,
}

/// An archive file that serves no active segment.
#[derive(Debug)]
pub struct StaleArchive {
    /// The file's name.
    pub file_name: String,
    /// Why it can go.
    pub reason: StaleArchiveReason,
    /// Its size.
    pub bytes: u64,
    /// What it looked like when the plan was built.
    pub fingerprint: FileFingerprint,
}

/// A file that a run removes.
#[derive(Debug)]
pub struct PlannedFileRemoval {
    /// The file's name.
    pub file_name: String,
    /// Its size.
    pub bytes: u64,
    /// What it looked like when the plan was built.
    pub fingerprint: FileFingerprint,
}

/// What a sweep does to one archive.
#[derive(Debug)]
pub enum PlannedArchiveSweep {
    /// Every segment goes, and the file with them.
    Remove {
        /// The archive.
        file_name: String,
        /// How many segments go.
        segment_count: usize,
        /// The file's size.
        file_bytes: u64,
    },
    /// The survivors move to a replacement.
    Rewrite {
        /// The archive.
        file_name: String,
        /// The replacement.
        replacement_name: String,
        /// How many segments go.
        segment_count: usize,
        /// The entry bytes of those segments.
        eligible_entry_bytes: u64,
        /// The size of the archive file.
        source_file_bytes: u64,
    },
    /// The rewrite would not save enough.
    DeferredBySavings {
        /// The archive.
        file_name: String,
        /// How many segments could go.
        segment_count: usize,
        /// The entry bytes of those segments.
        eligible_entry_bytes: u64,
        /// Those bytes as an operator reads them.
        eligible_size: String,
    },
    /// The archive has no further generation letter.
    DeferredAtLastGeneration {
        /// The archive.
        file_name: String,
        /// How many segments could go.
        segment_count: usize,
        /// The entry bytes of those segments.
        eligible_entry_bytes: u64,
        /// Those bytes as an operator reads them.
        eligible_size: String,
    },
    /// The name of the next generation is taken.
    BlockedByOccupiedGeneration {
        /// The archive.
        file_name: String,
        /// The file that takes the name.
        occupied_name: String,
        /// How many segments could go.
        segment_count: usize,
        /// The entry bytes of those segments.
        eligible_entry_bytes: u64,
        /// Those bytes as an operator reads them.
        eligible_size: String,
    },
}

/// What a sweep does to each archive.
#[derive(Debug)]
pub struct SegmentCompactionPlan {
    /// One entry for each archive that holds a reclaimable segment.
    pub archives: Vec<PlannedArchiveSweep>,
}

/// What a read-only survey of the store establishes before any action is
/// planned.
#[derive(Debug)]
pub struct RepositoryState {
    /// The journal as it was read.
    pub raw_journal: RawJournal,
    /// What a run would keep and remove of it.
    pub journal_analysis: JournalAnalysis,
    /// Repairs that the operator authorised and that come first.
    pub pending_repairs: Vec<CompactionAction>,
    /// Whether nothing waits for a repair.
    pub index_available: bool,
    /// The checkpoints that go.
    pub checkpoints: CheckpointPlan,
    /// The certified output archive number of a run that moves the head.
    pub checkpoint_archive_number: Option<u32>,
}

/// Everything a plan decides about segments and archives.
#[derive(Debug)]
pub struct SegmentWork {
    /// The archive files that serve no active segment.
    pub stale_archives: Vec<StaleArchive>,
    /// The generation of the head segment.
    pub reference_generation: GarbageCollectionGeneration,
    /// What a standalone sweep does to each archive.
    pub segment_plan: Option<SegmentCompactionPlan>,
    /// The sweep that retires an interrupted run's output.
    pub residue_sweep: Option<SegmentCompactionPlan>,
    /// The sweep that follows this run's copy.
    pub predicted_sweep: Option<SegmentCompactionPlan>,
    /// Data segments that the retained history or the head reaches.
    pub protected_history_segments: SegmentSet,
    /// What the journal history protects.
    pub history_protection: HistoryProtection,
    /// Data segments stamped ahead of the head.
    pub residue_segments: usize,
    /// The head closure's data and bulk bytes, when the trace ran.
    pub closure_indexed_bytes: Option<(u64, u64)>,
    /// The compaction this run will actually perform: the selected kind,
    /// unless the copy was found pointless and dropped.
    pub effective_compaction_kind: Option<CompactionKind>,
    /// Whether the head is already fully compacted.
    pub already_fully_compacted: bool,
}

} // verus!
