//! What a repository directory must look like before a plan is built, and the
//! fingerprint by which a later change of any entry shows.
use vstd::prelude::*;
use vstd::string::*;
use crate::error::{refusal, Error};
use crate::options::{CompactionOptions, MaintenanceTask, OptionsView, RecoveryBackupPolicy};
use crate::order;
use crate::order::bytes_precede;
use crate::planning::{DirectoryFingerprint, FileFingerprint, ModificationTime};
use crate::text::text_eq;

verus! {

/// Why options cannot be carried out.
pub open spec fn options_fault(options: OptionsView) -> Option<Seq<char>> {
    if options.tasks.contains(MaintenanceTask::RecoveryBackups)
        && options.recovery_backup_policy is None {
        Some("recovery-backups requires an explicit age/count retention policy"@)
    } else if options.tasks.contains(MaintenanceTask::RepairArchives) && options.tasks.contains(
        MaintenanceTask::RecoveryBackups,
    ) {
        Some(
            "repair-archives and recovery-backups cannot run together: repair retires the original archive to a `.bak` name that the backup policy could then delete in the same run, discarding the only copy of any segment the rebuild could not read — repair first, verify the store, then retire the backups in a later run"@,
        )
    } else if options.journal_revision_retention is Some && !options.tasks.contains(
        MaintenanceTask::Journal,
    ) {
        Some(
            "a journal revision retention bound requires the journal task: the bounded lines must leave the journal in the same run, or they remain retained history and the segments behind them stay protected"@,
        )
    } else {
        None
    }
}

/// Refuses options that no run can carry out safely.
///
/// Backups need a policy. A repair makes backups that a policy of the same run
/// could delete, so the two never run together. And a bound on the journal's
/// revisions is one operation with the pruning: a line that is no longer a root
/// but stays in the journal would still be verified as retained history.
pub fn validate_options(options: &CompactionOptions) -> (checked: Result<(), Error>)
    ensures
        match checked {
            Ok(_) => options_fault(options@) is None,
            Err(error) => options_fault(options@) is Some && error.refuses(
                options_fault(options@)->0,
            ),
        },
{
    if options.contains(MaintenanceTask::RecoveryBackups)
        && options.recovery_backup_policy().is_none() {
        return Err(
            refusal("recovery-backups requires an explicit age/count retention policy"),
        );
    }
    if options.contains(MaintenanceTask::RepairArchives) && options.contains(
        MaintenanceTask::RecoveryBackups,
    ) {
        return Err(
            refusal(
                "repair-archives and recovery-backups cannot run together: repair retires the original archive to a `.bak` name that the backup policy could then delete in the same run, discarding the only copy of any segment the rebuild could not read — repair first, verify the store, then retire the backups in a later run",
            ),
        );
    }
    if options.journal_revision_retention().is_some() && !options.contains(
        MaintenanceTask::Journal,
    ) {
        return Err(
            refusal(
                "a journal revision retention bound requires the journal task: the bounded lines must leave the journal in the same run, or they remain retained history and the segments behind them stay protected",
            ),
        );
    }
    Ok(())
}

/// What is at a repository's path.
#[derive(Clone, Copy, Debug, PartialEq, Eq, Structural)]
pub struct RootFacts {
    /// Whether anything is there.
    pub exists: bool,
    /// Whether it is a symbolic link.
    pub is_symlink: bool,
    /// Whether it is a directory.
    pub is_directory: bool,
    /// Whether a manifest lies in it.
    pub has_manifest: bool,
    /// Whether a journal lies in it.
    pub has_journal: bool,
}

/// Why a path is no repository.
pub open spec fn root_fault(directory: Seq<char>, root: RootFacts) -> Option<Seq<char>> {
    if !root.exists {
        Some(directory + " is not a repository directory"@)
    } else if root.is_symlink {
        Some(
            "canonical repository target "@ + directory
                + " became a symbolic link after path resolution; refusing to continue"@,
        )
    } else if !root.is_directory {
        Some(directory + " is not a repository directory"@)
    } else if !root.has_manifest || !root.has_journal {
        Some(
            directory
                + " is not an existing segment-tar repository (manifest and journal.log are required)"@,
        )
    } else {
        None
    }
}

fn surrounded(before: &str, middle: &str, after: &str) -> (error: Error)
    ensures
        error.refuses(before@ + middle@ + after@),
{
    let mut details = String::new();
    details.append(before);
    details.append(middle);
    details.append(after);
    assert(details@ =~= before@ + middle@ + after@);
    refusal(details.as_str())
}

/// Refuses to fingerprint a path that is no directory any more.
pub fn require_directory(directory: &str, is_directory: bool) -> (checked: Result<(), Error>)
    ensures
        match checked {
            Ok(_) => is_directory,
            Err(error) => !is_directory && error.refuses(
                directory@ + " ceased to be a repository directory"@,
            ),
        },
{
    if is_directory {
        Ok(())
    } else {
        let error = surrounded("", directory, " ceased to be a repository directory");
        proof {
            reveal_strlit("");
            assert(""@ + directory@ =~= directory@);
        }
        Err(error)
    }
}

/// Refuses a path that leads nowhere, when it is resolved.
pub fn canonical_repository_directory(directory: &str, found: bool) -> (checked: Result<(), Error>)
    ensures
        match checked {
            Ok(_) => found,
            Err(error) => !found && error.refuses(directory@ + " is not a repository directory"@),
        },
{
    if found {
        Ok(())
    } else {
        let error = surrounded("", directory, " is not a repository directory");
        proof {
            reveal_strlit("");
            assert(""@ + directory@ =~= directory@);
        }
        Err(error)
    }
}

/// Refuses a path that is no repository. Nothing is ever created in one that
/// is empty.
pub fn validate_repository_shape(directory: &str, root: RootFacts) -> (checked: Result<(), Error>)
    ensures
        match checked {
            Ok(_) => root_fault(directory@, root) is None,
            Err(error) => root_fault(directory@, root) is Some && error.refuses(
                root_fault(directory@, root)->0,
            ),
        },
{
    assert("" @ =~= Seq::<char>::empty()) by {
        reveal_strlit("");
    }
    assert(""@ + directory@ =~= directory@);
    if !root.exists {
        return Err(surrounded("", directory, " is not a repository directory"));
    }
    if root.is_symlink {
        return Err(
            surrounded(
                "canonical repository target ",
                directory,
                " became a symbolic link after path resolution; refusing to continue",
            ),
        );
    }
    if !root.is_directory {
        return Err(surrounded("", directory, " is not a repository directory"));
    }
    if !root.has_manifest || !root.has_journal {
        return Err(
            surrounded(
                "",
                directory,
                " is not an existing segment-tar repository (manifest and journal.log are required)",
            ),
        );
    }
    Ok(())
}

/// Whether a name belongs to a store. A name that is not text does not, even if
/// its bytes resemble one that does.
pub open spec fn manages(
    name: Option<Seq<char>>,
    names_archive: bool,
    names_temporary: bool,
    names_recovery_backup: bool,
) -> bool {
    match name {
        Some(name) => name == "manifest"@ || name == "journal.log"@ || name == "gc.log"@ || name
            == "repo.lock"@ || names_archive || names_temporary || names_recovery_backup,
        None => false,
    }
}

/// Whether a name belongs to a store.
pub fn is_managed_name(
    name: Option<&str>,
    names_archive: bool,
    names_temporary: bool,
    names_recovery_backup: bool,
) -> (managed: bool)
    ensures
        managed == manages(
            match name {
                Some(text) => Some(text@),
                None => None,
            },
            names_archive,
            names_temporary,
            names_recovery_backup,
        ),
{
    match name {
        Some(text) => text_eq(text, "manifest") || text_eq(text, "journal.log") || text_eq(
            text,
            "gc.log",
        ) || text_eq(text, "repo.lock") || names_archive || names_temporary
            || names_recovery_backup,
        None => false,
    }
}

/// One entry of a repository directory.
#[derive(Debug)]
pub struct DirectoryEntry {
    /// Its path, as an operator reads it.
    pub path: String,
    /// Whether its name belongs to a store.
    pub is_managed: bool,
    /// Whether it is a regular file, a symbolic link not followed.
    pub is_regular_file: bool,
}

/// Whether an entry has a store's name without being a regular file.
pub open spec fn is_improper(entry: DirectoryEntry) -> bool {
    entry.is_managed && !entry.is_regular_file
}

/// Whether a position holds the first such entry.
pub open spec fn is_first_improper(entries: Seq<DirectoryEntry>, position: int) -> bool {
    &&& 0 <= position < entries.len()
    &&& is_improper(entries[position])
    &&& forall|i: int| 0 <= i < position ==> !is_improper(#[trigger] entries[i])
}

/// Refuses a directory in which something other than a regular file has a
/// store's name.
pub fn validate_managed_file_types(entries: &Vec<DirectoryEntry>) -> (checked: Result<(), Error>)
    ensures
        match checked {
            Ok(_) => forall|i: int|
                0 <= i < entries@.len() ==> !is_improper(#[trigger] entries@[i]),
            Err(error) => exists|position: int| #[trigger]
                is_first_improper(entries@, position) && error.refuses(
                    "managed repository path "@ + entries@[position].path@
                        + " is not a regular file"@,
                ),
        },
{
    let mut index: usize = 0;
    while index < entries.len()
        invariant
            index <= entries@.len(),
            forall|i: int| 0 <= i < index ==> !is_improper(#[trigger] entries@[i]),
        decreases entries@.len() - index,
    {
        let entry = &entries[index];
        if entry.is_managed && !entry.is_regular_file {
            assert(is_first_improper(entries@, index as int));
            return Err(
                surrounded(
                    "managed repository path ",
                    entry.path.as_str(),
                    " is not a regular file",
                ),
            );
        }
        index = index + 1;
    }
    Ok(())
}

/// The number by which a fingerprint tells kinds of entries apart.
pub fn entry_kind(is_file: bool, is_directory: bool, is_symlink: bool) -> (kind: u8)
    ensures
        kind == if is_file {
            1u8
        } else if is_directory {
            2u8
        } else if is_symlink {
            3u8
        } else {
            4u8
        },
{
    if is_file {
        1
    } else if is_directory {
        2
    } else if is_symlink {
        3
    } else {
        4
    }
}

/// Everything by which an entry is recognised.
#[verifier::ext_equal]
pub struct FingerprintView {
    /// The name.
    pub name: Seq<u8>,
    /// The kind.
    pub kind: u8,
    /// The size.
    pub length: u64,
    /// When it was last modified.
    pub modified: Option<ModificationTime>,
    /// The device.
    pub device: u64,
    /// The inode.
    pub inode: u64,
    /// When the inode last changed.
    pub change_time_seconds: i64,
    /// The fraction of that second.
    pub change_time_nanoseconds: i64,
}

impl View for FileFingerprint {
    type V = FingerprintView;

    open spec fn view(&self) -> FingerprintView {
        FingerprintView {
            name: self.name@,
            kind: self.kind,
            length: self.length,
            modified: self.modified,
            device: self.device,
            inode: self.inode,
            change_time_seconds: self.change_time_seconds,
            change_time_nanoseconds: self.change_time_nanoseconds,
        }
    }
}

/// The entries' views.
pub open spec fn fingerprint_views(entries: Seq<FileFingerprint>) -> Seq<FingerprintView> {
    entries.map_values(|entry: FileFingerprint| entry@)
}

/// Everything by which a directory is recognised.
#[verifier::ext_equal]
pub struct DirectoryView {
    /// The entries.
    pub entries: Seq<FingerprintView>,
    /// The device.
    pub device: u64,
    /// The inode.
    pub inode: u64,
}

impl View for DirectoryFingerprint {
    type V = DirectoryView;

    open spec fn view(&self) -> DirectoryView {
        DirectoryView {
            entries: fingerprint_views(self.entries@),
            device: self.device,
            inode: self.inode,
        }
    }
}

/// Compares two fingerprints field by field.
pub fn same_fingerprint(left: &FileFingerprint, right: &FileFingerprint) -> (same: bool)
    ensures
        same == (left@ == right@),
{
    let same_name = crate::journal::rewrite::bytes_equal(&left.name, &right.name);
    let same_time = match (left.modified, right.modified) {
        (Some(first), Some(second)) => first == second,
        (None, None) => true,
        _ => false,
    };
    let same = same_name && left.kind == right.kind && left.length == right.length && same_time
        && left.device == right.device && left.inode == right.inode && left.change_time_seconds
        == right.change_time_seconds && left.change_time_nanoseconds
        == right.change_time_nanoseconds;
    assert(same == (left@ =~= right@));
    same
}

/// Compares two directories entry by entry.
pub fn same_directory(left: &DirectoryFingerprint, right: &DirectoryFingerprint) -> (same: bool)
    ensures
        same == (left@ == right@),
{
    if left.device != right.device || left.inode != right.inode || left.entries.len()
        != right.entries.len() {
        assert(left@.entries.len() != right@.entries.len() || left@.device != right@.device
            || left@.inode != right@.inode);
        return false;
    }
    let mut index: usize = 0;
    while index < left.entries.len()
        invariant
            index <= left.entries@.len(),
            left.entries@.len() == right.entries@.len(),
            forall|i: int| 0 <= i < index ==> left@.entries[i] == right@.entries[i],
        decreases left.entries@.len() - index,
    {
        if !same_fingerprint(&left.entries[index], &right.entries[index]) {
            assert(left@.entries[index as int] != right@.entries[index as int]);
            return false;
        }
        index = index + 1;
    }
    assert(left@ =~= right@);
    true
}

/// Refuses a directory that changed since planning began.
pub fn require_directory_unchanged(
    before: &DirectoryFingerprint,
    after: &DirectoryFingerprint,
) -> (checked: Result<(), Error>)
    ensures
        match checked {
            Ok(_) => before@ == after@,
            Err(error) => before@ != after@ && error.refuses(
                "the repository changed while cleanup was planning; retry against a quiescent store"@,
            ),
        },
{
    if same_directory(before, after) {
        Ok(())
    } else {
        Err(
            refusal(
                "the repository changed while cleanup was planning; retry against a quiescent store",
            ),
        )
    }
}

/// The bytes of the name of the file that locks a store.
pub open spec fn lock_name() -> Seq<u8> {
    seq![114, 101, 112, 111, 46, 108, 111, 99, 107]
}

/// The entries that a fingerprint records: all but the lock.
pub open spec fn recorded(entries: Seq<FileFingerprint>) -> Seq<FileFingerprint>
    decreases entries.len(),
{
    if entries.len() == 0 {
        Seq::empty()
    } else if entries.last().name@ == lock_name() {
        recorded(entries.drop_last())
    } else {
        recorded(entries.drop_last()).push(entries.last())
    }
}

/// Whether entries are sorted by name.
pub open spec fn sorted_by_name(entries: Seq<FileFingerprint>) -> bool {
    forall|i: int, j: int|
        0 <= i < j < entries.len() ==> !order::bytes_less(
            (#[trigger] entries[j]).name@,
            (#[trigger] entries[i]).name@,
        )
}

fn place(entries: &mut Vec<FileFingerprint>, entry: FileFingerprint)
    requires
        sorted_by_name(old(entries)@),
    ensures
        sorted_by_name(final(entries)@),
        final(entries)@.to_multiset() == old(entries)@.to_multiset().insert(entry),
{
    let ghost before = entries@;
    let mut position: usize = entries.len();
    while position > 0 && bytes_precede(&entry.name, &entries[position - 1].name)
        invariant
            position <= entries@.len(),
            entries@ == before,
            forall|i: int|
                position <= i < before.len() ==> order::bytes_less(
                    entry.name@,
                    (#[trigger] before[i]).name@,
                ),
        decreases position,
    {
        position = position - 1;
    }
    entries.insert(position, entry);
    proof {
        broadcast use vstd::seq_lib::to_multiset_insert;

        let after = entries@;
        assert(after == before.insert(position as int, entry));
        assert forall|i: int, j: int| 0 <= i < j < after.len() implies !order::bytes_less(
            (#[trigger] after[j]).name@,
            (#[trigger] after[i]).name@,
        ) by {
            let first = if i < position {
                i
            } else {
                i - 1
            };
            let second = if j < position {
                j
            } else {
                j - 1
            };
            if i != position {
                assert(after[i] == before[first]);
            }
            if j != position {
                assert(after[j] == before[second]);
            }
            if i == position {
                order::lemma_bytes_total(after[i].name@, after[j].name@);
            } else if j == position && i < position - 1 {
                let last = before[position - 1].name@;
                assert(!order::bytes_less(last, before[i].name@));
                assert(!order::bytes_less(entry.name@, last));
                if order::bytes_less(entry.name@, before[i].name@) {
                    order::lemma_bytes_total(last, before[i].name@);
                    order::lemma_bytes_total(entry.name@, last);
                    if before[i].name@ == last {
                    } else if last == entry.name@ {
                    } else {
                        order::lemma_bytes_transitive(entry.name@, before[i].name@, last);
                    }
                }
            }
        }
    }
}

/// The fingerprint of a directory: its entries sorted by name, without the lock
/// that a run itself takes.
pub fn directory_fingerprint(
    entries: Vec<FileFingerprint>,
    device: u64,
    inode: u64,
) -> (fingerprint: DirectoryFingerprint)
    ensures
        fingerprint.device == device,
        fingerprint.inode == inode,
        sorted_by_name(fingerprint.entries@),
        fingerprint.entries@.to_multiset() == recorded(entries@).to_multiset(),
{
    let ghost all = entries@;
    let lock: [u8; 9] = [114, 101, 112, 111, 46, 108, 111, 99, 107];
    assert(lock@ =~= lock_name());
    let mut remaining = entries;
    let mut kept: Vec<FileFingerprint> = Vec::new();
    proof {
        broadcast use vstd::seq_lib::group_to_multiset_ensures;

        assert(recorded(remaining@).to_multiset().add(kept@.to_multiset()) =~= recorded(
            all,
        ).to_multiset());
    }
    while remaining.len() > 0
        invariant
            lock@ == lock_name(),
            sorted_by_name(kept@),
            recorded(remaining@).to_multiset().add(kept@.to_multiset()) == recorded(
                all,
            ).to_multiset(),
        decreases remaining@.len(),
    {
        let ghost waiting = remaining@;
        let ghost known = kept@.to_multiset();
        if let Some(entry) = remaining.pop() {
            assert(remaining@ =~= waiting.drop_last());
            assert(waiting.last() == entry);
            if !crate::journal::rewrite::bytes_equal(&entry.name, lock.as_slice()) {
                let ghost value = entry;
                place(&mut kept, entry);
                proof {
                    broadcast use vstd::seq_lib::group_to_multiset_ensures;

                    let rest = recorded(remaining@);
                    assert(rest.push(value).to_multiset() =~= rest.to_multiset().insert(value));
                    assert(rest.to_multiset().add(known.insert(value)) =~= rest.to_multiset().insert(
                        value,
                    ).add(known));
                }
            }
        }
    }
    proof {
        broadcast use vstd::seq_lib::group_to_multiset_ensures;

        assert(remaining@ =~= Seq::empty());
        assert(recorded(remaining@).to_multiset() =~= vstd::multiset::Multiset::empty());
        assert(kept@.to_multiset() =~= recorded(all).to_multiset());
    }
    DirectoryFingerprint { entries: kept, device, inode }
}

/// Bounding the journal's revisions never adds a refusal: the builder selects
/// the task that carries the bound out.
pub proof fn law_bounding_the_journal_adds_no_refusal(options: OptionsView, revisions: usize)
    ensures
        options_fault(
            OptionsView {
                tasks: options.tasks.insert(MaintenanceTask::Journal),
                journal_revision_retention: Some(revisions),
                ..options
            },
        ) == options_fault(OptionsView { journal_revision_retention: None, ..options }),
{
}

/// Giving a retention policy to options that are accepted adds no refusal,
/// unless they repair archives.
pub proof fn law_a_backup_policy_adds_no_refusal(
    options: OptionsView,
    policy: RecoveryBackupPolicy,
)
    requires
        options_fault(options) is None,
        !options.tasks.contains(MaintenanceTask::RepairArchives),
    ensures
        options_fault(
            OptionsView {
                tasks: options.tasks.insert(MaintenanceTask::RecoveryBackups),
                recovery_backup_policy: Some(policy),
                ..options
            },
        ) is None,
{
}

/// A repair and the retirement of backups are refused together, whatever else
/// the options select: the run would delete what it just set aside.
pub proof fn law_repair_never_runs_beside_backup_retirement(options: OptionsView)
    requires
        options.tasks.contains(MaintenanceTask::RepairArchives),
        options.tasks.contains(MaintenanceTask::RecoveryBackups),
    ensures
        options_fault(options) is Some,
{
}

} // verus!
