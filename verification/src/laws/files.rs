//! When a file counts as the one that was planned, certified or read, and what
//! becomes of one that does not.
use vstd::prelude::*;
use vstd::string::*;
use vstd::utf8::*;
use crate::certificate;
use crate::certificate::{CertifiedFile, FileCertificate, FileIdentity, FileSighting};
use crate::file_removal;
use crate::file_removal::{
    FileOutcome, PlannedFileRemovalFailureMode, PlannedFileTargetVerification, RemovalPhase,
    RemovalView, TargetObservation,
};
use crate::manifest;
use crate::options::{MaintenanceTask, OptionsView};
use crate::plan::{DeletionFailureView, FileDeletionFailureKind};
use crate::planning::shape;
use crate::planning::shape::{DirectoryEntry, RootFacts};
use crate::planning::{DirectoryFingerprint, FileFingerprint};

verus! {

/// Whether two fingerprints agree in everything that an entry is recognised by.
pub open spec fn agree(left: FileFingerprint, right: FileFingerprint) -> bool {
    &&& left.name@ == right.name@
    &&& left.kind == right.kind
    &&& left.length == right.length
    &&& left.modified == right.modified
    &&& left.device == right.device
    &&& left.inode == right.inode
    &&& left.change_time_seconds == right.change_time_seconds
    &&& left.change_time_nanoseconds == right.change_time_nanoseconds
}

/// A target is the planned file exactly if it is held and named as a regular file,
/// and both what is held and what is named agree with the plan in every field.
pub proof fn law_a_target_is_exact_in_every_field(
    observation: TargetObservation,
    path: Seq<char>,
    expected: FileFingerprint,
)
    ensures
        file_removal::proof_of(observation, path, expected) == Ok::<
            PlannedFileTargetVerification,
            Seq<char>,
        >(PlannedFileTargetVerification::Exact) <==> {
            &&& observation matches TargetObservation::Seen {
                held_is_file,
                named_is_file,
                held,
                named,
            }
            &&& held_is_file
            &&& named_is_file
            &&& agree(held, expected)
            &&& agree(named, expected)
        },
        file_removal::proof_of(observation, path, expected) == Ok::<
            PlannedFileTargetVerification,
            Seq<char>,
        >(PlannedFileTargetVerification::Absent) <==> observation is Absent,
{
    if let TargetObservation::Seen { held, named, .. } = observation {
        assert(held@ == expected@ <==> agree(held, expected));
        assert(named@ == expected@ <==> agree(named, expected));
    }
}

/// Two directories count as the same exactly if they are the same inode of the same
/// device and their entries agree, one by one.
pub proof fn law_directories_are_the_same_in_every_entry(
    left: DirectoryFingerprint,
    right: DirectoryFingerprint,
)
    ensures
        left@ == right@ <==> {
            &&& left.device == right.device
            &&& left.inode == right.inode
            &&& left.entries@.len() == right.entries@.len()
            &&& forall|i: int|
                0 <= i < left.entries@.len() ==> agree(
                    #[trigger] left.entries@[i],
                    right.entries@[i],
                )
        },
{
    let before = shape::fingerprint_views(left.entries@);
    let after = shape::fingerprint_views(right.entries@);
    if left@ == right@ {
        assert(left.entries@.len() == before.len() && right.entries@.len() == after.len());
        assert forall|i: int| 0 <= i < left.entries@.len() implies agree(
            #[trigger] left.entries@[i],
            right.entries@[i],
        ) by {
            assert(before[i] == after[i]);
            assert(before[i] == left.entries@[i]@ && after[i] == right.entries@[i]@);
        }
    }
    if left.entries@.len() == right.entries@.len() && forall|i: int|
        0 <= i < left.entries@.len() ==> agree(#[trigger] left.entries@[i], right.entries@[i]) {
        assert forall|i: int| 0 <= i < before.len() implies before[i] == after[i] by {
            assert(agree(left.entries@[i], right.entries@[i]));
            assert(left.entries@[i]@ == right.entries@[i]@);
        }
        assert(before =~= after);
    }
}

/// A directory's fingerprint leaves out the lock that a run takes, and nothing else.
pub proof fn law_only_the_lock_is_left_out(entries: Seq<FileFingerprint>, entry: FileFingerprint)
    ensures
        shape::recorded(entries).contains(entry) <==> entries.contains(entry) && entry.name@
            != encode_utf8("repo.lock"@),
    decreases entries.len(),
{
    lemma_lock_name();
    let all = shape::recorded(entries);
    if entries.len() == 0 {
        assert(!all.contains(entry));
    } else {
        let shorter = entries.drop_last();
        let end = entries.len() - 1;
        law_only_the_lock_is_left_out(shorter, entry);
        let earlier = shape::recorded(shorter);
        assert(entries[end] == entries.last());
        if shorter.contains(entry) {
            let i = choose|i: int| 0 <= i < shorter.len() && shorter[i] == entry;
            assert(entries[i] == entry);
        }
        if entries.contains(entry) {
            let i = choose|i: int| 0 <= i < entries.len() && entries[i] == entry;
            if i < end {
                assert(shorter[i] == entry);
            }
        }
        if earlier.contains(entry) {
            let i = choose|i: int| 0 <= i < earlier.len() && earlier[i] == entry;
            assert(all[i] == entry);
        }
        if all.contains(entry) {
            let i = choose|i: int| 0 <= i < all.len() && all[i] == entry;
            if i < earlier.len() {
                assert(earlier[i] == entry);
            }
        }
        if entries.last().name@ != shape::lock_name() {
            assert(all[earlier.len() as int] == entries.last());
        }
    }
}

proof fn lemma_lock_name()
    ensures
        shape::lock_name() == encode_utf8("repo.lock"@),
{
    reveal_strlit("repo.lock");
    assert(is_ascii_chars("repo.lock"@));
    is_ascii_chars_encode_utf8("repo.lock"@);
    assert('r' as u8 == 114 && 'e' as u8 == 101 && 'p' as u8 == 112 && 'o' as u8 == 111 && '.' as u8
        == 46 && 'l' as u8 == 108 && 'c' as u8 == 99 && 'k' as u8 == 107);
    assert(shape::lock_name() =~= encode_utf8("repo.lock"@));
}

/// A file is unlinked only where two proofs in a row found it exact: the first leads
/// to the second, the second to the unlinking, and anything else to the next file.
pub proof fn law_each_exact_proof_leads_one_step_further(
    state: RemovalView,
    name: Seq<char>,
    mode: PlannedFileRemovalFailureMode,
    verdict: Result<PlannedFileTargetVerification, Seq<char>>,
)
    requires
        state.phase == RemovalPhase::FirstProof || state.phase == RemovalPhase::SecondProof,
    ensures
        match state.after_proof(name, mode, verdict) {
            Some(after) => {
                &&& after.removed == state.removed
                &&& verdict == Ok::<PlannedFileTargetVerification, Seq<char>>(
                    PlannedFileTargetVerification::Exact,
                ) ==> after.position == state.position && after.failures == state.failures && (
                state.phase == RemovalPhase::FirstProof ==> after.phase
                    == RemovalPhase::SecondProof) && (state.phase == RemovalPhase::SecondProof
                    ==> after.phase == RemovalPhase::Unlink)
                &&& verdict != Ok::<PlannedFileTargetVerification, Seq<char>>(
                    PlannedFileTargetVerification::Exact,
                ) ==> after.position == state.position + 1 && after.phase == RemovalPhase::Open
                    && after.failures.len() == state.failures.len() + 1
                    && after.failures.last().file_name == name
            },
            None => verdict is Err && mode
                == PlannedFileRemovalFailureMode::RequireCertifiedTarget,
        },
        verdict matches Err(error) ==> (mode == PlannedFileRemovalFailureMode::Partial
            <==> state.after_proof(name, mode, verdict) is Some),
        verdict matches Err(error) && mode == PlannedFileRemovalFailureMode::Partial
            ==> state.after_proof(name, mode, verdict)->0.failures.last() == (DeletionFailureView {
            file_name: name,
            error: verdict->Err_0,
            kind: FileDeletionFailureKind::Retained,
        }),
{
}

/// A file that could not be opened stops a run that needs it certified; otherwise it
/// stays and is reported, and one that is not there is reported as absent.
pub proof fn law_an_unopened_file_is_never_unlinked(
    state: RemovalView,
    name: Seq<char>,
    mode: PlannedFileRemovalFailureMode,
    outcome: FileOutcome,
)
    ensures
        outcome is Done ==> state.after_open(name, mode, outcome) == Some(
            (RemovalView { phase: RemovalPhase::FirstProof, ..state }),
        ),
        state.after_open(name, mode, outcome) is None <==> outcome is Failed && mode
            == PlannedFileRemovalFailureMode::RequireCertifiedTarget,
        outcome is NotFound ==> state.after_open(name, mode, outcome)->0.failures
            == state.failures.push(
            (DeletionFailureView {
                file_name: name,
                error: "file was already absent when deletion was attempted"@,
                kind: FileDeletionFailureKind::AlreadyAbsent,
            }),
        ),
        !(outcome is Done) && state.after_open(name, mode, outcome) is Some ==> {
            let after = state.after_open(name, mode, outcome)->0;
            after.position == state.position + 1 && after.removed == state.removed && after.phase
                == RemovalPhase::Open
        },
{
}

/// A file counts as removed exactly if unlinking it worked; otherwise it is reported,
/// as absent or as retained, and either way the run goes on with the next.
pub proof fn law_a_file_counts_as_removed_once_unlinked(
    state: RemovalView,
    name: Seq<char>,
    outcome: FileOutcome,
)
    ensures
        ({
            let after = state.after_unlink(name, outcome);
            &&& after.position == state.position + 1
            &&& after.phase == RemovalPhase::Open
            &&& outcome is Done ==> after.removed == state.removed + 1 && after.failures
                == state.failures
            &&& !(outcome is Done) ==> after.removed == state.removed && after.failures.len()
                == state.failures.len() + 1
            &&& outcome is NotFound ==> after.failures.last().kind
                == FileDeletionFailureKind::AlreadyAbsent
            &&& outcome matches FileOutcome::Failed { error } ==> after.failures.last() == (
            DeletionFailureView {
                file_name: name,
                error: error@,
                kind: FileDeletionFailureKind::Retained,
            })
        }),
{
}

/// Sizes add up.
pub proof fn law_sizes_add_up(sizes: Seq<u64>, more: u64)
    ensures
        file_removal::size_total(Seq::empty()) == 0,
        file_removal::size_total(sizes.push(more)) == file_removal::size_total(sizes) + more,
{
    assert(sizes.push(more).drop_last() =~= sizes);
}

/// A file is the expected one exactly if path and handle lead to a regular file, both
/// are the expected inode of the expected device, and not one byte differs. Which file
/// it is decides the words of a refusal, and nothing else.
pub proof fn law_a_sighting_passes_exactly_if_all_agrees(
    file: CertifiedFile,
    label: Seq<char>,
    path: Seq<char>,
    sighting: FileSighting,
    identity: FileIdentity,
    bytes: Seq<u8>,
)
    ensures
        certificate::sighting_fault(file, label, path, sighting, identity, bytes) is None <==> {
            &&& sighting.link_is_file
            &&& sighting.reopened_is_file
            &&& sighting.link.device == identity.device
            &&& sighting.link.inode == identity.inode
            &&& sighting.reopened.device == identity.device
            &&& sighting.reopened.inode == identity.inode
            &&& sighting.bytes@ == bytes
        },
{
}

/// A certificate holds exactly if the held file is still a regular one with the
/// certified identity and the file at the path passes for it.
pub proof fn law_a_certificate_holds_exactly_if_all_agrees(
    held_certificate: FileCertificate,
    label: Seq<char>,
    path: Seq<char>,
    held_is_file: bool,
    held: FileIdentity,
    sighting: FileSighting,
    bytes: Seq<u8>,
)
    ensures
        certificate::recertification_fault(
            held_certificate,
            label,
            path,
            held_is_file,
            held,
            sighting,
            bytes,
        ) is None <==> {
            &&& held_is_file
            &&& held.device == held_certificate.identity.device
            &&& held.inode == held_certificate.identity.inode
            &&& sighting.link_is_file
            &&& sighting.reopened_is_file
            &&& sighting.link.device == held.device
            &&& sighting.link.inode == held.inode
            &&& sighting.reopened.device == held.device
            &&& sighting.reopened.inode == held.inode
            &&& sighting.bytes@ == bytes
        },
{
}

/// A journal opens exactly if it is there, a regular file before and after opening,
/// and the same inode of the same device both times.
pub proof fn law_a_journal_opens_exactly_if_it_stays_the_same(
    path: Seq<char>,
    exists: bool,
    link_is_file: bool,
    opened_is_file: bool,
    link: FileIdentity,
    opened: FileIdentity,
)
    ensures
        certificate::journal_fault(
            path,
            exists,
            link_is_file,
            opened_is_file,
            link,
            opened,
        ) is None <==> exists && link_is_file && opened_is_file && link.device == opened.device
            && link.inode == opened.inode,
{
}

/// A path is a repository exactly if it is a directory, reached without a symbolic
/// link, with a manifest and a journal in it.
pub proof fn law_a_repository_has_a_manifest_and_a_journal(directory: Seq<char>, root: RootFacts)
    ensures
        shape::root_fault(directory, root) is None <==> root.exists && !root.is_symlink
            && root.is_directory && root.has_manifest && root.has_journal,
{
}

/// A store owns its four fixed names and whatever is named like one of its archives,
/// staging files or recovery backups; a name that is no text is never its own.
pub proof fn law_a_store_owns_its_names(
    name: Option<Seq<char>>,
    names_archive: bool,
    names_temporary: bool,
    names_recovery_backup: bool,
)
    ensures
        shape::manages(name, names_archive, names_temporary, names_recovery_backup) <==> {
            &&& name is Some
            &&& {
                ||| name == Some("manifest"@)
                ||| name == Some("journal.log"@)
                ||| name == Some("gc.log"@)
                ||| name == Some("repo.lock"@)
                ||| names_archive
                ||| names_temporary
                ||| names_recovery_backup
            }
        },
{
}

/// An entry is at fault exactly if it has a store's name and is no regular file.
pub proof fn law_a_stores_name_belongs_to_a_regular_file(entry: DirectoryEntry)
    ensures
        shape::is_improper(entry) <==> entry.is_managed && !entry.is_regular_file,
{
}

/// Options are accepted exactly if backups come with a policy and without a repair,
/// and a bound on revisions comes with the task that prunes them.
pub proof fn law_options_are_accepted_exactly_if_they_can_be_carried_out(options: OptionsView)
    ensures
        shape::options_fault(options) is None <==> {
            &&& options.tasks.contains(MaintenanceTask::RecoveryBackups)
                ==> options.recovery_backup_policy is Some && !options.tasks.contains(
                MaintenanceTask::RepairArchives,
            )
            &&& options.journal_revision_retention is Some ==> options.tasks.contains(
                MaintenanceTask::Journal,
            )
        },
{
}

/// A manifest is raised by adding to it: line feeds that end its last line and leave
/// one empty line behind it, unless it was empty, and then a comment and the version,
/// each on a line of its own.
pub proof fn law_an_upgrade_adds_a_version_line(source: Seq<u8>)
    ensures
        ({
            let lines = encode_utf8("# upgraded atomically by froe cleanup\nstore.version=2\n"@);
            &&& source.len() == 0 ==> manifest::upgraded(source) == lines
            &&& source.len() > 0 && source.last() == 10 ==> manifest::upgraded(source) == source
                + seq![10u8] + lines
            &&& source.len() > 0 && source.last() != 10 ==> manifest::upgraded(source) == source
                + seq![10u8, 10u8] + lines
        }),
{
    let lines = encode_utf8("# upgraded atomically by froe cleanup\nstore.version=2\n"@);
    assert(source.len() == 0 ==> manifest::upgraded(source) =~= lines);
}

} // verus!
