//! Removing, certifying and publishing single files.

use froe::certificate::{
    open_regular_journal, open_verified_file, CertifiedFile, FileCertificate, FileIdentity,
    FileSighting,
};
use froe::file_removal::{
    read_optional_regular_file, record_planned_file_removal_failure, recovery_backup_file_bytes,
    FileOutcome, PlannedFileRemovalFailureMode, PlannedFileRemovals, RemovalPhase,
    TargetObservation,
};
use froe::manifest::{confirm_store_version, manifest_needs_upgrade, manifest_upgrade_bytes};
use froe::plan::FileDeletionFailure;
use froe::planning::shape::{directory_fingerprint, require_directory_unchanged, same_directory};
use froe::planning::{DirectoryFingerprint, FileFingerprint, PlannedFileRemoval};
use froe::publication::{Publication, PublicationStep};

const ALREADY_ABSENT_DELETION_DETAIL: &str = "file was already absent when deletion was attempted";

fn fingerprint(name: &str, length: u64, inode: u64) -> FileFingerprint {
    FileFingerprint {
        name: name.as_bytes().to_vec(),
        kind: 1,
        length,
        modified: None,
        device: 1,
        inode,
        change_time_seconds: 10,
        change_time_nanoseconds: 20,
    }
}

fn planned(name: &str, length: u64, inode: u64) -> PlannedFileRemoval {
    PlannedFileRemoval {
        file_name: name.to_owned(),
        bytes: length,
        fingerprint: fingerprint(name, length, inode),
    }
}

fn seen(name: &str, length: u64, inode: u64) -> TargetObservation {
    TargetObservation::Seen {
        held_is_file: true,
        named_is_file: true,
        held: fingerprint(name, length, inode),
        named: fingerprint(name, length, inode),
    }
}

fn identity(inode: u64) -> FileIdentity {
    FileIdentity { device: 1, inode }
}

fn sighting(inode: u64, bytes: &[u8]) -> FileSighting {
    FileSighting {
        link_is_file: true,
        link: identity(inode),
        reopened_is_file: true,
        reopened: identity(inode),
        bytes: bytes.to_vec(),
    }
}

#[test]
fn deletion_absence_state_does_not_depend_on_diagnostic_text() {
    let retained = FileDeletionFailure::retained(
        "data00000a.tar".to_owned(),
        ALREADY_ABSENT_DELETION_DETAIL.to_owned(),
    );
    let absent = FileDeletionFailure::already_absent(
        "data00001a.tar".to_owned(),
        "a deliberately different ENOENT diagnostic".to_owned(),
    );

    assert!(!retained.target_was_already_absent());
    assert!(absent.target_was_already_absent());
}

#[test]
fn deferred_removal_rechecks_the_exact_planned_file_identity() {
    let removable_name = "journal.log.bak.998";
    let name = "journal.log.bak.999";
    let mut removals = PlannedFileRemovals::remove_planned_files(
        vec![planned(removable_name, 29, 7), planned(name, 19, 8)],
        PlannedFileRemovalFailureMode::Partial,
    );

    let mut unlinked = Vec::new();
    while let Some((file, phase)) = removals.current() {
        let current = file.file_name.clone();
        match phase {
            RemovalPhase::Open => removals.opened(FileOutcome::Done).expect("opened"),
            RemovalPhase::FirstProof | RemovalPhase::SecondProof => {
                let observation = if current == removable_name {
                    seen(removable_name, 29, 7)
                } else {
                    seen(name, 21, 9)
                };
                removals
                    .observed(&current, &observation)
                    .expect("late deletion refusals are a partial outcome");
            }
            RemovalPhase::Unlink => {
                unlinked.push(current);
                removals.unlinked(FileOutcome::Done);
            }
        }
    }
    let (removed, failures) = removals.finish();

    assert_eq!(removed, 1);
    assert_eq!(failures.len(), 1);
    assert_eq!(failures[0].file_name(), name);
    assert!(failures[0].error().contains("changed after"));
    assert_eq!(
        unlinked,
        vec![removable_name.to_owned()],
        "a late identity refusal must not discard an earlier successful deletion"
    );
}

#[test]
fn strict_stale_removal_reports_an_already_absent_file_without_losing_the_outcome() {
    let name = "data00001a.tar";
    let mut removals = PlannedFileRemovals::remove_planned_files(
        vec![planned(name, 23, 7)],
        PlannedFileRemovalFailureMode::RequireCertifiedTarget,
    );
    removals
        .opened(FileOutcome::NotFound)
        .expect("absence is a reportable partial result, not a lost cleanup outcome");
    assert!(removals.current().is_none());
    let (removed, failures) = removals.finish();

    assert_eq!(removed, 0);
    assert_eq!(failures.len(), 1);
    assert_eq!(failures[0].file_name(), name);
    assert!(failures[0].target_was_already_absent());
    assert_eq!(
        failures[0].error(),
        "file was already absent when deletion was attempted"
    );
}

#[test]
fn strict_stale_removal_treats_disappearance_at_each_recertification_as_partial() {
    for disappearance_before_verification in 0..=1 {
        let name = "data00001a.tar";
        let mut removals = PlannedFileRemovals::remove_planned_files(
            vec![planned(name, 23, 7)],
            PlannedFileRemovalFailureMode::RequireCertifiedTarget,
        );
        removals.opened(FileOutcome::Done).expect("opened");
        let mut verification = 0;
        while removals.current().is_some() {
            let observation = if verification == disappearance_before_verification {
                TargetObservation::Absent
            } else {
                seen(name, 23, 7)
            };
            let phase = removals.current().map(|(_, phase)| phase);
            assert_ne!(
                phase,
                Some(RemovalPhase::Unlink),
                "an absent pathname must never reach unlink"
            );
            removals
                .observed(name, &observation)
                .expect("strict mode keeps an already achieved deletion as partial");
            verification += 1;
        }
        let (removed, failures) = removals.finish();

        assert_eq!(removed, 0);
        assert_eq!(failures.len(), 1);
        assert_eq!(failures[0].file_name(), name);
        assert!(failures[0].target_was_already_absent());
        assert_eq!(
            failures[0].error(),
            "file was already absent when deletion was attempted"
        );
    }
}

#[test]
fn strict_stale_removal_reports_an_exact_source_unlink_error_as_partial() {
    let name = "data00001a.tar";
    let mut removals = PlannedFileRemovals::remove_planned_files(
        vec![planned(name, 23, 7)],
        PlannedFileRemovalFailureMode::RequireCertifiedTarget,
    );
    removals.opened(FileOutcome::Done).expect("opened");
    removals.observed(name, &seen(name, 23, 7)).expect("first proof");
    removals.observed(name, &seen(name, 23, 7)).expect("second proof");
    removals.unlinked(FileOutcome::Failed {
        error: "injected exact-source unlink refusal".to_owned(),
    });
    let (removed, failures) = removals.finish();

    assert_eq!(removed, 0);
    assert_eq!(failures.len(), 1);
    assert_eq!(failures[0].file_name(), name);
    assert!(!failures[0].target_was_already_absent());
    assert_eq!(failures[0].error(), "injected exact-source unlink refusal");
}

#[test]
fn failed_removals_are_reported_in_the_order_of_their_files() {
    let mut removals = PlannedFileRemovals::remove_planned_files(
        vec![planned("c", 1, 7), planned("a", 2, 7), planned("b", 3, 7)],
        PlannedFileRemovalFailureMode::Partial,
    );
    removals
        .opened(FileOutcome::Failed {
            error: "denied".to_owned(),
        })
        .expect("a partial outcome");
    removals.opened(FileOutcome::NotFound).expect("absent");
    removals
        .opened(FileOutcome::Failed {
            error: "denied".to_owned(),
        })
        .expect("a partial outcome");
    let (removed, failures) = removals.finish();
    assert_eq!(removed, 0);
    let names: Vec<&str> = failures.iter().map(|failure| failure.file_name()).collect();
    assert_eq!(names, vec!["c", "a", "b"]);
}

#[test]
fn deferred_removal_reports_a_non_not_found_open_error_as_partial() {
    let name = "journal.log.bak.999";
    let expected_open_error = "Too many levels of symbolic links";
    let mut removals = PlannedFileRemovals::remove_planned_files(
        vec![planned(name, 21, 7)],
        PlannedFileRemovalFailureMode::Partial,
    );
    removals
        .opened(FileOutcome::Failed {
            error: expected_open_error.to_owned(),
        })
        .expect("late open refusal is a partial outcome");
    let (removed, failures) = removals.finish();

    assert_eq!(removed, 0);
    assert_eq!(failures.len(), 1);
    assert_eq!(failures[0].file_name(), name);
    assert_eq!(failures[0].error(), expected_open_error);
}

#[test]
fn a_certified_target_that_changed_ends_a_strict_removal() {
    let name = "data00001a.tar";
    let mut removals = PlannedFileRemovals::remove_planned_files(
        vec![planned(name, 23, 7)],
        PlannedFileRemovalFailureMode::RequireCertifiedTarget,
    );
    removals.opened(FileOutcome::Done).expect("opened");
    let error = removals
        .observed(name, &seen(name, 23, 8))
        .expect_err("another inode");
    assert!(error.to_text().contains("changed after"));
}

#[test]
fn a_retained_failure_is_fatal_only_where_the_target_was_certified() {
    let mut failures = Vec::new();
    let failure = FileDeletionFailure::retained("a".to_owned(), "b".to_owned());
    assert!(record_planned_file_removal_failure(
        PlannedFileRemovalFailureMode::Partial,
        &mut failures,
        failure
    )
    .is_ok());
    assert_eq!(failures.len(), 1);
    assert!(record_planned_file_removal_failure(
        PlannedFileRemovalFailureMode::RequireCertifiedTarget,
        &mut failures,
        FileDeletionFailure::retained("a".to_owned(), "b".to_owned())
    )
    .is_err());
    assert_eq!(failures.len(), 1);
}

#[test]
fn backup_sizes_add_up_or_are_refused() {
    assert_eq!(recovery_backup_file_bytes(&vec![1, 2, 3]).expect("a sum"), 6);
    assert!(recovery_backup_file_bytes(&vec![u64::MAX, 1]).is_err());
}

#[test]
fn an_optional_file_may_be_absent_but_not_of_another_kind() {
    assert!(!read_optional_regular_file("gc.log", false, false).expect("absent"));
    assert!(read_optional_regular_file("gc.log", true, true).expect("present"));
    assert_eq!(
        read_optional_regular_file("gc.log", true, false)
            .expect_err("a directory")
            .to_text(),
        "invalid segment-tar data: gc.log is not a regular file"
    );
}

#[test]
fn manifest_upgrade_separates_a_trailing_properties_continuation() {
    let suffix = b"# upgraded atomically by froe cleanup\nstore.version=2\n";
    for (source, expected_prefix) in [
        (
            &b"custom.property=kept\\"[..],
            &b"custom.property=kept\\\n\n"[..],
        ),
        (
            &b"custom.property=kept\\\n"[..],
            &b"custom.property=kept\\\n\n"[..],
        ),
        (
            &b"custom.property=kept\\\r"[..],
            &b"custom.property=kept\\\r\n\n"[..],
        ),
    ] {
        let upgraded = manifest_upgrade_bytes(source);
        assert!(upgraded.starts_with(expected_prefix), "{upgraded:?}");
        assert!(upgraded.ends_with(suffix), "{upgraded:?}");
    }
}

#[test]
fn a_manifest_upgrade_appends_one_version_line() {
    assert_eq!(
        manifest_upgrade_bytes(b"custom.property=kept\nstore.version=1\n"),
        b"custom.property=kept\nstore.version=1\n\n# upgraded atomically by froe cleanup\nstore.version=2\n"
    );
}

#[test]
fn a_manifest_below_version_two_is_upgraded_and_then_confirmed() {
    assert!(manifest_needs_upgrade("manifest", true, 1).expect("version one"));
    assert!(!manifest_needs_upgrade("manifest", true, 2).expect("version two"));
    assert!(manifest_needs_upgrade("manifest", false, 1).is_err());
    assert!(confirm_store_version(2).is_ok());
    assert!(confirm_store_version(3).is_err());
    assert!(confirm_store_version(1).is_err());
}

#[test]
fn manifest_certificate_rejects_path_substitution_around_publication() {
    let expected = b"custom.property=kept\nstore.version=2\n";
    let label = "staged manifest replacement";
    let staged = "/store/manifest.cleaning.000";
    let certificate = FileCertificate::certify(
        CertifiedFile::Manifest,
        label,
        staged,
        &sighting(7, expected),
        identity(7),
        expected,
    )
    .expect("certify staged manifest");

    certificate
        .recertify(label, staged, true, identity(7), &sighting(8, expected), expected)
        .expect_err("same bytes on a different inode must not be publishable");
    certificate
        .recertify(label, staged, true, identity(7), &sighting(7, expected), expected)
        .expect("restored certified inode");
    let installed = "/store/manifest";
    certificate
        .recertify(
            "installed manifest replacement",
            installed,
            true,
            identity(7),
            &sighting(7, expected),
            expected,
        )
        .expect("certificate follows the inode through rename");
    certificate
        .recertify(
            "installed manifest replacement",
            installed,
            true,
            identity(7),
            &sighting(9, expected),
            expected,
        )
        .expect_err("post-rename same-byte inode substitution must be detected");
}

#[test]
fn journal_certificates_reject_staging_and_backup_substitution() {
    let first = "11111111-1111-4111-a111-111111111111:1";
    let canonical = format!("{first} root 1\nignored\n");
    let expected = format!("{first} root 1\n");
    let staged = FileCertificate::certify(
        CertifiedFile::Journal,
        "staged journal replacement",
        "/store/journal.log.cleaning.000",
        &sighting(7, expected.as_bytes()),
        identity(7),
        expected.as_bytes(),
    )
    .expect("certify staged journal");
    staged
        .recertify(
            "staged journal replacement",
            "/store/journal.log.cleaning.000",
            true,
            identity(7),
            &sighting(8, expected.as_bytes()),
            expected.as_bytes(),
        )
        .expect_err("same bytes on a different inode must not be publishable");
    staged
        .recertify(
            "installed journal replacement",
            "/store/journal.log",
            true,
            identity(7),
            &sighting(7, expected.as_bytes()),
            expected.as_bytes(),
        )
        .expect("certificate follows the journal inode through rename");

    let backup = FileCertificate::certify(
        CertifiedFile::Journal,
        "journal recovery backup",
        "/store/journal.log.bak.000",
        &sighting(9, canonical.as_bytes()),
        identity(9),
        canonical.as_bytes(),
    )
    .expect("certify journal backup");
    backup
        .recertify(
            "journal recovery backup",
            "/store/journal.log.bak.000",
            true,
            identity(9),
            &sighting(9, b"tampered backup bytes\n"),
            canonical.as_bytes(),
        )
        .expect_err("same-inode backup byte mutation must be detected");
}

#[test]
fn a_refused_sighting_says_what_differs() {
    let refused = open_verified_file(
        CertifiedFile::Journal,
        "journal recovery backup",
        "/store/journal.log.bak.000",
        &sighting(7, b"other"),
        identity(7),
        b"expected",
    )
    .expect_err("other bytes");
    assert_eq!(
        refused.to_text(),
        "invalid segment-tar data: journal recovery backup /store/journal.log.bak.000 differs from the exact prepared bytes"
    );
}

#[test]
fn scanner_rejects_a_symlinked_journal() {
    assert!(
        open_regular_journal("/store/journal.log", true, false, true, identity(1), identity(2))
            .is_err()
    );
    assert!(
        open_regular_journal("/store/journal.log", true, true, true, identity(1), identity(2))
            .is_err()
    );
    assert!(
        open_regular_journal("/store/journal.log", true, true, true, identity(1), identity(1))
            .is_ok()
    );
}

fn steps(file: CertifiedFile) -> Vec<PublicationStep> {
    let mut publication = Publication::of(file);
    let mut taken = Vec::new();
    while let Some(step) = publication.next() {
        taken.push(step);
        publication.done();
    }
    taken
}

#[test]
fn a_rename_stands_between_proofs() {
    for file in [CertifiedFile::Manifest, CertifiedFile::Journal] {
        let taken = steps(file);
        let rename = taken
            .iter()
            .position(|step| *step == PublicationStep::Rename)
            .expect("a rename");
        assert!(taken[..rename].contains(&PublicationStep::RecertifyStaged));
        assert!(taken[rename + 1..].contains(&PublicationStep::RecertifyInstalled));
    }
}

#[test]
fn an_interrupted_publication_discards_only_what_is_not_committed() {
    let mut publication = Publication::of(CertifiedFile::Journal);
    assert!(publication.discards_replacement());
    assert!(publication.discards_backup());
    while let Some(step) = publication.next() {
        publication.done();
        if step == PublicationStep::CommitBackup {
            assert!(!publication.discards_backup());
        }
    }
    assert!(!publication.discards_replacement());
    assert!(!publication.discards_backup());
}

fn directory(entries: Vec<FileFingerprint>) -> DirectoryFingerprint {
    directory_fingerprint(entries, 1, 2)
}

#[test]
fn prepared_plan_rejects_same_length_inode_replacement() {
    let before = directory(vec![fingerprint("journal.log", 40, 7)]);
    let after = directory(vec![fingerprint("journal.log", 40, 8)]);
    assert!(require_directory_unchanged(&before, &after).is_err());
}

#[test]
fn prepared_plan_rejects_in_place_change_with_restored_mtime() {
    let before = directory(vec![fingerprint("journal.log.compacting", 40, 7)]);
    let mut changed = fingerprint("journal.log.compacting", 40, 7);
    changed.change_time_nanoseconds = 21;
    let after = directory(vec![changed]);
    assert!(require_directory_unchanged(&before, &after).is_err());
}

#[test]
fn a_fingerprint_does_not_depend_on_the_order_of_a_listing() {
    let forward = directory(vec![fingerprint("a", 1, 1), fingerprint("b", 2, 2)]);
    let backward = directory(vec![fingerprint("b", 2, 2), fingerprint("a", 1, 1)]);
    assert!(same_directory(&forward, &backward));
    assert!(require_directory_unchanged(&forward, &backward).is_ok());
}
