//! What stops a plan before anything is touched.

use froe::error::Error;
use froe::identifier::{RecordIdentifier, SegmentIdentifier};
use froe::indexless_refusal::{
    indexless_active_archive_refusal, indexless_archive_refusal, refuse_indexless_before_planning,
    ArchiveFacts, IndexlessArchive, IndexlessCensus,
};
use froe::manifest::manifest_upgrade_bytes;
use froe::options::{CompactionOptions, MaintenanceTask, RecoveryBackupPolicy};
use froe::planning::head_verification::{
    require_checkpoint_snapshots, require_content_root, require_node_record, CheckpointSnapshot,
    SuperRootStage, SuperRootVerification,
};
use froe::planning::shape::{
    canonical_repository_directory, entry_kind, is_managed_name, require_directory, validate_managed_file_types, validate_options,
    validate_repository_shape, DirectoryEntry, RootFacts,
};
use froe::planning::survey::{
    attach_completed_repairs, attach_planning_warnings, available_filesystem_bytes,
    decide_manifest_upgrade, ensure_numbered_name_available, leftover_scans, numbered_name,
    refuse_bound_beside_checkpoints, reserved_names, survey_demands, survey_repairs,
    DuplicateCheck, ManifestUpgradeOnFirstInstall, NameSearch,
};
use froe::planning::CheckpointPlan;
use froe::plan::CompactionAction;
use froe::prepared::repair_before_planning;
use std::time::Duration;

const MAGIC_REASON: &str = "the index magic is not one this reader knows";
const CHECKSUM_REASON: &str = "the index checksum does not match its entries";

fn offender(name: &str, reason: &str) -> IndexlessArchive {
    IndexlessArchive {
        file_name: name.to_owned(),
        reason: reason.to_owned(),
    }
}

fn details(error: Error) -> String {
    match error {
        Error::InvalidFormat { details } => details,
        Error::InputOutput { details } => panic!("unexpected variant: {details}"),
    }
}

fn checkpoint_plan(names: &[&str], expired: usize) -> CheckpointPlan {
    CheckpointPlan {
        names: names.iter().map(|name| (*name).to_owned()).collect(),
        expired,
        unreferenced: 0,
    }
}

fn head() -> RecordIdentifier {
    RecordIdentifier::new(
        SegmentIdentifier::new(0x1111_1111_1111_4111, 0xa111_1111_1111_1111),
        1,
    )
}

#[test]
fn a_refusal_names_the_offenders_and_agrees_in_number() {
    let one = indexless_archive_refusal(IndexlessCensus {
        total_numbers: 43,
        indexless_numbers: 1,
        offenders: &vec![offender("data00042a.tar", MAGIC_REASON)],
        newest_is_indexless: true,
        any_scan_is_empty: false,
    });
    assert!(
        one.contains("1 of 43 active archive numbers has no index metadata (data00042a.tar)"),
        "singular subject names the archive and the total: {one}"
    );
    assert!(
        one.contains(MAGIC_REASON),
        "the reason the index was rejected reaches the operator: {one}"
    );
    assert!(
        one.contains("no archive, journal, or checkpoint has been changed"),
        "the refusal states precisely what is untouched: {one}"
    );

    let two = indexless_archive_refusal(IndexlessCensus {
        total_numbers: 3,
        indexless_numbers: 2,
        offenders: &vec![
            offender("data00001a.tar", CHECKSUM_REASON),
            offender("data00000a.tar", CHECKSUM_REASON),
        ],
        newest_is_indexless: false,
        any_scan_is_empty: false,
    });
    assert!(
        two.contains("2 of 3 active archive numbers have no index metadata"),
        "plural subject agrees: {two}"
    );
    assert_eq!(
        two.matches(CHECKSUM_REASON).count(),
        1,
        "one shared reason is stated once, not repeated per archive: {two}"
    );
}

/// The census counts every offender even though only five are named, so an
/// operator cannot read the shown list as the whole damage.
#[test]
fn a_refusal_counts_the_offenders_it_does_not_name() {
    let many: Vec<IndexlessArchive> = (0..8)
        .map(|index| offender(&format!("data0000{index}a.tar"), MAGIC_REASON))
        .collect();

    let truncated = indexless_archive_refusal(IndexlessCensus {
        total_numbers: 40,
        indexless_numbers: 8,
        offenders: &many,
        newest_is_indexless: true,
        any_scan_is_empty: false,
    });

    assert!(
        truncated.contains("8 of 40 active archive numbers"),
        "the count is the whole census, not the shown names: {truncated}"
    );
    assert!(
        truncated.contains("and 3 more"),
        "the omitted names are counted rather than silently dropped: {truncated}"
    );
}

/// The remedy is the branch an operator acts on, and the three shapes need
/// different advice: a killed writer can be repaired, mid-store damage should
/// be inspected first, and an archive whose scan reads nothing cannot be
/// repaired at all.
#[test]
fn a_refusal_advises_the_remedy_that_fits_the_damage() {
    let killed_writer = indexless_archive_refusal(IndexlessCensus {
        total_numbers: 43,
        indexless_numbers: 1,
        offenders: &vec![offender("data00042a.tar", MAGIC_REASON)],
        newest_is_indexless: true,
        any_scan_is_empty: false,
    });
    assert!(
        killed_writer.contains("the newest active archive is among them"),
        "a killed writer is distinguishable from damage: {killed_writer}"
    );
    assert!(
        killed_writer.contains("authorize the repair") && killed_writer.contains("`--yes`"),
        "a killed writer is pointed at authorizing the repair that fixes it: {killed_writer}"
    );

    let mid_store = indexless_archive_refusal(IndexlessCensus {
        total_numbers: 3,
        indexless_numbers: 2,
        offenders: &vec![
            offender("data00001a.tar", CHECKSUM_REASON),
            offender("data00000a.tar", CHECKSUM_REASON),
        ],
        newest_is_indexless: false,
        any_scan_is_empty: false,
    });
    assert!(
        mid_store.contains("the newest active archive is not among them"),
        "mid-store damage is not reported as a killed writer: {mid_store}"
    );
    assert!(
        mid_store.contains("inspect before repairing"),
        "mid-store damage does not get the unconditional repair advice: {mid_store}"
    );

    // An archive whose scan read nothing cannot be rebuilt, and the write
    // open refuses it. Advising a repair would be circular.
    let unrecoverable = indexless_archive_refusal(IndexlessCensus {
        total_numbers: 2,
        indexless_numbers: 1,
        offenders: &vec![offender("data00009a.tar", MAGIC_REASON)],
        newest_is_indexless: true,
        any_scan_is_empty: true,
    });
    assert!(
        !unrecoverable.contains("authorize the repair"),
        "an unrecoverable archive must not be sent to a repair that will refuse it: {unrecoverable}"
    );
    assert!(
        unrecoverable.contains("move that file aside"),
        "an unrecoverable archive gets the remedy that actually works: {unrecoverable}"
    );
}

#[test]
fn archives_with_their_index_are_not_refused() {
    let archive = ArchiveFacts {
        file_name: "data00000a.tar".to_owned(),
        archive_number: Some(0),
        recovery_reason: None,
        has_index: true,
        segments: Vec::new(),
    };
    assert_eq!(indexless_active_archive_refusal(&vec![archive]), None);
    let scanned = ArchiveFacts {
        file_name: "data00000a.tar".to_owned(),
        archive_number: Some(0),
        recovery_reason: Some(MAGIC_REASON.to_owned()),
        has_index: false,
        segments: Vec::new(),
    };
    let refused = indexless_active_archive_refusal(&vec![scanned]).expect("no index");
    assert!(refused.contains("1 of 1 active archive numbers has no index metadata"));
    assert!(refused.contains("move that file aside"), "{refused}");
}

#[test]
fn only_a_repair_plans_a_store_without_its_index() {
    let archives = || {
        vec![ArchiveFacts {
            file_name: "data00000a.tar".to_owned(),
            archive_number: Some(0),
            recovery_reason: Some(MAGIC_REASON.to_owned()),
            has_index: false,
            segments: Vec::new(),
        }]
    };
    let plain = CompactionOptions::default();
    let refused = details(
        refuse_indexless_before_planning(&plain, &archives()).expect_err("no index to plan with"),
    );
    let told = indexless_active_archive_refusal(&archives()).expect("no index");
    assert!(refused.contains(&told), "{refused}");
    let repairing = CompactionOptions::default().with_task(MaintenanceTask::RepairArchives);
    assert!(refuse_indexless_before_planning(&repairing, &archives()).is_ok());
    assert!(refuse_indexless_before_planning(&plain, &Vec::new()).is_ok());
}

#[test]
fn expired_checkpoints_stay_where_that_is_asked_for() {
    let usual = CompactionOptions::default().with_task(MaintenanceTask::ExpiredCheckpoints);
    assert!(usual.contains(MaintenanceTask::ExpiredCheckpoints));
    let keeping = usual.keeping_expired_checkpoints();
    assert!(!keeping.contains(MaintenanceTask::ExpiredCheckpoints));
}

#[test]
fn a_directory_that_is_none_any_more_is_refused() {
    assert!(canonical_repository_directory("store", true).is_ok());
    assert_eq!(
        details(canonical_repository_directory("store", false).expect_err("nothing there")),
        "store is not a repository directory"
    );
    assert!(require_directory("/store", true).is_ok());
    assert_eq!(
        details(require_directory("/store", false).expect_err("no directory")),
        "/store ceased to be a repository directory"
    );
}

/// Repair makes the `.bak` that the backup policy retires. Doing both in one
/// run can delete the only copy of what the rebuild could not read.
#[test]
fn repair_archives_and_recovery_backups_cannot_run_together() {
    let options = CompactionOptions::default()
        .with_task(MaintenanceTask::RepairArchives)
        .with_recovery_backup_policy(RecoveryBackupPolicy::new(Duration::ZERO, 0));
    let details = details(
        validate_options(&options)
            .expect_err("the combination must be refused before anything is read"),
    );
    assert!(
        details.contains("cannot run together"),
        "the refusal explains the conflict: {details}"
    );
    assert!(
        details.contains("repair first"),
        "the refusal states the safe sequence: {details}"
    );
}

#[test]
fn recovery_backup_task_requires_an_explicit_policy_without_writing() {
    let options = CompactionOptions::default().with_tasks(&[MaintenanceTask::RecoveryBackups]);
    let details = details(
        validate_options(&options)
            .expect_err("recovery backup cleanup without retention must be rejected"),
    );
    assert_eq!(
        details,
        "recovery-backups requires an explicit age/count retention policy"
    );
}

#[test]
fn a_retention_bound_without_the_journal_task_is_refused() {
    let options = CompactionOptions::default()
        .with_journal_revision_retention(1)
        .with_tasks(&[MaintenanceTask::Segments]);
    let error = validate_options(&options).expect_err("must refuse");
    assert!(
        error.to_text().contains("requires the journal task"),
        "unexpected refusal"
    );
}

#[test]
fn default_options_are_accepted() {
    assert!(validate_options(&CompactionOptions::default()).is_ok());
}

#[test]
fn a_retention_bound_beside_a_checkpoint_head_update_is_refused_while_planning() {
    let options = CompactionOptions::default()
        .with_tasks(&[
            MaintenanceTask::ExpiredCheckpoints,
            MaintenanceTask::Journal,
        ])
        .with_journal_revision_retention(1);
    let error = refuse_bound_beside_checkpoints(&options, &checkpoint_plan(&["expired"], 1))
        .expect_err("must refuse");
    assert!(error.to_text().contains("checkpoint"));
    assert!(refuse_bound_beside_checkpoints(&options, &checkpoint_plan(&[], 0)).is_ok());
}

#[test]
fn checkpoint_without_a_snapshot_root_fails_the_health_gate() {
    let broken = vec![CheckpointSnapshot {
        name: "broken".to_owned(),
        has_root: false,
    }];
    let result = require_checkpoint_snapshots(head(), &broken);
    let details = details(
        result.expect_err("cleanup must not bless a checkpoint without its snapshot root"),
    );
    assert_eq!(
        details,
        "checkpoint broken under journal root 11111111-1111-4111-a111-111111111111:1 has no snapshot \"root\" child node"
    );
}

#[test]
fn corrupt_record_in_the_selected_head_segment_never_rolls_back_silently() {
    let corrupt = RecordIdentifier::new(head().segment, 2_147_483_647);
    let error =
        require_node_record(corrupt, false).expect_err("the exact selected head record is corrupt");
    assert!(error.to_text().contains("current journal head"));
    assert!(require_node_record(corrupt, true).is_ok());
}

#[test]
fn a_head_needs_its_content_root() {
    assert_eq!(
        require_content_root(head(), Some(head())).expect("a root"),
        head()
    );
    assert!(require_content_root(head(), None).is_err());
}

#[test]
fn a_revision_reads_whole_only_after_every_proof() {
    let mut verification = SuperRootVerification::verify_exact_super_root(head());
    assert_eq!(verification.asked(), SuperRootStage::NodeRecord);
    assert!(verification.take_node_record(false).is_err());
    assert_eq!(verification.asked(), SuperRootStage::NodeRecord);
    verification.take_node_record(true).expect("a node");
    assert_eq!(verification.asked(), SuperRootStage::Walk);
    verification.walked(7);
    let error = verification
        .take_content_root(None)
        .expect_err("a revision without content");
    assert_eq!(
        details(error),
        "journal root 11111111-1111-4111-a111-111111111111:1 has no content \"root\" child node"
    );
    assert_eq!(verification.asked(), SuperRootStage::ContentRoot);
    verification
        .take_content_root(Some(head()))
        .expect("content");
    let snapshot = |has_root: bool| CheckpointSnapshot {
        name: "kept".to_owned(),
        has_root,
    };
    assert!(verification.take_checkpoints(&vec![snapshot(false)]).is_err());
    verification
        .take_checkpoints(&vec![snapshot(true)])
        .expect("snapshots");
    assert_eq!(verification.asked(), SuperRootStage::Finished);
    assert_eq!(verification.finish(), 7);
}

#[test]
fn empty_directory_is_refused_without_bootstrapping_anything() {
    let directory = "/fixtures/empty";
    let error = validate_repository_shape(
        directory,
        RootFacts {
            exists: true,
            is_symlink: false,
            is_directory: true,
            has_manifest: false,
            has_journal: false,
        },
    )
    .expect_err("an empty directory is not a repository");
    assert_eq!(
        details(error),
        format!(
            "{directory} is not an existing segment-tar repository (manifest and journal.log are required)"
        )
    );
}

#[test]
fn each_wrong_root_is_refused() {
    let sound = RootFacts {
        exists: true,
        is_symlink: false,
        is_directory: true,
        has_manifest: true,
        has_journal: true,
    };
    assert!(validate_repository_shape("/store", sound).is_ok());
    for root in [
        RootFacts { exists: false, ..sound },
        RootFacts { is_directory: false, ..sound },
    ] {
        assert_eq!(
            details(validate_repository_shape("/store", root).expect_err("no directory")),
            "/store is not a repository directory"
        );
    }
    let link = RootFacts { is_symlink: true, ..sound };
    assert!(
        details(validate_repository_shape("/store", link).expect_err("a link"))
            .contains("became a symbolic link")
    );
    let unjournaled = RootFacts { has_journal: false, ..sound };
    assert!(validate_repository_shape("/store", unjournaled).is_err());
}

#[test]
fn managed_symlink_is_rejected_without_following_its_target() {
    let entries = vec![
        DirectoryEntry {
            path: "/store/victim".to_owned(),
            is_managed: false,
            is_regular_file: true,
        },
        DirectoryEntry {
            path: "/store/journal.log.compacting".to_owned(),
            is_managed: true,
            is_regular_file: false,
        },
    ];
    assert_eq!(
        details(validate_managed_file_types(&entries).expect_err("managed symlink must be rejected")),
        "managed repository path /store/journal.log.compacting is not a regular file"
    );
}

#[test]
fn non_regular_numbered_read_only_backup_is_refused_even_during_preview() {
    let entries = vec![DirectoryEntry {
        path: "/store/data00000a.tar.2.ro.bak".to_owned(),
        is_managed: true,
        is_regular_file: false,
    }];
    let error = validate_managed_file_types(&entries)
        .expect_err("managed backup names must remain regular files in dry-run");
    assert_eq!(
        error.to_text(),
        "invalid segment-tar data: managed repository path /store/data00000a.tar.2.ro.bak is not a regular file"
    );
}

#[test]
fn planning_non_utf8_backup_like_name_is_not_promoted_into_the_managed_allowlist() {
    let hostile = String::from_utf8(b"data00000a.tar.\xff.ro.bak".to_vec()).ok();
    assert!(!is_managed_name(hostile.as_deref(), false, false, false));
}

#[test]
fn shape_non_utf8_backup_like_name_is_not_promoted_into_the_managed_allowlist() {
    let hostile = String::from_utf8(b"data00000a.tar.\xff.ro.bak".to_vec()).ok();
    assert!(!is_managed_name(hostile.as_deref(), false, false, false));
}

#[test]
fn the_stores_own_files_are_managed() {
    for name in ["journal.log", "manifest"] {
        assert!(is_managed_name(Some(name), false, false, false), "{name}");
    }
    assert!(is_managed_name(Some("data00000a.tar"), true, false, false));
    assert!(!is_managed_name(Some("operator-notes.txt"), false, false, false));
}

#[test]
fn entry_kinds_are_distinct() {
    let kinds = [
        entry_kind(true, false, false),
        entry_kind(false, true, false),
        entry_kind(false, false, true),
        entry_kind(false, false, false),
    ];
    for left in 0..kinds.len() {
        for right in 0..left {
            assert_ne!(kinds[left], kinds[right]);
        }
    }
}

fn warnings_survive_a_refusal_and_stay_bounded() {
    let untouched = attach_planning_warnings(
        Error::InvalidFormat {
            details: "refused".to_owned(),
        },
        &Vec::new(),
    );
    let Error::InvalidFormat { details } = untouched else {
        panic!("variant must be preserved");
    };
    assert_eq!(details, "refused", "no warnings means no tail");

    let warnings: Vec<String> = (0..5).map(|index| format!("warning {index}")).collect();
    let attached = attach_planning_warnings(
        Error::InvalidFormat {
            details: "refused.".to_owned(),
        },
        &warnings,
    );
    let Error::InvalidFormat { details } = attached else {
        panic!("variant must be preserved");
    };
    assert!(
        details.contains("warning 0") && details.contains("warning 2"),
        "established warnings reach the operator: {details}"
    );
    assert!(
        !details.contains("warning 3"),
        "the tail is bounded so it cannot bury the refusal: {details}"
    );
    assert!(
        details.contains("and 2 further warnings"),
        "the omitted warnings are counted: {details}"
    );

    // A non-format error keeps its variant: a caller matching on it for an
    // input/output failure must still be able to.
    let input_output = attach_planning_warnings(
        Error::InputOutput {
            details: "disk".to_owned(),
        },
        &warnings,
    );
    assert!(
        matches!(input_output, Error::InputOutput { .. }),
        "only format refusals carry the tail"
    );
}

#[test]
fn planning_planning_warnings_survive_a_refusal_and_stay_bounded() {
    warnings_survive_a_refusal_and_stay_bounded();
}

#[test]
fn mod_planning_warnings_survive_a_refusal_and_stay_bounded() {
    warnings_survive_a_refusal_and_stay_bounded();
}

#[test]
fn completed_repairs_are_stated_beside_a_later_refusal() {
    let refused = attach_completed_repairs(
        Error::InvalidFormat {
            details: "refused".to_owned(),
        },
        &vec!["data00000a.tar".to_owned()],
    );
    assert_eq!(
        details(refused),
        "invalid segment-tar data: refused This refusal came after 1 archive index rebuild(s), which are already durable: data00000a.tar. The originals are retained under `.bak` names, and those archives need no second attempt."
    );
}

#[test]
fn exhausted_journal_replacement_namespace_fails_during_read_only_planning() {
    let mut search = NameSearch::begin();
    for _ in 0..1000u16 {
        assert!(matches!(search, NameSearch::Trying { .. }));
        search = search.tried(true);
    }
    assert!(matches!(search, NameSearch::Exhausted));
    let error = ensure_numbered_name_available("journal.log.bak", search)
        .expect_err("planning must discover exhausted backup names before apply");
    assert!(error.to_text().contains("journal.log.bak"));
}

#[test]
fn occupied_temporary_name_is_never_truncated() {
    let mut search = NameSearch::begin();
    while let NameSearch::Trying { counter } = search {
        let name = numbered_name("journal.log.bak", counter);
        search = search.tried(name == "journal.log.bak.000");
    }
    let counter = ensure_numbered_name_available("journal.log.bak", search)
        .expect("a free name")
        .expect("a counter");
    assert_eq!(numbered_name("journal.log.bak", counter), "journal.log.bak.001");
}

#[test]
fn an_unrepairable_archive_refuses_before_anything_is_rewritten() {
    let options = CompactionOptions::default().with_task(MaintenanceTask::RepairArchives);
    let unrepairable = "archive data00500a.tar cannot be rebuilt".to_owned();
    let preview = survey_repairs(&options, Some(unrepairable.clone()), Vec::new())
        .expect_err("the preview must refuse an unrepairable archive");
    assert!(preview.to_text().contains("data00500a.tar"));
    let prepared = repair_before_planning(&options, Some(unrepairable), 1)
        .expect_err("prepare must refuse too");
    assert!(prepared.to_text().contains("data00500a.tar"));
}

#[test]
fn a_repair_is_run_only_where_it_was_asked_for() {
    let asked = CompactionOptions::default().with_task(MaintenanceTask::RepairArchives);
    assert!(repair_before_planning(&asked, None, 1).expect("repairable"));
    assert!(!repair_before_planning(&asked, None, 0).expect("nothing to repair"));
    let unasked = CompactionOptions::default();
    assert!(!repair_before_planning(&unasked, Some("damaged".to_owned()), 1).expect("not asked"));
}

#[test]
fn the_first_installed_rebuild_pays_for_the_manifest_upgrade() {
    let mut upgrade = ManifestUpgradeOnFirstInstall::new();
    assert!(upgrade.must_upgrade(1), "the first install pays for the upgrade");
    assert!(!upgrade.done, "until then nothing was raised");
    upgrade.authorize();
    assert!(!upgrade.must_upgrade(1), "and no later one pays again");
    assert!(!ManifestUpgradeOnFirstInstall::new().must_upgrade(2));
}

#[test]
fn a_head_moving_cleanup_upgrades_a_version_one_manifest_atomically() {
    let moved = checkpoint_plan(&["expired"], 1);
    assert!(decide_manifest_upgrade(0, &moved, &None, 1));
    assert!(!decide_manifest_upgrade(0, &moved, &None, 2));
    assert!(!decide_manifest_upgrade(0, &checkpoint_plan(&[], 0), &None, 1));
    let upgraded = manifest_upgrade_bytes(b"custom.property=kept\nstore.version=\\\n 1\n");
    let manifest = String::from_utf8(upgraded).expect("the upgraded manifest is text");
    assert!(manifest.contains("custom.property=kept"));
    assert!(manifest.ends_with("store.version=2\n"));
}

#[test]
fn a_survey_asks_only_for_what_the_run_needs() {
    let moved = checkpoint_plan(&["expired"], 1);
    let nothing = checkpoint_plan(&[], 0);
    let checkpoints =
        CompactionOptions::default().with_tasks(&[MaintenanceTask::ExpiredCheckpoints]);
    let demanded = survey_demands(&checkpoints, &moved, true);
    assert!(demanded.archive_number);
    assert_ne!(demanded.duplicates, DuplicateCheck::Skipped);
    let idle = survey_demands(
        &CompactionOptions::default().with_tasks(&[]),
        &nothing,
        true,
    );
    assert!(!idle.archive_number);
    assert_eq!(idle.duplicates, DuplicateCheck::Skipped);
    let scans = leftover_scans(
        &CompactionOptions::default().with_tasks(&[MaintenanceTask::StaleTemporaries]),
        true,
    );
    assert!(scans.temporaries);
    assert!(!scans.recovery_backups);
}

#[test]
fn names_are_reserved_for_the_files_a_run_replaces() {
    let options = CompactionOptions::default().with_tasks(&[MaintenanceTask::Journal]);
    let reserved = reserved_names(&options, 1, true);
    assert!(reserved.iter().any(|stem| stem.starts_with("journal.log.")));
    assert!(reserved.iter().any(|stem| stem.starts_with("manifest.")));
    assert!(reserved_names(&options, 0, false).is_empty());
}

#[test]
fn free_space_multiplies_blocks_by_their_size() {
    assert_eq!(available_filesystem_bytes(10, 4_096, 512), Some(40_960));
    assert_eq!(available_filesystem_bytes(10, 0, 512), Some(5_120));
    assert_eq!(available_filesystem_bytes(u64::MAX, 2, 512), None);
}

#[test]
fn pending_repairs_are_listed_where_they_were_asked_for() {
    let repair = CompactionAction::RepairArchiveIndex {
        file_name: "data00000a.tar".to_owned(),
        retired_file_names: Vec::new(),
        reason: MAGIC_REASON.to_owned(),
        bytes: 512,
    };
    let asked = CompactionOptions::default().with_task(MaintenanceTask::RepairArchives);
    assert_eq!(
        survey_repairs(&asked, None, vec![repair.copy()]).expect("planned").len(),
        1
    );
    let unasked = CompactionOptions::default();
    assert!(survey_repairs(&unasked, None, vec![repair]).expect("none").is_empty());
}
