//! Whether the process that applies a plan can keep the ownership of what it
//! replaces.

use froe::apply_identity::{
    append_apply_identity_preview_warning, journal_service_user_issue,
    metadata_source_apply_identity_issue, planned_apply_identity_issue, planned_metadata_sources,
    possible_created_group_ids, preview_apply_identity_issue, validate_apply_identity_for_uid,
    validate_plan_apply_identity_for_credentials, ApplyCredentials, PlannedRewrites,
    SourceMetadata, SETGID_MODE,
};
use froe::error::Error;
use froe::planning::{PlannedArchiveSweep, SegmentCompactionPlan};
use froe::prepared::validate_repair_target_identity;

const JOURNAL: &str = "/store/journal.log";

fn source(path: &str, owner: u32, group: u32, mode: u32) -> SourceMetadata {
    SourceMetadata {
        path: path.to_owned(),
        owner,
        group,
        mode,
    }
}

#[test]
fn apply_identity_mismatch_is_detected_before_lock_creation() {
    let owner = 1_000;
    let error = validate_apply_identity_for_uid(JOURNAL, owner, owner + 1)
        .expect_err("different service uid must be rejected");
    assert!(error.to_text().contains("service user"));
    assert!(validate_apply_identity_for_uid(JOURNAL, owner, owner).is_ok());
}

#[test]
fn authoritative_plan_rejects_a_foreign_owned_archive_rewrite_before_mutation() {
    let owner = 1_000;
    let different_uid = 1_001;
    let source_gid = 1_000;
    let credentials = ApplyCredentials::new(different_uid, source_gid, &vec![source_gid]);
    let path = "/store/data00001a.tar";
    let issue = planned_apply_identity_issue(
        &vec![source(path, owner, source_gid, 0o640)],
        source_gid,
        0o750,
        &credentials,
    );
    let error = validate_plan_apply_identity_for_credentials(issue)
        .expect_err("foreign-owned rewrite source must fail preflight");
    assert_eq!(
        error.to_text(),
        format!(
            "invalid segment-tar data: cleanup cannot safely replace {path} while preserving its metadata: it is owned by uid {owner}, but the effective uid is {different_uid}; conservatively refusing before planned repository mutations"
        )
    );
}

#[test]
fn a_plan_without_metadata_sources_raises_no_issue() {
    let credentials = ApplyCredentials::new(42_424, 7, &vec![7]);
    let issue = planned_apply_identity_issue(&Vec::new(), 6, 0o731, &credentials);
    assert_eq!(issue, None, "a health-only plan has no metadata sources");
    assert!(validate_plan_apply_identity_for_credentials(issue).is_ok());
}

#[test]
fn ownership_preview_emits_a_known_mismatch_and_matches_the_apply_gate() {
    let journal_owner = 1_000;
    let other_uid = 1_001;
    let shared_issue = journal_service_user_issue(JOURNAL, journal_owner, other_uid)
        .expect("foreign service user must fail the shared check");
    let issue = preview_apply_identity_issue(
        journal_service_user_issue(JOURNAL, journal_owner, other_uid),
        None,
    )
    .expect("foreign service user must produce a preview warning");
    assert_eq!(issue, shared_issue);
    let apply_error = validate_apply_identity_for_uid(JOURNAL, journal_owner, other_uid)
        .expect_err("authoritative apply rejects the same mismatch")
        .to_text();
    assert!(apply_error.contains(&shared_issue), "{apply_error}");

    let mut warnings = vec!["earlier".to_owned()];
    append_apply_identity_preview_warning(&mut warnings, &Ok(Some(issue)));
    assert_eq!(warnings.len(), 2);
    let warning = warnings.last().expect("known-mismatch warning");
    assert!(
        warning.contains("apply ownership preflight warning"),
        "{warning}"
    );
    assert!(warning.contains(&shared_issue), "{warning}");
    assert!(warning.contains("authoritative apply"), "{warning}");
}

#[test]
fn ownership_preview_emits_a_warning_when_analysis_is_unprovable() {
    let mut warnings: Vec<String> = Vec::new();
    append_apply_identity_preview_warning(
        &mut warnings,
        &Err(Error::InputOutput {
            details: "no such file".to_owned(),
        }),
    );
    assert_eq!(warnings.len(), 1);
    let warning = warnings.last().expect("unprovable-analysis warning");
    assert!(
        warning.contains("apply ownership could not be proved"),
        "{warning}"
    );
    assert!(
        warning.contains("authoritative apply will retry"),
        "{warning}"
    );
}

#[test]
fn a_matching_identity_adds_no_warning() {
    let mut warnings = vec!["earlier".to_owned()];
    append_apply_identity_preview_warning(&mut warnings, &Ok(None));
    assert_eq!(warnings, vec!["earlier".to_owned()]);
}

#[test]
fn metadata_preflight_models_inherited_gid_and_setgid_mode_conservatively() {
    const SYNTHETIC_NON_ROOT_UID: u32 = 42_424;
    const ARCHIVE_GROUP: u32 = 27_182;
    const UNRELATED_GROUP: u32 = 31_415;

    let credentials = ApplyCredentials {
        effective_uid: SYNTHETIC_NON_ROOT_UID,
        effective_gid: UNRELATED_GROUP,
        group_ids: vec![UNRELATED_GROUP],
    };
    let possible_created_gids =
        possible_created_group_ids(ARCHIVE_GROUP, SETGID_MODE | 0o750, &credentials);
    let source_path = "data00000a.tar";
    let source_mode = 0o640;

    assert_eq!(
        possible_created_gids,
        vec![ARCHIVE_GROUP],
        "a setgid directory fixes the staging-file group"
    );
    assert_eq!(
        metadata_source_apply_identity_issue(
            source_path,
            SYNTHETIC_NON_ROOT_UID,
            ARCHIVE_GROUP,
            source_mode,
            &possible_created_gids,
            &credentials,
        ),
        None,
        "an already inherited source gid needs neither fchown nor group membership when no setgid bit is requested"
    );

    let issue = metadata_source_apply_identity_issue(
        source_path,
        SYNTHETIC_NON_ROOT_UID,
        ARCHIVE_GROUP,
        source_mode | SETGID_MODE,
        &possible_created_gids,
        &credentials,
    )
    .expect("setgid preservation outside caller groups must refuse conservatively");
    assert!(issue.contains(&format!("gid {ARCHIVE_GROUP}")), "{issue}");
    assert!(issue.contains("setgid-mode"), "{issue}");
    assert!(issue.contains("cannot be guaranteed read-only"), "{issue}");
    assert!(issue.contains("source mode is 0o2640;"), "{issue}");
}

#[test]
fn metadata_preflight_models_both_permitted_non_setgid_creation_groups() {
    const SYNTHETIC_NON_ROOT_UID: u32 = 42_424;
    const SOURCE_GROUP: u32 = 27_182;
    const EFFECTIVE_GROUP: u32 = 31_415;

    let credentials = ApplyCredentials {
        effective_uid: SYNTHETIC_NON_ROOT_UID,
        effective_gid: EFFECTIVE_GROUP,
        group_ids: vec![EFFECTIVE_GROUP],
    };
    let possible_gids = possible_created_group_ids(SOURCE_GROUP, 0o750, &credentials);

    let issue = metadata_source_apply_identity_issue(
        "data00000a.tar",
        SYNTHETIC_NON_ROOT_UID,
        SOURCE_GROUP,
        0o640,
        &possible_gids,
        &credentials,
    )
    .expect("a possible System V group outcome must be treated conservatively");

    assert_eq!(possible_gids, vec![SOURCE_GROUP, EFFECTIVE_GROUP]);
    assert!(
        issue.contains("may have gid {27182, 31415}"),
        "the diagnostic must record both POSIX-permitted creation groups: {issue}"
    );
}

#[test]
fn the_superuser_may_install_any_group() {
    let credentials = ApplyCredentials::new(0, 0, &Vec::new());
    assert_eq!(
        metadata_source_apply_identity_issue("a", 0, 7, 0o640, &vec![1], &credentials),
        None
    );
}

#[test]
fn checkpoint_metadata_preflight_checks_only_the_newest_possible_template() {
    let sources = planned_metadata_sources(
        PlannedRewrites {
            upgrades_manifest: false,
            segment_plan: None,
            moves_checkpoint_head: true,
            rewrites_journal: false,
        },
        &vec!["data00001a.tar".to_owned(), "data00000a.tar".to_owned()],
    );
    assert_eq!(sources, vec!["data00001a.tar".to_owned()]);
}

#[test]
fn checkpoint_metadata_preflight_includes_the_leading_removal_outcome_prefix() {
    let orphan_archive = "data00002a.tar".to_owned();
    let current_archive = "data00001a.tar".to_owned();
    let plan = SegmentCompactionPlan {
        archives: vec![PlannedArchiveSweep::Remove {
            file_name: orphan_archive.clone(),
            segment_count: 1,
            file_bytes: 4_096,
        }],
    };
    let mut sources = planned_metadata_sources(
        PlannedRewrites {
            upgrades_manifest: false,
            segment_plan: Some(&plan),
            moves_checkpoint_head: true,
            rewrites_journal: false,
        },
        &vec![
            orphan_archive.clone(),
            current_archive.clone(),
            "data00000a.tar".to_owned(),
        ],
    );
    sources.sort();
    assert_eq!(
        sources,
        vec![current_archive, orphan_archive],
        "a failed newest unlink uses that source; a successful unlink promotes only the next active archive"
    );
}

#[test]
fn every_rewritten_file_is_a_metadata_source() {
    let plan = SegmentCompactionPlan {
        archives: vec![PlannedArchiveSweep::Rewrite {
            file_name: "data00000a.tar".to_owned(),
            replacement_name: "data00000b.tar".to_owned(),
            segment_count: 1,
            eligible_entry_bytes: 512,
            source_file_bytes: 4_096,
        }],
    };
    let mut sources = planned_metadata_sources(
        PlannedRewrites {
            upgrades_manifest: true,
            segment_plan: Some(&plan),
            moves_checkpoint_head: false,
            rewrites_journal: true,
        },
        &vec!["data00001a.tar".to_owned(), "data00000a.tar".to_owned()],
    );
    sources.sort();
    assert_eq!(
        sources,
        vec![
            "data00000a.tar".to_owned(),
            "journal.log".to_owned(),
            "manifest".to_owned()
        ]
    );
}

#[test]
fn a_repair_target_this_process_cannot_match_refuses_before_rewriting() {
    let credentials = ApplyCredentials::new(1_001, 1_000, &vec![1_000]);
    let targets = vec![source("data00000a.tar", 1_000, 1_000, 0o640)];
    assert!(
        validate_repair_target_identity(&targets, 1_000, 0o750, &credentials).is_err(),
        "the preflight inspects the file the rebuild would replace"
    );
    let owner = ApplyCredentials::new(1_000, 1_000, &vec![1_000]);
    assert!(validate_repair_target_identity(&targets, 1_000, 0o750, &owner).is_ok());
}
