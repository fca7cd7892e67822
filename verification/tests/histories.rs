//! Version histories: which are orphaned, which a purge selects, and what
//! their removal releases.

use froe::checkpoints::{
    async_checkpoint_references, clamped_milliseconds, plan_checkpoints, CheckpointFacts,
};
use froe::content::{
    BinaryValue, ChildNode, NodeFacts, PropertyState, PropertyType, PropertyValue, PropertyValues,
};
use froe::identifier::{RecordIdentifier, SegmentIdentifier, SegmentSet};
use froe::options::{CompactionOptions, MaintenanceTask};
use froe::planning::content_census::PlanningContentCensus;
use froe::planning::external_binaries::ExternalBinaryCensus;
use froe::planning::head_verification::{CheckpointSnapshot, HeadVerification, HeadWalk};
use froe::planning::purge::{candidate_internal_identifiers, select_purge};
use froe::planning::references::demoted_by_inbound_references;
use froe::planning::version_history_plan::{
    clamped_seconds, orphaned_version_history_report, purge_estimate_fits, released_bulk,
    retained_checkpoint_count,
    select_version_history_purge, start_version_history_purge, version_history_plan_parts,
    PurgeStart,
};
use froe::planning::version_storage::{VersionStorageCensus, VersionStoragePreScan};
use froe::shared_bulk::predict_shared_bulk_segments;
use std::collections::{HashMap, HashSet};

const LIMIT: u64 = 16_512;
const ORPHAN: &str = "00b6d84c-9256-5b98-a45f-1bb0a9fef2ef";
const LIVE: &str = "10b6d84c-9256-5b98-a45f-1bb0a9fef2ef";
const INNER: &str = "20b6d84c-9256-5b98-a45f-1bb0a9fef2ef";
const ORPHAN_NUMBER: u128 = 0x00b6_d84c_9256_5b98_a45f_1bb0_a9fe_f2ef;
const LIVE_NUMBER: u128 = 0x10b6_d84c_9256_5b98_a45f_1bb0_a9fe_f2ef;
const INNER_NUMBER: u128 = 0x20b6_d84c_9256_5b98_a45f_1bb0_a9fe_f2ef;
const DAY: u64 = 86_400;
/// 2012-03-01T12:30:45.678+01:00.
const CREATED: i64 = 1_330_601_445;

fn record(number: u32) -> RecordIdentifier {
    RecordIdentifier::new(SegmentIdentifier::new(1, 0xA000_0000_0000_0001), number)
}

fn bulk(number: u64) -> SegmentIdentifier {
    SegmentIdentifier::new(number, 0xB000_0000_0000_0000)
}

fn text(name: &str, value: &str) -> PropertyState {
    PropertyState {
        name: name.to_owned(),
        property_type: PropertyType::Other,
        values: PropertyValues::Single(PropertyValue::String(value.to_owned())),
    }
}

fn reference(value: &str) -> PropertyState {
    PropertyState {
        name: "points-to".to_owned(),
        property_type: PropertyType::Reference,
        values: PropertyValues::Single(PropertyValue::String(value.to_owned())),
    }
}

fn inline_binary(length: u64, blocks: Vec<SegmentIdentifier>) -> PropertyState {
    PropertyState {
        name: "data".to_owned(),
        property_type: PropertyType::Binary,
        values: PropertyValues::Single(PropertyValue::Binary(BinaryValue::Inline {
            length,
            record_identifier: record(900),
            blocks: Ok(blocks),
        })),
    }
}

fn history_node(versionable: &str) -> Vec<PropertyState> {
    vec![
        text("jcr:primaryType", "nt:versionHistory"),
        text("jcr:versionableUuid", versionable),
    ]
}

fn version_node(created: &str) -> Vec<PropertyState> {
    vec![
        text("jcr:primaryType", "nt:version"),
        text("jcr:created", created),
        text("jcr:uuid", INNER),
    ]
}

/// Version storage with one orphan under `/00/b6` and one live history under
/// `/10/b6`, each with one version of its own binary.
fn storage() -> VersionStorageCensus {
    let mut census = VersionStorageCensus::default();
    let mut external = ExternalBinaryCensus::default();
    let mut scan = VersionStoragePreScan::new(true);
    let nodes: Vec<(&str, u32, Vec<PropertyState>)> = vec![
        ("", 1, Vec::new()),
        ("/00", 2, Vec::new()),
        ("/00/b6", 3, Vec::new()),
        ("/00/b6/orphan", 4, history_node(ORPHAN)),
        ("/00/b6/orphan/1.0", 5, {
            let mut node = version_node("2012-03-01T12:30:45.678+01:00");
            node.push(inline_binary(100_000, vec![bulk(1), bulk(2)]));
            node
        }),
        ("/10", 6, Vec::new()),
        ("/10/b6", 7, Vec::new()),
        ("/10/b6/live", 8, history_node(LIVE)),
        ("/10/b6/live/1.0", 9, vec![inline_binary(100_000, vec![bulk(2)])]),
    ];
    for (path, number, properties) in &nodes {
        scan.node_verified(
            &mut census,
            &mut external,
            path,
            record(*number),
            properties,
            LIMIT,
        );
    }
    census.mark_live(LIVE_NUMBER);
    census.resolve_live_matches();
    census
}

#[test]
fn a_live_identifier_keeps_its_history_out_of_the_orphans() {
    let census = storage();
    assert_eq!(census.total_histories(), 2);
    assert_eq!(census.len(), 1);
    let orphan = census.history(0);
    assert_eq!(orphan.versionable, ORPHAN_NUMBER);
    assert_eq!(orphan.record, record(4));
    assert_eq!(orphan.path, "/00/b6/orphan");
    assert_eq!(orphan.nodes, 2);
    assert_eq!(orphan.inline_binary_bytes, 100_000);
    assert_eq!(orphan.newest_version_created, Some(CREATED));
    assert_eq!(orphan.internal_identifiers, vec![INNER_NUMBER]);
    assert!(!orphan.freezes_a_configuration);
    assert!(census.live_history_bulk().contains(bulk(2)));
    assert!(!census.live_history_bulk().contains(bulk(1)));
    assert_eq!(census.histories_under("/00"), 1);
    assert_eq!(census.histories_under("/10/b6"), 1);
}

#[test]
fn a_history_without_a_parsable_identifier_is_not_classified() {
    let mut census = VersionStorageCensus::default();
    let mut external = ExternalBinaryCensus::default();
    let mut scan = VersionStoragePreScan::new(false);
    scan.node_verified(
        &mut census,
        &mut external,
        "/aa/odd",
        record(1),
        &history_node("not an identifier"),
        LIMIT,
    );
    census.resolve_live_matches();
    assert_eq!(census.malformed_identifiers(), 1);
    assert_eq!(census.len(), 0);
    assert_eq!(census.histories_under("/aa"), 1, "it still holds its ancestors");
}

#[test]
fn a_purge_takes_orphans_and_the_nodes_that_hold_nothing_else() {
    let census = storage();
    let selection = select_purge(&census, None, CREATED, &HashSet::new());
    assert_eq!(selection.histories, 1);
    assert_eq!(selection.nodes, 2);
    assert!(selection.selected_identifiers.contains(&ORPHAN_NUMBER));
    let mut omitted: Vec<u32> = selection
        .omitted_records
        .iter()
        .map(|omitted| omitted.record_number)
        .collect();
    omitted.sort_unstable();
    assert_eq!(omitted, vec![2, 3, 4]);
}

#[test]
fn the_age_bound_keeps_what_is_too_young() {
    let census = storage();
    let young = select_purge(&census, Some(DAY), CREATED + 10, &HashSet::new());
    assert_eq!((young.histories, young.kept_by_age), (0, 1));
    assert!(young.omitted_records.is_empty());
    let old = select_purge(&census, Some(DAY), CREATED + DAY as i64, &HashSet::new());
    assert_eq!((old.histories, old.kept_by_age), (1, 0));
}

#[test]
fn an_inbound_reference_demotes_its_history() {
    let census = storage();
    let candidates = HashSet::from([ORPHAN_NUMBER]);
    let owners = candidate_internal_identifiers(&census, &candidates);
    assert_eq!(owners.get(&INNER_NUMBER), Some(&ORPHAN_NUMBER));

    let nodes: HashMap<u32, NodeFacts> = HashMap::from([
        (
            100,
            NodeFacts {
                properties: Vec::new(),
                children: vec![
                    ChildNode {
                        name: "content".to_owned(),
                        record: record(101),
                    },
                    ChildNode {
                        name: "storage".to_owned(),
                        record: record(1),
                    },
                ],
            },
        ),
        (
            101,
            NodeFacts {
                properties: vec![reference(INNER)],
                children: Vec::new(),
            },
        ),
    ]);
    let mut pass = demoted_by_inbound_references(record(100), Some(record(1)), owners);
    let mut walked = Vec::new();
    while let Some(wanted) = pass.next() {
        walked.push(wanted.record_number);
        pass.supply(&nodes[&wanted.record_number]);
    }
    walked.sort_unstable();
    assert_eq!(walked, vec![100, 101], "version storage itself is not walked");
    let demoted = pass.finish();
    assert!(demoted.contains(&ORPHAN_NUMBER));

    let selection = select_purge(&census, None, CREATED, &demoted);
    assert_eq!((selection.histories, selection.kept_by_references), (0, 1));
}

#[test]
fn a_purge_is_planned_only_on_request() {
    let census = storage();
    let unrequested = CompactionOptions::default();
    assert!(matches!(
        start_version_history_purge(&unrequested, &census, CREATED),
        PurgeStart::Unrequested
    ));
    let requested = CompactionOptions::default().purging_orphaned_version_histories(None);
    match start_version_history_purge(&requested, &census, CREATED) {
        PurgeStart::NeedsReferences(owners) => {
            assert_eq!(owners.get(&INNER_NUMBER), Some(&ORPHAN_NUMBER));
        }
        _ => panic!("a candidate needs its references checked"),
    }
    let bounded = CompactionOptions::default().purging_orphaned_version_histories(Some(DAY));
    let mut warnings = Vec::new();
    let selection = select_version_history_purge(
        &bounded,
        &census,
        CREATED,
        &HashSet::new(),
        &mut warnings,
    )
    .expect("requested");
    assert_eq!(selection.histories, 0);
    assert_eq!(
        warnings,
        vec!["1 orphaned version histories kept by the age bound (younger than the minimum, or without a parsable version creation date)".to_owned()]
    );
}

#[test]
fn a_purge_releases_only_bulk_that_nothing_else_holds() {
    let census = storage();
    let selection = Some(select_purge(&census, None, CREATED, &HashSet::new()));
    let mut live_bulk = SegmentSet::new();
    let released = released_bulk(&census, &live_bulk, &selection);
    assert!(released.contains(bulk(1)));
    assert!(!released.contains(bulk(2)), "the live history holds it");
    live_bulk.insert(bulk(1));
    let held = released_bulk(&census, &live_bulk, &selection);
    assert_eq!(held.len(), 0);

    let report = orphaned_version_history_report(
        &census,
        &selection,
        1_000,
        Some((500_000, 200_000)),
        &released,
        65_536,
        3,
    );
    assert_eq!(report.orphaned_histories, 1);
    assert_eq!(report.orphaned_nodes, 2);
    assert_eq!(report.inline_binary_bytes, 100_000);
    assert_eq!(report.released_bulk_segments, 1);
    assert_eq!(report.released_bulk_bytes, 65_536);
    assert_eq!(report.node_record_bytes_estimate, 1_000);
    assert_eq!(report.retained_checkpoints, 3);
    let purge = version_history_plan_parts(
        selection,
        Some(record(100)),
        Some(record(101)),
        Some(record(1)),
        3,
    )
    .expect("one history goes");
    assert_eq!(purge.histories, 1);
    assert_eq!(purge.retained_checkpoints, 3);
    assert!(purge.context_dependent_records.contains(&record(1)));
    assert_eq!(retained_checkpoint_count(5, 2), 3);
    assert_eq!(retained_checkpoint_count(1, 2), 0);
}

#[test]
fn clocks_outside_their_range_are_clamped() {
    assert_eq!(clamped_seconds(None), 0);
    assert_eq!(clamped_seconds(Some(7)), 7);
    assert_eq!(clamped_seconds(Some(u64::MAX)), i64::MAX);
    assert_eq!(clamped_milliseconds(Some(7)), 7);
    assert_eq!(clamped_milliseconds(Some(u128::MAX)), i64::MAX);
}

#[test]
fn a_head_is_walked_storage_first_and_marks_live_identifiers() {
    let mut census = PlanningContentCensus::default();
    let mut walk = HeadVerification::verify_head_for_planning(
        record(50),
        true,
        Some(record(100)),
        Some(record(1)),
        &mut census,
    )
    .expect("a sound head");
    let mut walks = Vec::new();
    while walk.current() != HeadWalk::Finished {
        walks.push(walk.current());
        walk.walked(&mut census);
    }
    assert!(walks.contains(&HeadWalk::Content(record(100))));
    assert!(walks.contains(&HeadWalk::SuperRoot(record(50))));
    walk.finish(&vec![CheckpointSnapshot {
        name: "kept".to_owned(),
        has_root: true,
    }])
    .expect("every checkpoint has its snapshot");
    let mut broken = PlanningContentCensus::default();
    let mut walk = HeadVerification::verify_head_for_planning(
        record(50),
        true,
        Some(record(100)),
        None,
        &mut broken,
    )
    .expect("a sound head");
    while walk.current() != HeadWalk::Finished {
        walk.walked(&mut broken);
    }
    let error = walk
        .finish(&vec![CheckpointSnapshot {
            name: "broken".to_owned(),
            has_root: false,
        }])
        .expect_err("a checkpoint without its snapshot");
    assert!(error.to_text().contains("checkpoint broken under journal root"));
    let mut refused = PlanningContentCensus::default();
    assert!(HeadVerification::verify_head_for_planning(
        record(50),
        false,
        Some(record(100)),
        None,
        &mut refused,
    )
    .is_err());
}

fn checkpoint(name: &str, timestamp: i64) -> CheckpointFacts {
    CheckpointFacts {
        name: name.to_owned(),
        timestamp: Some(PropertyState {
            name: "timestamp".to_owned(),
            property_type: PropertyType::Other,
            values: PropertyValues::Single(PropertyValue::Long(timestamp)),
        }),
    }
}

#[test]
fn expired_checkpoints_are_removed_in_one_healthy_head_update() {
    let options = CompactionOptions::default().with_tasks(&[MaintenanceTask::ExpiredCheckpoints]);
    let mut warnings = Vec::new();
    let plan = plan_checkpoints(
        &vec![checkpoint("later", 2_000), checkpoint("expired", 1)],
        &Vec::new(),
        &options,
        1_000,
        &mut warnings,
    );
    assert_eq!(plan.names, vec!["expired".to_owned()]);
    assert_eq!((plan.expired, plan.unreferenced), (1, 0));
    assert!(warnings.is_empty());
}

#[test]
fn a_removal_leaves_no_checkpoint_to_remove() {
    let options = CompactionOptions::default()
        .with_tasks(&[MaintenanceTask::ExpiredCheckpoints])
        .with_unreferenced_checkpoint_removal();
    let properties = vec![text("async", "kept")];
    let all = || {
        vec![
            checkpoint("kept", 2_000),
            checkpoint("expired", 1),
            checkpoint("stray", 2_000),
        ]
    };
    let mut warnings = Vec::new();
    let first = plan_checkpoints(&all(), &properties, &options, 1_000, &mut warnings);
    assert_eq!((first.expired, first.unreferenced), (1, 1));
    let left: Vec<CheckpointFacts> = all()
        .into_iter()
        .filter(|checkpoint| !first.names.contains(&checkpoint.name))
        .collect();
    assert_eq!(left.len(), 1);
    let second = plan_checkpoints(&left, &properties, &options, 1_000, &mut warnings);
    assert!(second.names.is_empty());
    assert_eq!((second.expired, second.unreferenced), (0, 0));
}

#[test]
fn an_estimate_that_does_not_fit_is_told() {
    let census = storage();
    assert!(census.len() > 0);
    assert!(purge_estimate_fits(&census, &None, 7, Some((4_096, 0))));
    assert!(purge_estimate_fits(&census, &None, 0, Some((u64::MAX, 0))));
    assert!(purge_estimate_fits(&census, &None, 1, None));
    assert!(!purge_estimate_fits(&census, &None, 1, Some((u64::MAX, 0))));
    assert!(!purge_estimate_fits(&census, &None, u64::MAX, Some((u64::MAX - 1, 0))));
}

#[test]
fn an_index_keeps_the_checkpoint_it_names() {
    let properties = vec![text("async", "kept")];
    assert_eq!(async_checkpoint_references(&properties), vec!["kept".to_owned()]);
    let options = CompactionOptions::default()
        .with_tasks(&[])
        .with_unreferenced_checkpoint_removal();
    let mut warnings = Vec::new();
    let plan = plan_checkpoints(
        &vec![checkpoint("kept", 2_000), checkpoint("stray", 2_000)],
        &properties,
        &options,
        1_000,
        &mut warnings,
    );
    assert_eq!(plan.names, vec!["stray".to_owned()]);
    assert_eq!((plan.expired, plan.unreferenced), (0, 1));
}

#[test]
fn a_copy_shares_the_bulk_that_stays_reachable() {
    let nodes: HashMap<u32, NodeFacts> = HashMap::from([
        (
            1,
            NodeFacts {
                properties: Vec::new(),
                children: vec![
                    ChildNode {
                        name: "root".to_owned(),
                        record: record(2),
                    },
                    ChildNode {
                        name: "checkpoints".to_owned(),
                        record: record(3),
                    },
                ],
            },
        ),
        (
            2,
            NodeFacts {
                properties: vec![inline_binary(100_000, vec![bulk(1)])],
                children: Vec::new(),
            },
        ),
        (
            3,
            NodeFacts {
                properties: Vec::new(),
                children: vec![ChildNode {
                    name: "expired".to_owned(),
                    record: record(4),
                }],
            },
        ),
        (
            4,
            NodeFacts {
                properties: vec![inline_binary(100_000, vec![bulk(2)])],
                children: Vec::new(),
            },
        ),
    ]);
    for (omitted, shares_checkpoint) in [(Vec::new(), true), (vec!["expired".to_owned()], false)] {
        let mut prediction = predict_shared_bulk_segments(record(1), omitted, LIMIT);
        while let Some(wanted) = prediction.next() {
            prediction
                .supply(&nodes[&wanted.record_number])
                .expect("every list of blocks reads");
        }
        let shared = prediction.finish();
        assert!(shared.contains(bulk(1)));
        assert_eq!(shared.contains(bulk(2)), shares_checkpoint);
    }
}

fn child(name: &str, number: u32) -> ChildNode {
    ChildNode {
        name: name.to_owned(),
        record: record(number),
    }
}

fn plain(children: Vec<ChildNode>) -> NodeFacts {
    NodeFacts {
        properties: Vec::new(),
        children,
    }
}

fn long_binary(segment: SegmentIdentifier) -> NodeFacts {
    NodeFacts {
        properties: vec![inline_binary(100_000, vec![segment])],
        children: Vec::new(),
    }
}

fn shared_with(nodes: &HashMap<u32, NodeFacts>, omitted: &[&str]) -> SegmentSet {
    let omitted = omitted.iter().map(|name| (*name).to_owned()).collect();
    let mut prediction = predict_shared_bulk_segments(record(1), omitted, LIMIT);
    while let Some(wanted) = prediction.next() {
        prediction
            .supply(&nodes[&wanted.record_number])
            .expect("every list of blocks reads");
    }
    prediction.finish()
}

#[test]
fn content_named_like_a_retired_checkpoint_is_still_copied() {
    let nodes = HashMap::from([
        (1, plain(vec![child("root", 2), child("checkpoints", 3)])),
        (2, plain(vec![child("c1", 5), child("checkpoints", 6)])),
        (3, plain(vec![child("c1", 4), child("c2", 7)])),
        (4, long_binary(bulk(1))),
        (5, long_binary(bulk(2))),
        (6, plain(vec![child("c1", 8)])),
        (7, plain(vec![child("c1", 9)])),
        (8, long_binary(bulk(3))),
        (9, long_binary(bulk(4))),
    ]);
    let shared = shared_with(&nodes, &["c1"]);
    assert!(!shared.contains(bulk(1)), "the retired checkpoint itself");
    assert!(shared.contains(bulk(2)), "content of the same name");
    assert!(shared.contains(bulk(3)), "content below a node named checkpoints");
    assert!(shared.contains(bulk(4)), "content of a checkpoint that stays");
    let all = shared_with(&nodes, &[]);
    assert!(all.contains(bulk(1)));
    // A child of the head is no checkpoint, whatever its name is.
    let root_named = HashMap::from([
        (1, plain(vec![child("c1", 2)])),
        (2, long_binary(bulk(1))),
    ]);
    assert!(shared_with(&root_named, &["c1"]).contains(bulk(1)));
}

#[test]
fn a_record_that_is_both_container_and_content_is_walked_as_both() {
    let nodes = HashMap::from([
        (1, plain(vec![child("root", 2), child("checkpoints", 3)])),
        (2, plain(vec![child("copy", 3)])),
        (3, plain(vec![child("c1", 4)])),
        (4, long_binary(bulk(1))),
    ]);
    assert!(shared_with(&nodes, &["c1"]).contains(bulk(1)));
}

#[test]
fn a_list_of_blocks_that_does_not_read_fails_the_prediction() {
    let broken = |length: u64| NodeFacts {
        properties: vec![PropertyState {
            name: "jcr:data".to_owned(),
            property_type: PropertyType::Binary,
            values: PropertyValues::Single(PropertyValue::Binary(BinaryValue::Inline {
                length,
                record_identifier: record(9),
                blocks: Err(froe::error::Error::InvalidFormat {
                    details: "segment not found".to_owned(),
                }),
            })),
        }],
        children: Vec::new(),
    };
    let mut prediction = predict_shared_bulk_segments(record(1), Vec::new(), LIMIT);
    assert_eq!(prediction.next(), Some(record(1)));
    let error = prediction
        .supply(&broken(LIMIT))
        .expect_err("a long value needs its list of blocks");
    assert_eq!(error.to_text(), "invalid segment-tar data: segment not found");
    prediction
        .supply(&broken(LIMIT - 1))
        .expect("a short value has no list of blocks");
}
