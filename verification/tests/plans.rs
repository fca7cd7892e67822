//! Deciding the segment work, assembling a plan, and applying it in order.

use froe::apply::compaction_phase::{
    reclaimed_bytes, require_archive_number, require_head_generation, require_planned_head,
    require_published_head, require_removed_checkpoints, verify_gc_log_delta,
    CompactionPhaseOutcome, CopyPhase, CopyStep, HeadMutation,
};
use froe::apply::failures::{collect_deletion_failures, SegmentDeletionFailure};
use froe::apply::journal_phase::{
    journal_work, require_final_head, untouched_journal, verify_final_journal, JournalWork,
};
use froe::apply::run::ApplyRun;
use froe::apply::session::{
    archive_counts, conclude, reject_changed_directory, step_name, ApplyFindings, ApplySession,
    ApplyStage, SweepCounts,
};
use froe::apply_identity::planned_rewrites;
use froe::checkpoints::CheckpointFacts;
use froe::content::{BinaryValue, PropertyState, PropertyType, PropertyValue, PropertyValues};
use froe::error::Error;
use froe::file_removal::{FileOutcome, PlannedFileRemovals};
use froe::generations::{
    active_index_generations, segments_ahead_of_the_head, uniformly_compacted,
    validate_prospective_segment_plan, GenerationIndex, HeaderFacts, SegmentReferences,
    UnreadableRoot,
};
use froe::identifier::{
    ArchiveRewritePolicy, CompactionKind, GarbageCollectionGeneration, RecordIdentifier,
    SegmentIdentifier, SegmentSet,
};
use froe::indexless_refusal::{ArchiveFacts, ServedSegment};
use froe::journal::analysis::{
    analyze_journal_lines, AnalysisStep, JournalAnalysis, RevisionVerdicts,
};
use froe::journal::proofs::{journal_convergence_of, JournalRewriteDecision};
use froe::journal::rewrite::prepare_journal_rewrite;
use froe::journal::scan::{parse_record_identifier_text, RawJournal};
use froe::options::{CompactionOptions, MaintenanceTask, RecoveryBackupPolicy};
use froe::plan::{
    CompactionAction, CompactionOutcome, CompactionPlan, ExternalBinaryFootprint,
    FileDeletionFailure, JournalRemovalReason, OrphanedVersionHistoryReport, RetainedReclaimable, StaleArchiveReason,
};
use froe::planning::assembly::{
    build_plan, gather_plan_facts, gathered_rewrites, predicted_copy_output_bytes,
    sweep_counts_fit, GatheredPlanFacts, PlanInputs,
};
use froe::planning::content_census::PlanningContentCensus;
use froe::planning::listing::count_segments;
use froe::planning::segment_work::{SegmentPlanner, SegmentStage, SegmentWorkInputs};
use froe::planning::segments::{
    absent_archives, convergence_gate, head_reach_conclusion, head_trace_needed,
    predicted_sweep_conclusion, predicted_sweep_rule, price_history_protection, residue_sweep_rule,
    tally_sweep, trace_head_closure, SweepFigures,
};
use froe::planning::state::{RepositorySurvey, SurveyStage};
use froe::planning::{
    CheckpointPlan, DirectoryFingerprint, FileFingerprint, PlannedArchiveSweep,
    PlannedFileRemoval, RepositoryState, SegmentCompactionPlan, StaleArchive,
};
use froe::prepared::{Preparation, PrepareStep, PreparedCompaction};
use froe::reclamation::{add_estimate, compaction_target_generation, retained_reclaimable_from};
use froe::trace::extend_segment_closure;
use std::time::Duration;

const OLD: &str = "11111111-1111-4111-a111-111111111111:1";
const NEW: &str = "22222222-2222-4222-a222-222222222222:2";

fn record(text: &str) -> RecordIdentifier {
    parse_record_identifier_text(text.as_bytes()).expect("a record identifier")
}

fn generation(number: i32) -> GarbageCollectionGeneration {
    GarbageCollectionGeneration {
        generation: number,
        full_generation: number,
        is_compacted: false,
    }
}

fn data(number: u64) -> SegmentIdentifier {
    SegmentIdentifier::new(number, 0xA000_0000_0000_0000)
}

fn bulk(number: u64) -> SegmentIdentifier {
    SegmentIdentifier::new(number, 0xB000_0000_0000_0000)
}

fn set(segments: &[SegmentIdentifier]) -> SegmentSet {
    let mut all = SegmentSet::new();
    for segment in segments {
        all.insert(*segment);
    }
    all
}

fn no_checkpoints() -> CheckpointPlan {
    CheckpointPlan {
        names: Vec::new(),
        expired: 0,
        unreferenced: 0,
    }
}

fn fingerprint() -> DirectoryFingerprint {
    DirectoryFingerprint {
        entries: Vec::new(),
        device: 1,
        inode: 2,
    }
}

fn file(name: &str) -> FileFingerprint {
    FileFingerprint {
        name: name.as_bytes().to_vec(),
        kind: 1,
        length: 64,
        modified: None,
        device: 1,
        inode: 3,
        change_time_seconds: 0,
        change_time_nanoseconds: 0,
    }
}

fn analysis(raw: &RawJournal, head: RecordIdentifier, retention: Option<usize>) -> JournalAnalysis {
    let mut segments = SegmentSet::new();
    segments.insert(record(OLD).segment);
    segments.insert(record(NEW).segment);
    let mut verdicts = RevisionVerdicts::for_journal(raw, head);
    loop {
        match analyze_journal_lines(raw, &segments, &verdicts, head, retention).expect("a head") {
            AnalysisStep::NeedsVerdict(revision) => verdicts.record(raw, revision, true),
            AnalysisStep::Complete(complete) => return complete,
        }
    }
}

/// What a store answers while its segment work is planned.
struct Store {
    journal: String,
    index_available: bool,
    closure: Vec<SegmentIdentifier>,
    uniform: bool,
    residue: usize,
    history: Vec<SegmentIdentifier>,
    sweep: Vec<PlannedArchiveSweep>,
    unvetoed: (usize, u64),
    vetoed: (usize, u64),
    checkpoints: Vec<String>,
}

impl Store {
    fn new() -> Self {
        Store {
            journal: format!("{OLD} root 0\n{NEW} root 1\n"),
            index_available: true,
            closure: vec![data(1), data(2)],
            uniform: false,
            residue: 0,
            history: vec![data(1), data(2)],
            sweep: Vec::new(),
            unvetoed: (0, 0),
            vetoed: (0, 0),
            checkpoints: Vec::new(),
        }
    }

    /// The generation of the head.
    fn reference(&self) -> GarbageCollectionGeneration {
        GarbageCollectionGeneration {
            is_compacted: self.uniform,
            ..generation(2)
        }
    }

    /// The index over the head's closure, and over residue ahead of it.
    fn index(&self, closure: &SegmentSet) -> GenerationIndex {
        let reached = (0..closure.len()).map(|at| (closure.get(at), self.reference()));
        let residue = (0..self.residue).map(|at| (data(100 + at as u64), generation(3)));
        active_index_generations(&vec![ArchiveFacts {
            file_name: "data00000a.tar".to_owned(),
            archive_number: Some(0),
            recovery_reason: None,
            has_index: true,
            segments: reached
                .chain(residue)
                .map(|(identifier, stated)| ServedSegment {
                    identifier,
                    index_generation: Some(stated),
                    bytes: 100,
                })
                .collect(),
        }])
        .expect("indexed")
    }

    fn plan(mut self, options: &CompactionOptions) -> Result<CompactionPlan, Error> {
        let head = record(NEW);
        let raw = RawJournal::of_bytes(self.journal.as_bytes().to_vec());
        let journal_analysis = analysis(&raw, head, options.journal_revision_retention());
        let journal_convergence = journal_convergence_of(&raw, head);
        let expired = self.checkpoints.len();
        let checkpoints = CheckpointPlan {
            names: std::mem::take(&mut self.checkpoints),
            expired,
            unreferenced: 0,
        };
        let retained_roots: Vec<RecordIdentifier> = self
            .history
            .iter()
            .map(|segment| RecordIdentifier::new(*segment, 1))
            .collect();
        let inputs = SegmentWorkInputs {
            options,
            current_head: head,
            index_available: self.index_available,
            checkpoints: &checkpoints,
            retained_roots: &retained_roots,
            journal_convergence,
            purge_selected: false,
            retained_generations: 1,
        };
        let mut planner = SegmentPlanner::plan_segment_work(inputs);
        let mut sweep = Some(std::mem::take(&mut self.sweep));
        let mut asked = Vec::new();
        while planner.asked() != SegmentStage::Finished {
            asked.push(planner.asked());
            match planner.asked() {
                SegmentStage::StaleArchives => planner.supply_stale_archives(Vec::new()),
                SegmentStage::Reference => planner.supply_reference(self.reference()),
                SegmentStage::HeadTrace => {
                    let mut trace = planner.head_trace();
                    assert_eq!(trace.next(), Some(head.segment));
                    trace.supply(&self.closure);
                    while trace.next().is_some() {
                        trace.supply(&Vec::new());
                    }
                    let headers: Vec<Option<HeaderFacts>> = (0..trace.closure().len())
                        .map(|_| {
                            Some(HeaderFacts {
                                generation: self.reference(),
                                reclaimable: false,
                            })
                        })
                        .collect();
                    let index = self.index(trace.closure());
                    planner.supply_head_closure(trace, &headers, &index, (4_096, 1_024))?;
                }
                SegmentStage::ResidueSweep => planner.supply_residue_sweep(SegmentCompactionPlan {
                    archives: Vec::new(),
                }),
                SegmentStage::PredictedSweep => {
                    planner.supply_predicted_sweep(SegmentCompactionPlan {
                        archives: sweep.take().unwrap_or_default(),
                    })
                }
                SegmentStage::HistoryTrace => {
                    let mut trace = planner.history_trace();
                    while trace.next().is_some() {
                        trace.supply(&Vec::new());
                    }
                    planner.supply_history_closure(trace);
                }
                SegmentStage::Sweep => planner.supply_sweep(SegmentCompactionPlan {
                    archives: sweep.take().unwrap_or_default(),
                }),
                SegmentStage::Pricing => planner.supply_prices(self.unvetoed, self.vetoed),
                SegmentStage::Validation => planner.supply_validation(
                    &SegmentSet::new(),
                    &SegmentSet::new(),
                    &None,
                    &Vec::new(),
                )?,
                SegmentStage::Finished => unreachable!(),
            }
        }
        let segment_work = planner.finish();
        build_plan(
            GatheredPlanFacts {
                directory: "/store".to_owned(),
                current_head: head,
                head_nodes: 7,
                state: RepositoryState {
                    raw_journal: raw,
                    journal_analysis,
                    pending_repairs: Vec::new(),
                    index_available: self.index_available,
                    checkpoints,
                    checkpoint_archive_number: None,
                },
                segment_work,
                temporaries: Vec::new(),
                recovery_backups: Vec::new(),
                manifest_upgrade: false,
                orphaned_version_histories: OrphanedVersionHistoryReport {
                    orphaned_histories: 0,
                    orphaned_nodes: 0,
                    inline_binary_bytes: 0,
                    external_references: 0,
                    released_bulk_segments: 0,
                    released_bulk_bytes: 0,
                    node_record_bytes_estimate: 0,
                    malformed_identifiers: 0,
                    retained_checkpoints: 0,
                },
                version_history_purge: None,
                external_binary_footprint: ExternalBinaryFootprint {
                    distinct_references: 0,
                    measured_bytes: 0,
                    unmeasured_references: 0,
                },
                available_filesystem_bytes: None,
                fingerprint_before: fingerprint(),
                fingerprint_after: fingerprint(),
                identity_preview: Ok(None),
            },
            options,
            Vec::new(),
        )
    }
}

fn segments_only() -> CompactionOptions {
    CompactionOptions::default().with_tasks(&[MaintenanceTask::Segments])
}

fn remove(name: &str, segments: usize, bytes: u64) -> PlannedArchiveSweep {
    PlannedArchiveSweep::Remove {
        file_name: name.to_owned(),
        segment_count: segments,
        file_bytes: bytes,
    }
}

fn removes(plan: &CompactionPlan, name: &str) -> bool {
    plan.actions().iter().any(|action| {
        matches!(
            action,
            CompactionAction::RemoveReclaimableArchive { file_name, .. } if file_name == name
        )
    })
}

fn swept_segments(plan: &CompactionPlan) -> usize {
    plan.actions()
        .iter()
        .filter_map(|action| match action {
            CompactionAction::RemoveReclaimableArchive { segments, .. }
            | CompactionAction::RewriteArchive { segments, .. } => Some(*segments),
            _ => None,
        })
        .sum()
}

fn details(error: Error) -> String {
    match error {
        Error::InvalidFormat { details } => details,
        Error::InputOutput { details } => panic!("unexpected variant: {details}"),
    }
}

#[test]
fn prospective_plan_refuses_a_survivor_that_references_a_planned_removal() {
    let survivor = data(5);
    let target = data(6);
    let error = validate_prospective_segment_plan(
        &set(&[target]),
        &set(&[target]),
        &None,
        &vec![SegmentReferences {
            identifier: survivor,
            referenced: vec![target],
        }],
    )
    .expect_err("prospective deletion must reject a surviving cross-reference");
    let mut survivor_text = String::new();
    survivor.push_text(&mut survivor_text);
    let mut target_text = String::new();
    target.push_text(&mut target_text);
    assert_eq!(
        error.to_text(),
        format!(
            "invalid segment-tar data: surviving data segment {survivor_text} references segment {target_text}, which the cleanup plan would remove"
        )
    );
}

#[test]
fn a_dead_survivor_pointing_at_a_removed_segment_is_handled() {
    let dead_survivor = data(5);
    let target = data(6);
    validate_prospective_segment_plan(
        &set(&[target]),
        &set(&[target, dead_survivor]),
        &None,
        &vec![SegmentReferences {
            identifier: dead_survivor,
            referenced: vec![target],
        }],
    )
    .expect("a dead survivor pointing at removed garbage must not refuse the plan");
    let mut store = Store::new();
    store.sweep = vec![remove("data00001a.tar", 1, 4_096)];
    let plan = store.plan(&segments_only()).expect("a plan");
    assert!(
        swept_segments(&plan) != 0,
        "the fixture must actually remove something, or it proves nothing"
    );
}

#[test]
fn a_root_that_a_sweep_would_break_is_refused() {
    let refused = validate_prospective_segment_plan(
        &set(&[data(6)]),
        &set(&[data(6)]),
        &Some(UnreadableRoot {
            root: record(OLD),
            error: "missing".to_owned(),
        }),
        &Vec::new(),
    )
    .expect_err("an unreadable root");
    assert_eq!(
        details(refused),
        format!("segment cleanup would make retained journal root {OLD} unreadable: missing")
    );
}

#[test]
fn current_head_reaching_a_one_generation_old_segment_fails_closed() {
    let mut index = GenerationIndex::new();
    index.insert(data(1), generation(1));
    let error = trace_head_closure(
        set(&[data(1)]),
        &vec![Some(HeaderFacts {
            generation: generation(1),
            reclaimable: true,
        })],
        &index,
        generation(2),
        (0, 0),
    )
    .expect_err("a live one-generation-old child is unsafe at one retained generation");
    assert!(error.to_text().contains("current head reaches data segment"));
}

#[test]
fn checkpoint_only_cleanup_rejects_current_index_generation_mismatch() {
    let mut index = GenerationIndex::new();
    index.insert(data(1), generation(3));
    let error = trace_head_closure(
        set(&[data(1)]),
        &vec![Some(HeaderFacts {
            generation: generation(2),
            reclaimable: false,
        })],
        &index,
        generation(2),
        (0, 0),
    )
    .expect_err("checkpoint head update must reject corrupt index generation");
    assert!(error.to_text().contains("index generation"));
}

#[test]
fn gate_deferred_garbage_is_counted_rather_than_reported_as_nothing() {
    let mut store = Store::new();
    store.sweep = vec![PlannedArchiveSweep::DeferredBySavings {
        file_name: "data00001a.tar".to_owned(),
        segment_count: 1,
        eligible_entry_bytes: 512,
        eligible_size: "512 B".to_owned(),
    }];
    let options = segments_only().with_oak_savings_gate();
    let plan = store.plan(&options).expect("segment plan");
    assert_eq!(plan.current_head(), record(NEW));
    let deferred = plan
        .warnings()
        .iter()
        .any(|warning| warning.contains("25% rewrite gate"));
    assert!(
        deferred,
        "expected a savings deferral: {:?}",
        plan.warnings()
    );
    assert!(
        plan.retained_reclaimable_segments() != 0,
        "declined garbage must be counted, not silently dropped"
    );
    assert!(plan.retained_reclaimable_bytes() != 0);
    // The distinction the old output could not express: nothing is
    // reclaimable *by this run*, yet the store is not clean.
    assert_eq!(plan.estimated_reclaimable_bytes(), 0);
}

#[test]
fn the_default_policy_reclaims_what_the_oak_gate_declines() {
    let mut store = Store::new();
    store.sweep = vec![PlannedArchiveSweep::Rewrite {
        file_name: "data00001a.tar".to_owned(),
        replacement_name: "data00001b.tar".to_owned(),
        segment_count: 1,
        eligible_entry_bytes: 512,
        source_file_bytes: 4_096,
    }];
    let options = segments_only();
    assert_eq!(
        options.archive_rewrite_policy(),
        ArchiveRewritePolicy::EveryReclaimableArchive
    );
    let plan = store.plan(&options).expect("segment plan");
    assert_eq!(plan.current_head(), record(NEW));
    assert!(
        !plan
            .warnings()
            .iter()
            .any(|warning| warning.contains("rewrite gate")),
        "the default policy never defers for savings: {:?}",
        plan.warnings()
    );
    assert_eq!(
        plan.retained_reclaimable_segments(),
        0,
        "nothing identified may be left behind on an archive with letters to spare"
    );
    assert_eq!(plan.retained_reclaimable_bytes(), 0);
    assert!(
        plan.estimated_reclaimable_bytes() != 0,
        "the garbage the savings bound declined is now actually reclaimed"
    );
    assert!(
        plan.actions().iter().any(|action| matches!(
            action,
            CompactionAction::RewriteArchive { file_name, replacement_name, .. }
                if file_name == "data00001a.tar" && replacement_name == "data00001b.tar"
        )),
        "the sub-gate archive is rewritten to its next generation: {:?}",
        plan.actions()
    );
}

#[test]
fn the_plan_prices_the_history_veto_against_oaks_own_predicate() {
    let mut store = Store::new();
    store.history = vec![data(1), data(2), data(7), data(8)];
    store.unvetoed = (2, 8_192);
    let plan = store.plan(&segments_only()).expect("segment plan");
    assert!(
        plan.history_protected_segments() != 0,
        "the bootstrap revision must be counted as history-only"
    );
    let (reclaimable_segments, reclaimable_bytes) = plan.history_protected_reclaimable();
    assert!(
        reclaimable_segments != 0,
        "generation-zero history must be priced as reclaimable-but-protected"
    );
    assert!(reclaimable_bytes != 0);
    assert!(reclaimable_segments <= plan.history_protected_segments());
    assert_eq!((reclaimable_segments, reclaimable_bytes), (2, 8_192));
}

#[test]
fn the_history_price_counts_the_bulk_segments_held_behind_the_data_ones() {
    // The veto holds bulk segments only indirectly, so the price is the
    // difference of two whole sweeps, not a sum over protected data segments.
    let with_bulk = (9, 1_310_720);
    let vetoed = (0, 0);
    let priced = price_history_protection(1, with_bulk, vetoed);
    let freed = with_bulk.1 - vetoed.1;
    assert!(
        freed > 1024 * 1024,
        "retiring the history must free the binary content: {freed}"
    );
    assert_eq!(
        priced.would_be_reclaimable_bytes, freed,
        "the quoted price must be what retiring the history delivers"
    );
    assert_eq!(priced.would_be_reclaimable_segments, 9);
}

#[test]
fn segment_cleanup_removes_old_unjournaled_archive_but_preserves_history() {
    let mut store = Store::new();
    store.history = vec![data(1), data(2), data(7)];
    store.sweep = vec![remove("data00001a.tar", 1, 4_096)];
    let plan = store.plan(&segments_only()).expect("segment plan");
    assert!(removes(&plan, "data00001a.tar"));
    assert!(!removes(&plan, "data00000a.tar"));
    let planned_removed_segments = swept_segments(&plan);
    assert!(planned_removed_segments != 0);
    assert!(
        plan.protected_history_segments.contains(data(7)),
        "the historical root's data survives"
    );
    let counts = archive_counts(
        &None,
        SweepCounts {
            rewritten_archives: 0,
            removed_archives: 1,
            removed_segments: planned_removed_segments,
        },
    );
    assert_eq!(counts.removed_segments, planned_removed_segments);
}

#[test]
fn non_journal_task_hides_internal_journal_removal_candidates() {
    let mut store = Store::new();
    store.journal.push_str("parser-skipped\n");
    let plan = store.plan(&segments_only()).expect("segment-only plan");

    assert_eq!(plan.tasks(), &[MaintenanceTask::Segments]);
    assert!(plan.journal_line_removals().is_empty());
    assert!(!plan
        .actions()
        .iter()
        .any(|action| matches!(action, CompactionAction::PruneJournal { .. })));
}

#[test]
fn the_journal_task_lists_what_it_prunes() {
    let mut store = Store::new();
    store.journal.push_str("parser-skipped\n");
    let options = CompactionOptions::default().with_tasks(&[MaintenanceTask::Journal]);
    let plan = store.plan(&options).expect("journal plan");
    assert_eq!(plan.journal_line_removals().len(), 1);
    assert_eq!(
        plan.journal_line_removals()[0].reason(),
        JournalRemovalReason::ParserSkippedNoSpace
    );
    assert!(plan.actions().iter().any(|action| matches!(
        action,
        CompactionAction::PruneJournal {
            lines: 1,
            parser_ignored: 1,
            missing_segments: 0,
            unreadable_revisions: 0,
            beyond_retention: 0,
        }
    )));
}

#[test]
fn a_store_with_nothing_to_do_gets_an_empty_plan() {
    let plan = Store::new().plan(&segments_only()).expect("a plan");
    assert!(plan.is_empty());
    assert!(plan.warnings().is_empty());
    assert_eq!(plan.directory(), "/store");
}

#[test]
fn an_unselected_task_reports_no_step_of_its_own() {
    // recovery-backups is not among the defaults, so announcing its removal
    // step told the operator froe had considered backups it was never asked
    // to touch.
    let options = CompactionOptions::default()
        .with_tasks(&[
            MaintenanceTask::Segments,
            MaintenanceTask::Journal,
            MaintenanceTask::StaleTemporaries,
        ])
        .with_journal_revision_retention(1);
    let plan = Store::new().plan(&options).expect("bounded plan");
    let mut session = ApplySession::apply_prepared(&plan, &options);
    let mut names: Vec<&str> = Vec::new();
    while session.due() != ApplyStage::Finished {
        if let Some(name) = step_name(session.due()) {
            names.push(name);
        }
        session.done();
    }
    for unselected in ["removing old recovery backups", "removing stale archives"] {
        assert!(
            !names.iter().any(|name| *name == unselected),
            "unselected task reported {unselected:?}: {names:?}"
        );
    }
    assert!(
        names
            .iter()
            .any(|name| *name == "removing stale temporary files"),
        "a selected task still reports its step: {names:?}"
    );
}

fn stages(plan: &CompactionPlan, options: &CompactionOptions) -> Vec<ApplyStage> {
    let mut session = ApplySession::apply_prepared(plan, options);
    let mut taken = Vec::new();
    while session.due() != ApplyStage::Finished {
        taken.push(session.due());
        session.done();
    }
    taken
}

#[test]
fn recovery_material_goes_only_after_the_store_was_proved() {
    let options = CompactionOptions::default()
        .with_tasks(&[MaintenanceTask::StaleTemporaries, MaintenanceTask::StaleArchives])
        .with_recovery_backup_policy(RecoveryBackupPolicy::new(Duration::ZERO, 1));
    let plan = Store::new().plan(&options).expect("a plan");
    let taken = stages(&plan, &options);
    let position = |stage: ApplyStage| {
        taken
            .iter()
            .position(|taken| *taken == stage)
            .expect("the stage takes place")
    };
    assert_eq!(position(ApplyStage::CheckDirectory), 0);
    assert!(position(ApplyStage::VerifyStore) < position(ApplyStage::RemoveTemporaries));
    assert!(position(ApplyStage::VerifyStore) < position(ApplyStage::RemoveRecoveryBackups));
    assert!(position(ApplyStage::RemoveStaleArchives) < position(ApplyStage::RewriteJournal));
}

#[test]
fn a_copy_takes_the_place_of_the_standalone_sweep() {
    let options = segments_only().with_compaction(CompactionKind::Full);
    let mut store = Store::new();
    store.sweep = vec![remove("data00000a.tar", 2, 8_192)];
    let plan = store.plan(&options).expect("a copy");
    assert!(plan.segment_plan.is_none());
    assert_eq!(plan.effective_compaction_kind, Some(CompactionKind::Full));
    assert_eq!(plan.predicted_copy_output_bytes, Some(4_096));
    assert!(plan.actions().iter().any(|action| matches!(
        action,
        CompactionAction::CopyHeadIntoFreshGeneration {
            head_nodes: 7,
            kind: CompactionKind::Full,
            ..
        }
    )));
    let taken = stages(&plan, &options);
    assert!(taken.contains(&ApplyStage::CopyHead));
    assert!(!taken.contains(&ApplyStage::RemoveCheckpoints));
}

#[test]
fn a_converged_store_is_swept_instead_of_copied() {
    let options = segments_only().with_compaction(CompactionKind::Full);
    let mut store = Store::new();
    store.journal = format!("{NEW} root 1\n");
    store.uniform = true;
    store.sweep = vec![remove("data00000a.tar", 2, 8_192)];
    let plan = store.plan(&options).expect("a sweep");
    assert!(plan.already_fully_compacted);
    assert_eq!(plan.effective_compaction_kind, None);
    assert!(removes(&plan, "data00000a.tar"));
    let mut again = Store::new();
    again.journal = format!("{NEW} root 1\n");
    again.uniform = true;
    let forced = again.plan(&options.always_copying()).expect("a copy");
    assert_eq!(forced.effective_compaction_kind, Some(CompactionKind::Full));
    assert!(forced.already_fully_compacted);
}

#[test]
fn a_checkpoint_to_omit_forces_the_copy() {
    let options = segments_only()
        .with_task(MaintenanceTask::ExpiredCheckpoints)
        .with_compaction(CompactionKind::Tail);
    let omitted = CheckpointPlan {
        names: vec!["expired".to_owned()],
        expired: 1,
        unreferenced: 0,
    };
    let converged =
        journal_convergence_of(&RawJournal::of_bytes(format!("{NEW} a").into_bytes()), record(NEW));
    assert!(converged.single_line_naming_head);
    assert_eq!(
        convergence_gate(&options, true, &omitted, converged, false),
        (Some(CompactionKind::Tail), false)
    );
    assert_eq!(
        convergence_gate(&options, true, &no_checkpoints(), converged, true),
        (Some(CompactionKind::Tail), false)
    );
    assert_eq!(
        convergence_gate(&options, true, &no_checkpoints(), converged, false),
        (None, true)
    );
}

#[test]
fn a_store_without_its_index_is_not_swept() {
    let mut store = Store::new();
    store.index_available = false;
    store.sweep = vec![remove("data00000a.tar", 2, 8_192)];
    let plan = store.plan(&segments_only()).expect("a plan");
    assert!(plan.segment_plan.is_none());
    assert!(plan.is_empty());
    assert!(!head_trace_needed(false, &segments_only(), &no_checkpoints()));
}

#[test]
fn a_directory_that_changed_refuses_the_run() {
    let mut changed = fingerprint();
    changed.entries.push(file("journal.log"));
    assert!(reject_changed_directory(&fingerprint(), &fingerprint()).is_ok());
    assert!(reject_changed_directory(&fingerprint(), &changed).is_err());
}

#[test]
fn sweep_rules_follow_the_reference_generation() {
    let reference = GarbageCollectionGeneration {
        generation: 4,
        full_generation: 2,
        is_compacted: true,
    };
    assert_eq!(
        compaction_target_generation(reference, CompactionKind::Full),
        GarbageCollectionGeneration {
            generation: 5,
            full_generation: 3,
            is_compacted: true,
        }
    );
    assert_eq!(
        compaction_target_generation(reference, CompactionKind::Tail),
        GarbageCollectionGeneration {
            generation: 5,
            full_generation: 2,
            is_compacted: true,
        }
    );
    let residue = residue_sweep_rule(true, 3, reference).expect("residue");
    assert_eq!(residue.reference, reference);
    assert_eq!(residue.retained_generations, i32::MAX);
    assert!(residue_sweep_rule(true, 0, reference).is_none());
    let predicted =
        predicted_sweep_rule(Some(CompactionKind::Tail), true, reference, 1).expect("a copy");
    assert_eq!(predicted.reference.generation, 5);
    assert_eq!(predicted.kind, CompactionKind::Tail);
    assert!(predicted_sweep_rule(None, true, reference, 1).is_none());
}

#[test]
fn segments_ahead_of_the_head_are_residue() {
    let ahead = GarbageCollectionGeneration {
        generation: 3,
        full_generation: 3,
        is_compacted: true,
    };
    let archives = vec![ArchiveFacts {
        file_name: "data00000a.tar".to_owned(),
        archive_number: Some(0),
        recovery_reason: None,
        has_index: true,
        segments: vec![
            ServedSegment {
                identifier: data(1),
                index_generation: Some(generation(2)),
                bytes: 100,
            },
            ServedSegment {
                identifier: data(2),
                index_generation: Some(ahead),
                bytes: 100,
            },
        ],
    }];
    let index = active_index_generations(&archives).expect("indexed");
    assert_eq!(index.len(), 2);
    assert_eq!(segments_ahead_of_the_head(&index, generation(2)), 1);
    assert!(!uniformly_compacted(&set(&[data(1)]), &index, generation(2)));
    assert!(uniformly_compacted(&set(&[data(2)]), &index, ahead));
}

#[test]
fn a_trace_reaches_every_referenced_segment_once() {
    let mut trace = extend_segment_closure(SegmentSet::new(), &vec![data(1)]);
    let mut asked = Vec::new();
    while let Some(segment) = trace.next() {
        asked.push(segment);
        let referenced = match segment.most_significant {
            1 => vec![data(2), bulk(9)],
            2 => vec![data(1), bulk(9)],
            _ => Vec::new(),
        };
        trace.supply(&referenced);
    }
    let closure = trace.finish();
    for segment in [data(1), data(2), bulk(9)] {
        assert!(closure.contains(segment));
        assert!(asked.iter().filter(|other| **other == segment).count() <= 1);
    }
    assert_eq!(closure.len(), 3);
}

#[test]
fn sweeps_are_summed_up_in_words() {
    let plan = SegmentCompactionPlan {
        archives: vec![
            remove("data00000a.tar", 2, 100),
            PlannedArchiveSweep::Rewrite {
                file_name: "data00001a.tar".to_owned(),
                replacement_name: "data00001b.tar".to_owned(),
                segment_count: 1,
                eligible_entry_bytes: 30,
                source_file_bytes: 60,
            },
        ],
    };
    let tally = tally_sweep(&plan);
    assert_eq!((tally.removed_archives, tally.removed_bytes), (1, 100));
    assert_eq!((tally.rewritten_archives, tally.rewritten_entry_bytes), (1, 30));
    let conclusion = predicted_sweep_conclusion(
        tally,
        &SweepFigures {
            removed_count: "1",
            removed_size: "100 B",
            rewritten_count: "1",
            rewritten_size: "30 B",
        },
    );
    assert!(conclusion.contains("100 B"), "{conclusion}");
    assert!(conclusion.contains("30 B"), "{conclusion}");
    assert_eq!(
        head_reach_conclusion(0, "4 KiB", "0 B"),
        "the head reaches 4 KiB of node data"
    );
    assert_eq!(
        head_reach_conclusion(1, "4 KiB", "1 KiB"),
        "the head reaches 4 KiB of node data and 1 KiB of shared binary blocks"
    );
    assert_eq!(
        absent_archives(&vec![StaleArchive {
            file_name: "data00003a.tar".to_owned(),
            reason: StaleArchiveReason::Superseded,
            bytes: 64,
            fingerprint: file("data00003a.tar"),
        }]),
        vec!["data00003a.tar".to_owned()]
    );
}

#[test]
fn a_copy_writes_at_most_the_data_it_reaches() {
    assert_eq!(
        predicted_copy_output_bytes(Some(CompactionKind::Full), Some((100, 7)), false, 30),
        Some(100)
    );
    assert_eq!(
        predicted_copy_output_bytes(Some(CompactionKind::Full), Some((100, 7)), true, 30),
        Some(70)
    );
    assert_eq!(
        predicted_copy_output_bytes(Some(CompactionKind::Full), Some((100, 7)), true, 300),
        Some(0)
    );
    assert_eq!(predicted_copy_output_bytes(None, Some((100, 7)), false, 0), None);
}

#[test]
fn declined_garbage_is_named_with_its_reason() {
    let mut retained = RetainedReclaimable::default();
    let mut warnings = Vec::new();
    retained_reclaimable_from(
        &PlannedArchiveSweep::BlockedByOccupiedGeneration {
            file_name: "data00001a.tar".to_owned(),
            occupied_name: "data00001b.tar".to_owned(),
            segment_count: 3,
            eligible_entry_bytes: 700,
            eligible_size: "700 B".to_owned(),
        },
        &mut retained,
        &mut warnings,
    )
    .expect("counted");
    assert_eq!(retained.blocked_by_occupied_generation, 3);
    assert_eq!(retained.segments(), 3);
    assert_eq!(retained.bytes, 700);
    assert_eq!(
        warnings,
        vec!["data00001a.tar: 3 reclaimable segments (700 B) retained because data00001b.tar already exists".to_owned()]
    );
    let mut total = u64::MAX;
    assert!(add_estimate(&mut total, 1).is_err());
    let mut small = 1;
    add_estimate(&mut small, 2).expect("it fits");
    assert_eq!(small, 3);
}

#[test]
fn a_prepare_calls_every_open_protocol_gate() {
    let mut preparation = Preparation::prepare();
    let mut gates = Vec::new();
    while let Some(step) = preparation.next() {
        gates.push(step);
        preparation.done();
    }
    for expected in [
        PrepareStep::ValidateShape,
        PrepareStep::ValidateEnvironment,
        PrepareStep::ValidateIdentity,
    ] {
        assert!(
            gates.contains(&expected),
            "{expected:?} was not called during prepare: {gates:?}"
        );
    }
    // Before *and* again after the lock: a check that ran only before it
    // proves nothing about the state the apply will act on.
    for repeated in [PrepareStep::ValidateEnvironment, PrepareStep::ValidateIdentity] {
        assert!(
            gates.iter().filter(|gate| **gate == repeated).count() >= 2,
            "{repeated:?} must run before and again after the lock: {gates:?}"
        );
    }
    // Every check acts on the resolved directory.
    assert_eq!(
        gates.iter().position(|gate| *gate == PrepareStep::ResolveDirectory),
        Some(1)
    );
}

#[test]
fn a_preview_takes_no_lock() {
    let mut preview = Preparation::preview();
    while let Some(step) = preview.next() {
        assert_ne!(step, PrepareStep::AcquireLock);
        assert_ne!(step, PrepareStep::Repair);
        preview.done();
    }
    assert!(!preview.repairs_are_durable());
}

#[test]
fn a_copy_publishes_before_it_reclaims() {
    let head = record(OLD);
    let new_head = record(NEW);
    let mut phase = CopyPhase::apply_compaction_phase(head, Some(4), CompactionKind::Full, 1)
        .expect("a certified archive number");
    assert_eq!(phase.archive_number(), 4);
    let mut taken = Vec::new();
    while let Some(step) = phase.next() {
        taken.push(step);
        match step {
            CopyStep::Open => phase.opened(head, Some(generation(2))).expect("the planned head"),
            CopyStep::PreflightSources => phase.preflighted(),
            CopyStep::Copy => {
                assert_eq!(phase.target_generation().generation, 3);
                assert!(phase.target_generation().is_compacted);
                phase.copied(1_000, new_head, 7);
            }
            CopyStep::PublishHead => phase.published(true).expect("the head stood still"),
            CopyStep::Flush => phase.flushed(),
            CopyStep::Reclaim => {
                let rule = phase.sweep_rule();
                assert_eq!(rule.reference, phase.target_generation());
                assert_eq!(rule.retained_generations, 1);
                phase.reclaimed(cycle("").sweep);
            }
            CopyStep::Close => phase.store_closed(),
            CopyStep::SyncArchives => phase.archives_synced(400),
            CopyStep::RecordCycle => {
                let cycle = phase.cycle_record();
                assert_eq!((cycle.archive_bytes, cycle.reclaimed_bytes), (400, 600));
                assert_eq!((cycle.nodes, cycle.head), (7, new_head));
                phase.recorded("cycle\n".to_owned());
            }
            CopyStep::SyncLog => phase.log_synced(),
        }
    }
    let position = |step: CopyStep| taken.iter().position(|taken| *taken == step);
    assert!(position(CopyStep::PublishHead) < position(CopyStep::Flush));
    assert!(position(CopyStep::Flush) < position(CopyStep::Reclaim));
    assert!(position(CopyStep::SyncArchives) < position(CopyStep::RecordCycle));
    let outcome = phase.finish();
    assert_eq!(outcome.head_after, new_head);
    assert_eq!(outcome.copied_nodes, 7);
    assert_eq!(outcome.sweep, cycle("").sweep);
    assert_eq!(outcome.garbage_collection_entry, "cycle\n");
}

#[test]
fn a_copy_stops_where_the_store_is_not_as_planned() {
    assert_eq!(
        details(
            CopyPhase::apply_compaction_phase(record(OLD), None, CompactionKind::Full, 1)
                .expect_err("no number")
        ),
        "the compaction phase has no certified output archive number"
    );
    let begin = || {
        CopyPhase::apply_compaction_phase(record(OLD), Some(4), CompactionKind::Full, 1)
            .expect("a number")
    };
    let mut other = begin();
    assert_eq!(
        details(other.opened(record(NEW), Some(generation(2))).expect_err("another head")),
        format!("the compaction phase expected head {OLD}, but strict writable open selected {NEW}")
    );
    assert_eq!(other.next(), Some(CopyStep::Open));
    let mut unstated = begin();
    assert_eq!(
        details(unstated.opened(record(OLD), None).expect_err("no generation")),
        "the head segment 11111111-1111-4111-a111-111111111111 carries no generation triple"
    );
    let mut moved = begin();
    moved.opened(record(OLD), Some(generation(2))).expect("the head");
    moved.preflighted();
    moved.copied(0, record(NEW), 1);
    assert_eq!(
        details(moved.published(false).expect_err("the head moved")),
        "the head moved during the compaction phase"
    );
    assert_eq!(moved.next(), Some(CopyStep::PublishHead));
}

/// Applies a plan to a store that answers as planned.
fn applied(prepared: &PreparedCompaction, head_after: RecordIdentifier, journal: &str) -> ApplyEnd {
    let mut run = prepared.apply(1);
    let mut stages = Vec::new();
    let mut lock_proofs = 0;
    while run.due() != ApplyStage::Finished {
        stages.push(run.due());
        if run.proves_lock() {
            lock_proofs += 1;
        }
        match run.due() {
            ApplyStage::CheckDirectory => run.check_directory(&fingerprint()).expect("unchanged"),
            ApplyStage::ReadCycleLog => run.take_cycle_log(Some(b"first\n".to_vec())),
            ApplyStage::MeasureArchives => run.take_archive_bytes(1_000),
            ApplyStage::CertifySources => run.sources_certified(),
            ApplyStage::UpgradeManifest => run.manifest_upgraded(),
            ApplyStage::SweepSegments => {
                assert_eq!(run.sweep_rule().retained_generations, 1);
                run.take_sweep(
                    SweepCounts {
                        rewritten_archives: 0,
                        removed_archives: 1,
                        removed_segments: 2,
                    },
                    Vec::new(),
                );
            }
            ApplyStage::ProveArchiveLock => run.archive_lock_proved(),
            ApplyStage::RemoveStaleArchives => run.take_stale_archives(removed(run.removals())),
            ApplyStage::SweepResidue => {
                assert_eq!(run.sweep_rule().retained_generations, i32::MAX);
                run.residue_swept();
            }
            ApplyStage::CopyHead => {
                let mut copy = cycle("second\n");
                copy.head_after = head_after;
                copy.target_generation = run.copy_target().expect("a planned copy");
                run.take_copy(copy);
            }
            ApplyStage::RemoveCheckpoints => {
                let before = run.due();
                assert!(run.take_checkpoint_removal(9, head_after).is_err());
                assert_eq!(run.due(), before, "a refusal leaves the run where it stands");
                run.take_checkpoint_removal(1, head_after).expect("the planned number");
            }
            ApplyStage::RewriteJournal => rewrite_journal(&mut run, journal),
            ApplyStage::VerifyCycleLog => {
                let log = if run.compacted_head().is_some() {
                    b"first\nsecond\n".to_vec()
                } else {
                    b"first\n".to_vec()
                };
                assert!(run.verify_cycle_log(&None).is_err());
                run.verify_cycle_log(&Some(log)).expect("exactly the cycle's line");
            }
            ApplyStage::VerifyStore => {
                let raw = RawJournal::of_bytes(journal.as_bytes().to_vec());
                let fresh = analysis(&raw, record(NEW), None);
                run.verify_store(head_after, &raw, &fresh).expect("the expected store");
            }
            ApplyStage::ProveRecoveryLock => run.recovery_lock_proved(),
            ApplyStage::RemoveTemporaries => {
                assert!(run.removals().current().is_none());
                run.take_temporaries(run.removals());
            }
            ApplyStage::RemoveRecoveryBackups => run.take_recovery_backups(removed(run.removals())),
            ApplyStage::SyncDirectory => run.directory_synced(),
            ApplyStage::MeasureResult => run.take_result(600, 5),
            ApplyStage::Finished => unreachable!(),
        }
    }
    ApplyEnd {
        stages,
        lock_proofs,
        outcome: run.finish(),
    }
}

#[test]
fn a_second_run_with_the_same_options_has_nothing_to_do() {
    let options = || CompactionOptions::default().with_compaction(CompactionKind::Full);
    let mut store = Store::new();
    store.checkpoints = vec!["expired".to_owned()];
    store.sweep = vec![remove("data00001a.tar", 2, 400)];
    let ready = prepared(store, options(), &[]);
    assert!(!ready.plan().is_empty());
    let left = format!("{NEW} root 1\n");
    let end = applied(&ready, record(NEW), &left);
    assert!(end.outcome.compacted.is_some());
    let mut store = Store::new();
    store.journal = left.clone();
    store.uniform = true;
    let again = prepared(store, options(), &[]);
    assert!(again.plan().is_empty());
    let end = applied_nothing(&again, &left);
    assert_eq!(end.head_before, end.head_after);
    assert_eq!(end.removed_checkpoints, 0);
    assert_eq!(end.removed_journal_lines, 0);
    assert!(end.journal_backup_path().is_none());
    assert!(end.compacted.is_none());
    let mut store = Store::new();
    store.journal = left;
    store.uniform = true;
    let forced = prepared(store, options().always_copying(), &[]);
    assert!(!forced.plan().is_empty(), "a forced copy is a copy");
}

/// Removes files that are all gone already.
fn removed(mut removals: PlannedFileRemovals) -> PlannedFileRemovals {
    while removals.current().is_some() {
        removals.opened(FileOutcome::NotFound).expect("absence is no failure");
    }
    removals
}

/// Decides over a journal and does what was decided.
fn rewrite_journal(run: &mut ApplyRun<'_>, journal: &str) {
    let raw = RawJournal::of_bytes(journal.as_bytes().to_vec());
    let decision = match run.journal_work() {
        JournalWork::RetireHistory { .. } => run.retire_journal(&raw),
        JournalWork::Prune => run.prune_journal(&raw, analysis(&raw, record(NEW), None)),
        JournalWork::Leave => {
            run.take_journal(untouched_journal());
            return;
        }
    }
    .expect("every root and line is there");
    let outcome = match &decision {
        JournalRewriteDecision::Unchanged(outcome) => outcome.clone(),
        JournalRewriteDecision::Rewrite { retained_indexes } => {
            let prepared = prepare_journal_rewrite(&raw, retained_indexes).expect("lines that stay");
            prepared.installed("/store/journal.log.bak.000".to_owned())
        }
    };
    assert!(outcome.agrees());
    assert!(decision.came_to(&outcome, raw.lines().len()));
    assert!(!decision.came_to(&outcome, raw.lines().len() + 1) || !outcome.changed);
    run.take_journal(outcome);
}

#[test]
fn a_copy_retires_the_journal_into_a_backup() {
    let ready = prepared(
        Store::new(),
        segments_only().with_compaction(CompactionKind::Full),
        &[],
    );
    let mut run = ready.apply(1);
    while run.due() != ApplyStage::RewriteJournal {
        match run.due() {
            ApplyStage::CheckDirectory => run.check_directory(&fingerprint()).expect("unchanged"),
            ApplyStage::ReadCycleLog => run.take_cycle_log(None),
            ApplyStage::MeasureArchives => run.take_archive_bytes(1_000),
            ApplyStage::ProveArchiveLock => run.archive_lock_proved(),
            ApplyStage::CopyHead => {
                let mut copy = cycle("second\n");
                copy.head_after = record(NEW);
                copy.target_generation = run.copy_target().expect("a planned copy");
                run.take_copy(copy);
            }
            other => panic!("nothing calls for {other:?}"),
        }
    }
    let twice = RawJournal::of_bytes(format!("{NEW} root 0\n{NEW} root 1\n").into_bytes());
    assert!(run.retire_journal(&twice).is_err());
    assert_eq!(run.due(), ApplyStage::RewriteJournal);
    rewrite_journal(&mut run, &format!("{OLD} root 0\n{NEW} root 1\n"));
    run.verify_cycle_log(&Some(b"second\n".to_vec())).expect("the cycle's line");
    let left = RawJournal::of_bytes(format!("{NEW} root 1\n").into_bytes());
    let fresh = analysis(&left, record(NEW), None);
    run.verify_store(record(NEW), &left, &fresh).expect("the expected store");
    run.recovery_lock_proved();
    run.directory_synced();
    run.take_result(600, 0);
    let outcome = run.finish();
    assert_eq!(outcome.removed_journal_lines, 1);
    assert_eq!(outcome.journal_backup_path(), Some("/store/journal.log.bak.000"));
}

#[test]
fn a_head_that_its_own_rule_would_break_is_refused() {
    let options = segments_only();
    let checkpoints = no_checkpoints();
    let roots = Vec::new();
    let raw = RawJournal::of_bytes(format!("{NEW} root 1\n").into_bytes());
    let mut planner = SegmentPlanner::plan_segment_work(SegmentWorkInputs {
        options: &options,
        current_head: record(NEW),
        index_available: true,
        checkpoints: &checkpoints,
        retained_roots: &roots,
        journal_convergence: journal_convergence_of(&raw, record(NEW)),
        purge_selected: false,
        retained_generations: 1,
    });
    planner.supply_reference(generation(2));
    let traced = |planner: &SegmentPlanner<'_>| {
        let mut trace = planner.head_trace();
        assert_eq!(trace.next(), Some(record(NEW).segment));
        trace.supply(&vec![data(1), record(NEW).segment]);
        assert_eq!(trace.next(), Some(data(1)));
        trace.supply(&Vec::new());
        assert_eq!(trace.next(), None);
        trace
    };
    let headers = |reclaimable: bool| {
        vec![
            Some(HeaderFacts {
                generation: generation(2),
                reclaimable: false,
            }),
            Some(HeaderFacts {
                generation: generation(2),
                reclaimable,
            }),
        ]
    };
    let trace = traced(&planner);
    let mut store = Store::new();
    store.residue = 2;
    let index = store.index(trace.closure());
    assert!(planner
        .supply_head_closure(trace, &headers(true), &index, (1, 0))
        .is_err());
    assert_eq!(planner.asked(), SegmentStage::HeadTrace);
    let trace = traced(&planner);
    planner
        .supply_head_closure(trace, &headers(false), &index, (1, 0))
        .expect("a head that stays whole");
    assert_eq!(planner.asked(), SegmentStage::ResidueSweep);
    assert_eq!(planner.decided().residue_segments, 2);
    assert_eq!(planner.decided().closure_indexed_bytes, Some((1, 0)));
}

/// Applies a plan to a store in which nothing is to be done.
fn applied_nothing(prepared: &PreparedCompaction, journal: &str) -> CompactionOutcome {
    let mut run = prepared.apply(1);
    loop {
        match run.due() {
            ApplyStage::CheckDirectory => run.check_directory(&fingerprint()).expect("unchanged"),
            ApplyStage::ReadCycleLog => run.take_cycle_log(None),
            ApplyStage::MeasureArchives => run.take_archive_bytes(600),
            ApplyStage::SweepSegments => run.take_sweep(
                SweepCounts {
                    rewritten_archives: 0,
                    removed_archives: 0,
                    removed_segments: 0,
                },
                Vec::new(),
            ),
            ApplyStage::ProveArchiveLock => run.archive_lock_proved(),
            ApplyStage::RemoveStaleArchives => run.take_stale_archives(removed(run.removals())),
            ApplyStage::RewriteJournal => rewrite_journal(&mut run, journal),
            ApplyStage::VerifyCycleLog => run.verify_cycle_log(&None).expect("no cycle"),
            ApplyStage::VerifyStore => {
                let raw = RawJournal::of_bytes(journal.as_bytes().to_vec());
                let fresh = analysis(&raw, record(NEW), None);
                run.verify_store(record(NEW), &raw, &fresh).expect("the same store");
            }
            ApplyStage::ProveRecoveryLock => run.recovery_lock_proved(),
            ApplyStage::RemoveTemporaries => run.take_temporaries(removed(run.removals())),
            ApplyStage::SyncDirectory => run.directory_synced(),
            ApplyStage::MeasureResult => run.take_result(600, 0),
            ApplyStage::Finished => return run.finish(),
            other => panic!("nothing calls for {other:?}"),
        }
    }
}

#[test]
fn a_count_that_does_not_fit_is_told() {
    let sweep = |segments: usize| {
        Some(SegmentCompactionPlan {
            archives: vec![remove("data00001a.tar", segments, 1), remove("data00002a.tar", 1, 1)],
        })
    };
    assert_eq!(count_segments(&None), Some(0));
    assert_eq!(count_segments(&sweep(2)), Some(3));
    assert_eq!(count_segments(&sweep(usize::MAX)), None);
}

struct ApplyEnd {
    stages: Vec<ApplyStage>,
    lock_proofs: usize,
    outcome: CompactionOutcome,
}

fn prepared(store: Store, options: CompactionOptions, repaired: &[&str]) -> PreparedCompaction {
    let built = store.plan(&options);
    PreparedCompaction::prepare(
        options,
        repaired.iter().map(|name| (*name).to_owned()).collect(),
        built,
    )
    .expect("a plan")
}

#[test]
fn a_run_without_head_work_ends_where_it_began() {
    let mut store = Store::new();
    store.sweep = vec![remove("data00001a.tar", 2, 400)];
    let ready = prepared(store, segments_only(), &["data00000a.tar"]);
    assert_eq!(ready.repaired_archives(), 1);
    assert!(removes(ready.plan(), "data00001a.tar"));
    let end = applied(&ready, record(NEW), &format!("{OLD} root 0\n{NEW} root 1\n"));
    assert_eq!(end.outcome.head_before, end.outcome.head_after);
    assert_eq!(end.outcome.removed_segments(), 2);
    assert_eq!(end.outcome.removed_reclaimable_archives, 1);
    assert_eq!(end.outcome.repaired_archives, 1);
    assert_eq!(end.outcome.archive_bytes_before, 1_000);
    assert_eq!(end.outcome.archive_bytes_after, 600);
    assert_eq!(end.outcome.retained_recovery_backup_bytes, 5);
    assert!(end.outcome.compacted.is_none());
    assert!(!end.stages.contains(&ApplyStage::CopyHead));
    assert!(!end.stages.contains(&ApplyStage::RemoveTemporaries));
    assert!(end.lock_proofs >= 4);
}

#[test]
fn a_run_with_a_copy_ends_at_the_copied_head() {
    let options = segments_only().with_compaction(CompactionKind::Full);
    let mut store = Store::new();
    store.checkpoints = vec!["expired".to_owned()];
    let ready = prepared(store, options, &[]);
    let end = applied(&ready, record(NEW), &format!("{NEW} root 1\n"));
    assert_eq!(end.outcome.head_after, record(NEW));
    assert_eq!(end.outcome.removed_checkpoints, 1);
    assert_eq!(end.outcome.removed_segments(), 3);
    let compacted = end.outcome.compacted.expect("a copy");
    assert_eq!(compacted.nodes, 7);
    assert_eq!(
        compacted.generation,
        compaction_target_generation(generation(2), CompactionKind::Full)
    );
    assert!(!end.stages.contains(&ApplyStage::SweepSegments));
    assert!(!end.stages.contains(&ApplyStage::RemoveCheckpoints));
}

#[test]
fn a_run_that_removes_checkpoints_moves_the_head_once() {
    let options = CompactionOptions::default().with_tasks(&[MaintenanceTask::ExpiredCheckpoints]);
    let mut store = Store::new();
    store.checkpoints = vec!["expired".to_owned()];
    let ready = prepared(store, options, &[]);
    let end = applied(&ready, record(NEW), &format!("{OLD} root 0\n{NEW} root 1\n"));
    assert_eq!(end.outcome.removed_checkpoints, 1);
    assert!(end.outcome.compacted.is_none());
    assert!(end.stages.contains(&ApplyStage::RemoveCheckpoints));
}

#[test]
fn a_stale_plan_is_refused_before_anything_moves() {
    let ready = prepared(Store::new(), segments_only(), &[]);
    let mut run = ready.apply(1);
    let mut changed = fingerprint();
    changed.entries.push(file("journal.log"));
    assert_eq!(
        details(run.check_directory(&changed).expect_err("a changed directory")),
        "the repository changed after the authoritative cleanup plan was built; refusing to apply a stale plan"
    );
    assert_eq!(run.due(), ApplyStage::CheckDirectory);
}

#[test]
fn a_refused_plan_names_the_repairs_before_it() {
    let refused = PreparedCompaction::prepare(
        segments_only(),
        vec!["data00000a.tar".to_owned()],
        Err(Error::InvalidFormat {
            details: "refused".to_owned(),
        }),
    )
    .expect_err("a refusal");
    assert!(refused.to_text().contains("which are already durable: data00000a.tar."));
    let ready = prepared(Store::new(), segments_only(), &[]);
    let issue = ready
        .validate_plan_apply_identity(Ok(Some("owned by another".to_owned())))
        .expect_err("an issue");
    assert_eq!(
        details(issue),
        "owned by another; conservatively refusing before planned repository mutations"
    );
    let sound = prepared(Store::new(), segments_only(), &[]);
    assert!(sound.validate_plan_apply_identity(Ok(None)).is_ok());
}

fn survey(options: &CompactionOptions) -> RepositorySurvey<'_> {
    let raw = RawJournal::of_bytes(format!("{NEW} root 1\n").into_bytes());
    let analysed = analysis(&raw, record(NEW), None);
    RepositorySurvey::survey_repository_state(options, raw, analysed)
}

fn checkpoint(name: &str, timestamp: i64) -> CheckpointFacts {
    CheckpointFacts {
        name: name.to_owned(),
        timestamp: Some(PropertyState {
            name: "timestamp".to_owned(),
            property_type: PropertyType::Other,
            values: PropertyValues::Single(PropertyValue::Long(timestamp)),
        }),
    }
}

#[test]
fn a_survey_asks_in_order_and_certifies_an_output_archive() {
    let options = CompactionOptions::default().with_tasks(&[MaintenanceTask::ExpiredCheckpoints]);
    let mut survey = survey(&options);
    assert_eq!(survey.asked(), SurveyStage::Checkpoints);
    let mut warnings = Vec::new();
    survey
        .take_checkpoints(&vec![checkpoint("expired", 1)], &Vec::new(), 1_000, &mut warnings)
        .expect("no bound");
    assert_eq!(survey.asked(), SurveyStage::ArchiveNumber);
    survey.take_archive_number(7);
    assert_eq!(survey.asked(), SurveyStage::Duplicates);
    survey.duplicates_rejected();
    let state = survey.finish();
    assert_eq!(state.checkpoint_archive_number, Some(7));
    assert_eq!(state.checkpoints.names, vec!["expired".to_owned()]);
    assert!(state.index_available);
}

#[test]
fn a_pending_repair_keeps_the_checkpoints_waiting() {
    let options = CompactionOptions::default()
        .with_tasks(&[MaintenanceTask::ExpiredCheckpoints])
        .with_archive_index_repair();
    let mut refused = survey(&options);
    assert_eq!(refused.asked(), SurveyStage::Repairs);
    assert_eq!(
        details(
            refused
                .take_repairs(Some("beyond repair".to_owned()), Vec::new())
                .expect_err("an archive that cannot be repaired")
        ),
        "beyond repair"
    );
    let mut pending = survey(&options);
    pending
        .take_repairs(
            None,
            vec![CompactionAction::RepairArchiveIndex {
                file_name: "data00000a.tar".to_owned(),
                retired_file_names: Vec::new(),
                reason: "no index".to_owned(),
                bytes: 512,
            }],
        )
        .expect("repairable");
    assert_eq!(pending.asked(), SurveyStage::Finished);
    let state = pending.finish();
    assert!(!state.index_available);
    assert!(state.checkpoints.names.is_empty());
    assert_eq!(state.pending_repairs.len(), 1);
}

#[test]
fn a_bound_beside_an_expired_checkpoint_is_refused_by_the_survey() {
    let options = CompactionOptions::default()
        .with_tasks(&[MaintenanceTask::ExpiredCheckpoints, MaintenanceTask::Journal])
        .with_journal_revision_retention(1);
    let mut survey = survey(&options);
    let mut warnings = Vec::new();
    let refused = survey
        .take_checkpoints(&vec![checkpoint("expired", 1)], &Vec::new(), 1_000, &mut warnings)
        .expect_err("must refuse");
    assert!(details(refused).contains("the removal of 1 checkpoint(s)"));
    assert_eq!(survey.asked(), SurveyStage::Checkpoints);
}

#[test]
fn facts_are_drawn_from_what_the_store_answered() {
    let options = segments_only();
    let mut survey = survey(&options);
    let mut warnings = Vec::new();
    survey
        .take_checkpoints(&Vec::new(), &Vec::new(), 0, &mut warnings)
        .expect("nothing expired");
    survey.duplicates_rejected();
    let checkpoints = no_checkpoints();
    let raw = RawJournal::of_bytes(format!("{NEW} root 1\n").into_bytes());
    let retained_roots = vec![RecordIdentifier::new(data(1), 1)];
    let mut planner = SegmentPlanner::plan_segment_work(SegmentWorkInputs {
        options: &options,
        current_head: record(NEW),
        index_available: true,
        checkpoints: &checkpoints,
        retained_roots: &retained_roots,
        journal_convergence: journal_convergence_of(&raw, record(NEW)),
        purge_selected: false,
        retained_generations: 1,
    });
    planner.supply_reference(generation(2));
    let mut head_trace = planner.head_trace();
    assert_eq!(head_trace.next(), Some(record(NEW).segment));
    head_trace.supply(&vec![data(1)]);
    while head_trace.next().is_some() {
        head_trace.supply(&Vec::new());
    }
    let headers: Vec<Option<HeaderFacts>> = (0..2)
        .map(|_| {
            Some(HeaderFacts {
                generation: generation(2),
                reclaimable: false,
            })
        })
        .collect();
    let index = Store::new().index(head_trace.closure());
    planner
        .supply_head_closure(head_trace, &headers, &index, (4_096, 0))
        .expect("a head that stays whole");
    let mut trace = planner.history_trace();
    assert_eq!(trace.next(), None, "the head's closure is not traced again");
    planner.supply_history_closure(trace);
    planner.supply_sweep(SegmentCompactionPlan {
        archives: vec![PlannedArchiveSweep::Rewrite {
            file_name: "data00001a.tar".to_owned(),
            replacement_name: "data00001b.tar".to_owned(),
            segment_count: 1,
            eligible_entry_bytes: 512,
            source_file_bytes: 4_096,
        }],
    });
    let gone = set(&[data(7)]);
    let dangling = vec![SegmentReferences {
        identifier: data(1),
        referenced: vec![data(7)],
    }];
    assert!(planner
        .supply_validation(&gone, &SegmentSet::new(), &None, &dangling)
        .is_err());
    let unreadable = Some(UnreadableRoot {
        root: record(OLD),
        error: "segment not found".to_owned(),
    });
    assert!(planner
        .supply_validation(&gone, &SegmentSet::new(), &unreadable, &Vec::new())
        .is_err());
    assert_eq!(planner.asked(), SegmentStage::Validation);
    planner
        .supply_validation(&gone, &SegmentSet::new(), &None, &Vec::new())
        .expect("nothing dangles");
    assert_eq!(planner.asked(), SegmentStage::Finished);
    let mut census = PlanningContentCensus::default();
    census.node_verified(
        &vec![PropertyState {
            name: "data".to_owned(),
            property_type: PropertyType::Binary,
            values: PropertyValues::Single(PropertyValue::Binary(BinaryValue::External {
                blob_identifier: "blob#30".to_owned(),
            })),
        }],
        16_512,
    );
    census.version_storage.resolve_live_matches();
    let inputs = PlanInputs {
        directory: "/store".to_owned(),
        current_head: record(NEW),
        head_nodes: 7,
        census,
        state: survey.finish(),
        selection: None,
        segment_work: planner.finish(),
        temporaries: Vec::new(),
        recovery_backups: Vec::new(),
        store_version: 1,
        released_bulk_bytes: 0,
        checkpoint_count: 2,
        content_root: Some(record(OLD)),
        system: None,
        version_storage: None,
        available_filesystem_bytes: Some(1),
        fingerprint_before: fingerprint(),
        fingerprint_after: fingerprint(),
        identity_preview: Ok(None),
    };
    assert!(inputs.fits());
    let facts = gather_plan_facts(inputs);
    assert!(sweep_counts_fit(&facts));
    assert!(gathered_rewrites(&facts, &options).upgrades_manifest);
    assert!(facts.manifest_upgrade, "a rewrite writes data of version two");
    assert_eq!(facts.external_binary_footprint.measured_bytes, 30);
    assert_eq!(facts.orphaned_version_histories.retained_checkpoints, 2);
    assert!(facts.version_history_purge.is_none());
    let plan = build_plan(facts, &options, warnings).expect("a plan");
    let rewrites = planned_rewrites(&plan);
    assert!(rewrites.upgrades_manifest);
    assert!(rewrites.segment_plan.is_some());
    assert!(!rewrites.moves_checkpoint_head);
    assert!(!rewrites.rewrites_journal);
    assert_eq!(plan.warnings().len(), 2, "scarce space, and hard links");
    let freed: u64 = plan
        .actions()
        .iter()
        .map(|action| match action {
            CompactionAction::RewriteArchive { eligible_bytes, .. } => *eligible_bytes,
            _ => 0,
        })
        .sum();
    assert_eq!(plan.estimated_reclaimable_bytes(), freed);
    assert_eq!(plan.estimated_archive_rewrite_source_bytes(), 4_096);
}

#[test]
fn a_phase_refuses_what_the_plan_did_not_foresee() {
    assert_eq!(require_archive_number(HeadMutation::Copy, Some(4)).expect("a number"), 4);
    assert!(require_archive_number(HeadMutation::CheckpointRemoval, None).is_err());
    assert!(require_planned_head(HeadMutation::Copy, record(NEW), record(NEW)).is_ok());
    assert!(require_planned_head(HeadMutation::Copy, record(OLD), record(NEW)).is_err());
    assert!(require_head_generation(data(1), None).is_err());
    assert_eq!(
        require_head_generation(data(1), Some(generation(2))).expect("a generation"),
        generation(2)
    );
    assert!(require_published_head(true).is_ok());
    assert!(require_published_head(false).is_err());
    assert!(require_removed_checkpoints(2, 2).is_ok());
    assert!(require_removed_checkpoints(2, 1).is_err());
    assert!(require_final_head(record(NEW), record(NEW)).is_ok());
    assert!(require_final_head(record(NEW), record(OLD)).is_err());
    assert_eq!(reclaimed_bytes(10, 4), 6);
    assert_eq!(reclaimed_bytes(4, 10), 0);
}

fn cycle(entry: &str) -> CompactionPhaseOutcome {
    CompactionPhaseOutcome {
        head_after: record(NEW),
        target_generation: generation(3),
        copied_nodes: 7,
        sweep: SweepCounts {
            rewritten_archives: 1,
            removed_archives: 2,
            removed_segments: 3,
        },
        garbage_collection_entry: entry.to_owned(),
    }
}

#[test]
fn a_cycle_log_grows_by_exactly_its_own_entry() {
    let before = Some(b"first\n".to_vec());
    let after = Some(b"first\nsecond\n".to_vec());
    assert!(verify_gc_log_delta(&before, &before, &None).is_ok());
    assert!(verify_gc_log_delta(&before, &after, &None).is_err());
    assert!(verify_gc_log_delta(&before, &after, &Some(cycle("third"))).is_err());
    assert!(verify_gc_log_delta(&before, &None, &None).is_err());
}

#[test]
fn a_copy_counts_its_own_sweep() {
    let standalone = SweepCounts {
        rewritten_archives: 9,
        removed_archives: 9,
        removed_segments: 9,
    };
    assert_eq!(archive_counts(&Some(cycle("x")), standalone), cycle("x").sweep);
    assert_eq!(archive_counts(&None, standalone), standalone);
}

#[test]
fn the_journal_is_retired_pruned_or_left() {
    assert_eq!(
        journal_work(Some(record(NEW)), true),
        JournalWork::RetireHistory { head: record(NEW) }
    );
    assert_eq!(journal_work(None, true), JournalWork::Prune);
    assert_eq!(journal_work(None, false), JournalWork::Leave);
    let left = untouched_journal();
    assert!(!left.changed);
    assert_eq!(left.removed_line_count, 0);
}

#[test]
fn a_final_journal_must_hold_what_was_planned() {
    let raw = RawJournal::of_bytes(format!("{OLD} root 0\n{NEW} root 1\n").into_bytes());
    let planned = analysis(&raw, record(NEW), None);
    let fresh = analysis(&raw, record(NEW), None);
    assert!(verify_final_journal(&raw, None, true, &planned.plan, &fresh).is_ok());
    let shorter = RawJournal::of_bytes(format!("{NEW} root 1\n").into_bytes());
    let lost = analysis(&shorter, record(NEW), None);
    assert!(verify_final_journal(&shorter, None, true, &planned.plan, &lost).is_err());
}

#[test]
fn failures_are_gathered_sorted_and_without_repetition() {
    let (failures, names) = collect_deletion_failures(
        &vec![SegmentDeletionFailure {
            file_name: "data00001a.tar".to_owned(),
            error: "busy".to_owned(),
            target_was_already_absent: false,
        }],
        &vec![FileDeletionFailure::already_absent(
            "data00000a.tar".to_owned(),
            "gone".to_owned(),
        )],
        &vec![FileDeletionFailure::retained(
            "data00001a.tar".to_owned(),
            "busy".to_owned(),
        )],
        &Vec::new(),
    );
    let listed: Vec<&str> = failures.iter().map(FileDeletionFailure::file_name).collect();
    assert_eq!(listed, vec!["data00000a.tar", "data00001a.tar"]);
    assert_eq!(
        names,
        vec!["data00000a.tar".to_owned(), "data00001a.tar".to_owned()]
    );
    assert!(failures[0].target_was_already_absent());
    assert!(!failures[1].target_was_already_absent());
}

#[test]
fn an_outcome_states_every_finding() {
    let outcome = conclude(ApplyFindings {
        head_before: record(OLD),
        head_after: record(NEW),
        removed_checkpoints: 0,
        compaction: Some(cycle("entry")),
        journal: untouched_journal(),
        segment_counts: SweepCounts {
            rewritten_archives: 0,
            removed_archives: 0,
            removed_segments: 0,
        },
        segment_failures: Vec::new(),
        stale_archives: (1, Vec::new()),
        temporaries: (2, Vec::new()),
        recovery_backups: (3, Vec::new()),
        repaired_archives: 4,
        archive_bytes_before: 100,
        archive_bytes_after: 60,
        retained_recovery_backup_bytes: 5,
    });
    assert_eq!(outcome.head_before, record(OLD));
    assert_eq!(outcome.head_after, record(NEW));
    assert_eq!(outcome.rewritten_archives, 1);
    assert_eq!(outcome.removed_reclaimable_archives, 2);
    assert_eq!(outcome.removed_segments(), 3);
    assert_eq!(outcome.removed_stale_archives, 1);
    assert_eq!(outcome.removed_temporaries, 2);
    assert_eq!(outcome.removed_recovery_backups, 3);
    assert_eq!(outcome.repaired_archives, 4);
    assert_eq!(outcome.archive_bytes_before - outcome.archive_bytes_after, 40);
    assert_eq!(outcome.journal_backup_path(), None);
    assert!(outcome.is_complete());
}

#[test]
fn file_removals_are_listed_with_their_bytes() {
    let options = CompactionOptions::default().with_tasks(&[MaintenanceTask::StaleTemporaries]);
    let mut actions = Vec::new();
    let mut freed = 0;
    froe::planning::listing::list_file_removal_actions(
        &vec![PlannedFileRemoval {
            file_name: "journal.log.compacting".to_owned(),
            bytes: 64,
            fingerprint: file("journal.log.compacting"),
        }],
        &Vec::new(),
        &mut actions,
        &mut freed,
    )
    .expect("it fits");
    assert_eq!(freed, 64);
    assert!(matches!(
        &actions[0],
        CompactionAction::RemoveTemporary { file_name, bytes: 64 }
            if file_name == "journal.log.compacting"
    ));
    assert!(options.contains(MaintenanceTask::StaleTemporaries));
}
