//! Assembling the plan that an operator confirms from everything that was
//! gathered.
use vstd::prelude::*;
use vstd::string::*;
use crate::apply_identity;
use crate::apply_identity::{append_apply_identity_preview_warning, PlannedRewrites};
use crate::error::Error;
use crate::identifier::{CompactionKind, RecordIdentifier, SegmentIdentifier};
use crate::options;
use crate::options::{CompactionOptions, MaintenanceTask};
use crate::order;
use crate::order::sorted_distinct;
use crate::plan;
use crate::plan::{
    CompactionPlan, ExternalBinaryFootprint, OrphanedVersionHistoryReport, VersionHistoryPurge,
};
use crate::planning::content_census::PlanningContentCensus;
use crate::planning::listing;
use crate::planning::listing::{count_segments, list_planned_actions, ListingState, PlanFindings};
use crate::planning::purge::PurgeSelection;
use crate::planning::segments;
use crate::planning::shape::require_directory_unchanged;
use crate::planning::survey;
use crate::planning::survey::{attach_planning_warnings, decide_manifest_upgrade};
use crate::planning::version_history_plan;
use crate::planning::version_history_plan::{
    orphaned_version_history_report, purge_estimate_fits, released_bulk,
    retained_checkpoint_count, version_history_plan_parts,
};
use crate::planning::{DirectoryFingerprint, PlannedFileRemoval, RepositoryState, SegmentWork};
use crate::reclamation;
use crate::text;

verus! {

/// Everything a plan is assembled from, gathered by the walks and surveys in
/// their one required order.
#[derive(Debug)]
pub struct GatheredPlanFacts {
    /// The repository directory.
    pub directory: String,
    /// The head.
    pub current_head: RecordIdentifier,
    /// Distinct node records the head reaches.
    pub head_nodes: u64,
    /// What the survey established.
    pub state: RepositoryState,
    /// What was decided about segments and archives.
    pub segment_work: SegmentWork,
    /// The staging files that go.
    pub temporaries: Vec<PlannedFileRemoval>,
    /// The recovery backups that go.
    pub recovery_backups: Vec<PlannedFileRemoval>,
    /// Whether the store is raised to version two first.
    pub manifest_upgrade: bool,
    /// What orphaned version histories hold.
    pub orphaned_version_histories: OrphanedVersionHistoryReport,
    /// The histories that the copy omits.
    pub version_history_purge: Option<VersionHistoryPurge>,
    /// The external binaries of the walked content.
    pub external_binary_footprint: ExternalBinaryFootprint,
    /// What the file system has left, where it says so.
    pub available_filesystem_bytes: Option<u64>,
    /// The directory when planning began.
    pub fingerprint_before: DirectoryFingerprint,
    /// The directory now.
    pub fingerprint_after: DirectoryFingerprint,
    /// What the preview of the run's identity found.
    pub identity_preview: Result<Option<String>, Error>,
}

/// What the walks and surveys of a store answered, before anything is drawn from
/// it.
pub struct PlanInputs {
    /// The repository directory.
    pub directory: String,
    /// The head.
    pub current_head: RecordIdentifier,
    /// Distinct node records the head reaches.
    pub head_nodes: u64,
    /// What the walk over the content collected.
    pub census: PlanningContentCensus,
    /// What the survey established.
    pub state: RepositoryState,
    /// The histories that a requested purge selects.
    pub selection: Option<PurgeSelection>,
    /// What was decided about segments and archives.
    pub segment_work: SegmentWork,
    /// The staging files that go.
    pub temporaries: Vec<PlannedFileRemoval>,
    /// The recovery backups that go.
    pub recovery_backups: Vec<PlannedFileRemoval>,
    /// The version that the manifest states.
    pub store_version: u32,
    /// Indexed bytes of the bulk segments that the purge releases.
    pub released_bulk_bytes: u64,
    /// How many checkpoints the store has.
    pub checkpoint_count: u64,
    /// The content root.
    pub content_root: Option<RecordIdentifier>,
    /// Its node above version storage.
    pub system: Option<RecordIdentifier>,
    /// Version storage.
    pub version_storage: Option<RecordIdentifier>,
    /// What the file system has left, where it says so.
    pub available_filesystem_bytes: Option<u64>,
    /// The directory when planning began.
    pub fingerprint_before: DirectoryFingerprint,
    /// The directory now.
    pub fingerprint_after: DirectoryFingerprint,
    /// What the preview of the run's identity found.
    pub identity_preview: Result<Option<String>, Error>,
}

impl PlanInputs {
    /// The collections are sound, and the estimate of a purge fits.
    pub open spec fn well_formed(&self) -> bool {
        &&& self.census.well_formed()
        &&& version_history_plan::estimate_fits(
            self.census@.version_storage,
            self.selection,
            self.head_nodes,
            self.segment_work.closure_indexed_bytes,
        )
    }

    /// Whether the estimate of a purge fits, the collections being sound.
    pub fn fits(&self) -> (fits: bool)
        requires
            self.census.well_formed(),
        ensures
            fits == self.well_formed(),
    {
        purge_estimate_fits(
            &self.census.version_storage,
            &self.selection,
            self.head_nodes,
            self.segment_work.closure_indexed_bytes,
        )
    }

    /// How many checkpoints stay.
    pub open spec fn retained_checkpoints(&self) -> u64 {
        if self.checkpoint_count >= self.state.checkpoints.names@.len() {
            (self.checkpoint_count - self.state.checkpoints.names@.len()) as u64
        } else {
            0
        }
    }

    /// The bulk segments that the purge releases.
    pub open spec fn released(&self) -> Set<SegmentIdentifier> {
        version_history_plan::released_bulk_of(
            self.census@.version_storage,
            self.census@.live_bulk,
            self.selection,
        )
    }
}

/// Facts that some inputs come to: what was answered, and what is drawn from it.
pub open spec fn gathers(facts: GatheredPlanFacts, inputs: PlanInputs) -> bool {
    &&& facts.directory == inputs.directory
    &&& facts.current_head == inputs.current_head
    &&& facts.head_nodes == inputs.head_nodes
    &&& facts.state == inputs.state
    &&& facts.segment_work == inputs.segment_work
    &&& facts.temporaries == inputs.temporaries
    &&& facts.recovery_backups == inputs.recovery_backups
    &&& facts.manifest_upgrade == ((inputs.state.pending_repairs@.len() > 0
        || inputs.state.checkpoints.names@.len() > 0 || survey::rewrites(
        inputs.segment_work.segment_plan,
    )) && inputs.store_version < 2)
    &&& facts.orphaned_version_histories == version_history_plan::report_of(
        inputs.census@.version_storage,
        inputs.selection,
        inputs.head_nodes,
        inputs.segment_work.closure_indexed_bytes,
        inputs.released().len() as u64,
        inputs.released_bulk_bytes,
        inputs.retained_checkpoints(),
    )
    &&& version_history_plan::carries(
        facts.version_history_purge,
        inputs.selection,
        version_history_plan::chain_records(
            inputs.content_root,
            inputs.system,
            inputs.version_storage,
        ),
        inputs.retained_checkpoints(),
    )
    &&& facts.external_binary_footprint == (ExternalBinaryFootprint {
        distinct_references: inputs.census@.external_binaries.distinct.len() as u64,
        measured_bytes: inputs.census@.external_binaries.measured_bytes,
        unmeasured_references: inputs.census@.external_binaries.unmeasured_references,
    })
    &&& facts.available_filesystem_bytes == inputs.available_filesystem_bytes
    &&& facts.fingerprint_before == inputs.fingerprint_before
    &&& facts.fingerprint_after == inputs.fingerprint_after
    &&& facts.identity_preview == inputs.identity_preview
}

/// Draws from the answers what a plan is assembled from: whether the manifest is
/// upgraded, what orphaned histories hold and release, and the purge that the
/// plan carries.
pub fn gather_plan_facts(inputs: PlanInputs) -> (facts: GatheredPlanFacts)
    requires
        inputs.well_formed(),
    ensures
        gathers(facts, inputs),
{
    let manifest_upgrade = decide_manifest_upgrade(
        inputs.state.pending_repairs.len(),
        &inputs.state.checkpoints,
        &inputs.segment_work.segment_plan,
        inputs.store_version,
    );
    let retained_checkpoints = retained_checkpoint_count(
        inputs.checkpoint_count,
        inputs.state.checkpoints.names.len() as u64,
    );
    let released = released_bulk(
        &inputs.census.version_storage,
        &inputs.census.live_bulk,
        &inputs.selection,
    );
    proof {
        released.lemma_no_duplicates();
        released.listed().unique_seq_to_set();
    }
    let report = orphaned_version_history_report(
        &inputs.census.version_storage,
        &inputs.selection,
        inputs.head_nodes,
        inputs.segment_work.closure_indexed_bytes,
        &released,
        inputs.released_bulk_bytes,
        retained_checkpoints,
    );
    let footprint = inputs.census.external_binaries.footprint();
    let purge = version_history_plan_parts(
        inputs.selection,
        inputs.content_root,
        inputs.system,
        inputs.version_storage,
        retained_checkpoints,
    );
    GatheredPlanFacts {
        directory: inputs.directory,
        current_head: inputs.current_head,
        head_nodes: inputs.head_nodes,
        state: inputs.state,
        segment_work: inputs.segment_work,
        temporaries: inputs.temporaries,
        recovery_backups: inputs.recovery_backups,
        manifest_upgrade,
        orphaned_version_histories: report,
        version_history_purge: purge,
        external_binary_footprint: footprint,
        available_filesystem_bytes: inputs.available_filesystem_bytes,
        fingerprint_before: inputs.fingerprint_before,
        fingerprint_after: inputs.fingerprint_after,
        identity_preview: inputs.identity_preview,
    }
}

/// The figures of a purge that a listing states.
pub open spec fn purge_figures(purge: Option<VersionHistoryPurge>) -> Option<(u64, u64, u64)> {
    match purge {
        Some(carried) => Some((carried.histories, carried.nodes, carried.retained_checkpoints)),
        None => None,
    }
}

/// What the listing of some facts is made from.
pub open spec fn findings_of<'a>(
    facts: &'a GatheredPlanFacts,
    options: &'a CompactionOptions,
) -> PlanFindings<'a> {
    PlanFindings {
        options,
        state: &facts.state,
        segment_work: &facts.segment_work,
        temporaries: &facts.temporaries,
        recovery_backups: &facts.recovery_backups,
        manifest_upgrade: facts.manifest_upgrade,
        head_nodes: facts.head_nodes,
        version_history_purge: purge_figures(facts.version_history_purge),
        available_filesystem_bytes: facts.available_filesystem_bytes,
    }
}

/// What a copy writes at most: the closure's data bytes, less the share of the
/// histories that it omits.
pub open spec fn copy_output(
    kind: Option<CompactionKind>,
    closure_indexed_bytes: Option<(u64, u64)>,
    purges: bool,
    node_record_bytes_estimate: u64,
) -> Option<u64> {
    match (kind, closure_indexed_bytes) {
        (Some(_), Some((data_bytes, _))) => Some(
            segments::less(
                data_bytes as int,
                if purges {
                    node_record_bytes_estimate as int
                } else {
                    0
                },
            ) as u64,
        ),
        _ => None,
    }
}

/// What a copy writes at most, when one is selected and the head was traced.
pub fn predicted_copy_output_bytes(
    kind: Option<CompactionKind>,
    closure_indexed_bytes: Option<(u64, u64)>,
    purges: bool,
    node_record_bytes_estimate: u64,
) -> (bytes: Option<u64>)
    ensures
        bytes == copy_output(kind, closure_indexed_bytes, purges, node_record_bytes_estimate),
{
    match (kind, closure_indexed_bytes) {
        (Some(_), Some((data_bytes, _))) => Some(
            data_bytes.saturating_sub(
                if purges {
                    node_record_bytes_estimate
                } else {
                    0
                },
            ),
        ),
        _ => None,
    }
}

/// What the listing of some facts comes to, and whether its estimates fit.
pub open spec fn listing_of(
    facts: &GatheredPlanFacts,
    options: &CompactionOptions,
    warnings: Seq<Seq<char>>,
) -> (ListingState, bool) {
    listing::full_listing(
        findings_of(facts, options),
        warnings,
        facts.state.raw_journal.listed().len() as usize,
    )
}

/// A plan states what was gathered and listed, and nothing else.
pub open spec fn assembles(
    plan: CompactionPlan,
    facts: &GatheredPlanFacts,
    options: &CompactionOptions,
    listed: ListingState,
) -> bool {
    let work = facts.segment_work;
    &&& plan.directory@ == facts.directory@
    &&& plan.tasks@ == options::every_task().filter(
        |task: MaintenanceTask| options@.tasks.contains(task),
    )
    &&& plan.current_head == facts.current_head
    &&& plan::action_views(plan.actions@) == listed.actions
    &&& order::ascending(text::texts(plan.warnings@))
    &&& text::texts(plan.warnings@).to_set() == (listed.warnings
        + apply_identity::preview_warnings(facts.identity_preview)).to_set()
    &&& plan.estimated_reclaimable_bytes == listed.totals.reclaimable_bytes
    &&& plan.estimated_archive_rewrite_source_bytes == listed.totals.rewrite_source_bytes
    &&& plan.retained_reclaimable == listed.totals.retained
    &&& plan.history_protection == work.history_protection
    &&& plan.fingerprint == facts.fingerprint_after
    &&& plan.journal == facts.state.journal_analysis.plan
    &&& plan.checkpoints == facts.state.checkpoints
    &&& plan.checkpoint_archive_number == facts.state.checkpoint_archive_number
    &&& plan.stale_archives == work.stale_archives
    &&& plan.temporaries == facts.temporaries
    &&& plan.recovery_backups == facts.recovery_backups
    &&& plan.segment_plan == work.segment_plan
    &&& plan.residue_sweep == work.residue_sweep
    &&& plan.reference_generation == work.reference_generation
    &&& plan.protected_history_segments == work.protected_history_segments
    &&& plan.manifest_upgrade == facts.manifest_upgrade
    &&& plan.predicted_copy_output_bytes == copy_output(
        work.effective_compaction_kind,
        work.closure_indexed_bytes,
        facts.version_history_purge is Some,
        facts.orphaned_version_histories.node_record_bytes_estimate,
    )
    &&& plan.external_binary_footprint == facts.external_binary_footprint
    &&& plan.effective_compaction_kind == work.effective_compaction_kind
    &&& plan.already_fully_compacted == work.already_fully_compacted
    &&& plan.orphaned_version_histories == facts.orphaned_version_histories
    &&& plan.version_history_purge == facts.version_history_purge
}

/// The sweeps of some facts count segments that fit.
pub open spec fn counts_fit(facts: &GatheredPlanFacts) -> bool {
    listing::total_segments(listing::sweeps_of(facts.segment_work.predicted_sweep))
        + listing::total_segments(listing::sweeps_of(facts.segment_work.segment_plan))
        <= usize::MAX
}

/// Whether the sweeps of some facts count segments that fit.
pub fn sweep_counts_fit(facts: &GatheredPlanFacts) -> (fits: bool)
    ensures
        fits == counts_fit(facts),
{
    match (
        count_segments(&facts.segment_work.predicted_sweep),
        count_segments(&facts.segment_work.segment_plan),
    ) {
        (Some(predicted), Some(planned)) => predicted.checked_add(planned).is_some(),
        _ => false,
    }
}

/// What some facts will rewrite, once they are a plan.
pub fn gathered_rewrites<'a>(facts: &'a GatheredPlanFacts, options: &CompactionOptions) -> (rewrites:
    PlannedRewrites<'a>)
    ensures
        rewrites.upgrades_manifest == facts.manifest_upgrade,
        match facts.segment_work.segment_plan {
            Some(sweep) => rewrites.segment_plan == Some(&sweep),
            None => rewrites.segment_plan is None,
        },
        rewrites.moves_checkpoint_head == (facts.state.checkpoints.names@.len() > 0),
        rewrites.rewrites_journal == (options@.tasks.contains(MaintenanceTask::Journal)
            && facts.state.journal_analysis.plan.removed_lines != 0),
{
    PlannedRewrites {
        upgrades_manifest: facts.manifest_upgrade,
        segment_plan: facts.segment_work.segment_plan.as_ref(),
        moves_checkpoint_head: facts.state.checkpoints.names.len() > 0,
        rewrites_journal: options.contains(MaintenanceTask::Journal)
            && facts.state.journal_analysis.plan.removed_lines != 0,
    }
}

/// The owners that a preview checks are those that the run checks: a plan that
/// some facts were assembled to rewrites what the facts do.
pub proof fn law_a_plan_rewrites_what_was_gathered(
    plan: CompactionPlan,
    facts: &GatheredPlanFacts,
    options: &CompactionOptions,
    listed: ListingState,
)
    requires
        assembles(plan, facts, options, listed),
    ensures
        plan.manifest_upgrade == facts.manifest_upgrade,
        plan.segment_plan == facts.segment_work.segment_plan,
        plan.checkpoints == facts.state.checkpoints,
        plan.journal == facts.state.journal_analysis.plan,
        plan.tasks@.contains(MaintenanceTask::Journal) == options@.tasks.contains(
            MaintenanceTask::Journal,
        ),
{
    let selected = |task: MaintenanceTask| options@.tasks.contains(task);
    let every = options::every_task();
    assert(plan.tasks@ == every.filter(selected));
    assert(every[0] == MaintenanceTask::Journal);
    if options@.tasks.contains(MaintenanceTask::Journal) {
        every.lemma_filter_contains(selected, 0);
    }
    if every.filter(selected).contains(MaintenanceTask::Journal) {
        let i = choose|i: int|
            0 <= i < every.filter(selected).len() && every.filter(selected)[i]
                == MaintenanceTask::Journal;
        every.lemma_filter_pred(selected, i);
    }
}

/// Assembles a plan, collecting warnings on the way: those that the listing
/// established are kept even when the plan is refused.
pub fn build_plan_collecting(
    facts: GatheredPlanFacts,
    options: &CompactionOptions,
    warnings: &mut Vec<String>,
) -> (built: Result<CompactionPlan, Error>)
    requires
        counts_fit(&facts),
    ensures
        ({
            let (listed, fits) = listing_of(&facts, options, text::texts(old(warnings)@));
            &&& text::texts(final(warnings)@) == listed.warnings
            &&& match built {
                Ok(plan) => fits && facts.fingerprint_before@ == facts.fingerprint_after@
                    && assembles(plan, &facts, options, listed),
                Err(error) => if !fits {
                    error.refuses(reclamation::overflow_text())
                } else {
                    facts.fingerprint_before@ != facts.fingerprint_after@ && error.refuses(
                        "the repository changed while cleanup was planning; retry against a quiescent store"@,
                    )
                },
            }
        }),
{
    let ghost started = text::texts(warnings@);
    let figures = match &facts.version_history_purge {
        Some(carried) => Some((carried.histories, carried.nodes, carried.retained_checkpoints)),
        None => None,
    };
    let listed = list_planned_actions(
        &PlanFindings {
            options,
            state: &facts.state,
            segment_work: &facts.segment_work,
            temporaries: &facts.temporaries,
            recovery_backups: &facts.recovery_backups,
            manifest_upgrade: facts.manifest_upgrade,
            head_nodes: facts.head_nodes,
            version_history_purge: figures,
            available_filesystem_bytes: facts.available_filesystem_bytes,
        },
        warnings,
    )?;
    require_directory_unchanged(&facts.fingerprint_before, &facts.fingerprint_after)?;
    let mut all_warnings: Vec<String> = plan::copy_strings(warnings);
    append_apply_identity_preview_warning(&mut all_warnings, &facts.identity_preview);
    let ordered = sorted_distinct(&all_warnings);
    let predicted = predicted_copy_output_bytes(
        facts.segment_work.effective_compaction_kind,
        facts.segment_work.closure_indexed_bytes,
        facts.version_history_purge.is_some(),
        facts.orphaned_version_histories.node_record_bytes_estimate,
    );
    let work = facts.segment_work;
    let state = facts.state;
    Ok(
        CompactionPlan {
            directory: facts.directory,
            tasks: options.tasks(),
            current_head: facts.current_head,
            actions: listed.actions,
            warnings: ordered,
            estimated_reclaimable_bytes: listed.estimated_reclaimable_bytes,
            estimated_archive_rewrite_source_bytes: listed.estimated_archive_rewrite_source_bytes,
            retained_reclaimable: listed.retained_reclaimable,
            history_protection: work.history_protection,
            fingerprint: facts.fingerprint_after,
            journal: state.journal_analysis.plan,
            checkpoints: state.checkpoints,
            checkpoint_archive_number: state.checkpoint_archive_number,
            stale_archives: work.stale_archives,
            temporaries: facts.temporaries,
            recovery_backups: facts.recovery_backups,
            segment_plan: work.segment_plan,
            residue_sweep: work.residue_sweep,
            reference_generation: work.reference_generation,
            protected_history_segments: work.protected_history_segments,
            manifest_upgrade: facts.manifest_upgrade,
            predicted_copy_output_bytes: predicted,
            external_binary_footprint: facts.external_binary_footprint,
            effective_compaction_kind: work.effective_compaction_kind,
            already_fully_compacted: work.already_fully_compacted,
            orphaned_version_histories: facts.orphaned_version_histories,
            version_history_purge: facts.version_history_purge,
        },
    )
}

/// Assembles a plan, keeping the warnings it established even when it fails: a
/// refusal carries them.
pub fn build_plan(
    facts: GatheredPlanFacts,
    options: &CompactionOptions,
    warnings: Vec<String>,
) -> (built: Result<CompactionPlan, Error>)
    requires
        counts_fit(&facts),
    ensures
        ({
            let (listed, fits) = listing_of(&facts, options, text::texts(warnings@));
            match built {
                Ok(plan) => fits && facts.fingerprint_before@ == facts.fingerprint_after@
                    && assembles(plan, &facts, options, listed),
                Err(error) => if !fits {
                    error.refuses(
                        survey::with_warnings(reclamation::overflow_text(), listed.warnings),
                    )
                } else {
                    facts.fingerprint_before@ != facts.fingerprint_after@ && error.refuses(
                        survey::with_warnings(
                            "the repository changed while cleanup was planning; retry against a quiescent store"@,
                            listed.warnings,
                        ),
                    )
                },
            }
        }),
{
    let mut collected = warnings;
    match build_plan_collecting(facts, options, &mut collected) {
        Ok(plan) => Ok(plan),
        Err(error) => Err(attach_planning_warnings(error, &collected)),
    }
}

} // verus!
