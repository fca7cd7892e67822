//! Turning what a run found into the actions it reports: one line per
//! archive, file, and head move, in the order they would happen.
use vstd::prelude::*;
use vstd::string::*;
use crate::error::Error;
use crate::identifier::CompactionKind;
use crate::journal::analysis::JournalPlan;
use crate::options::{CompactionOptions, MaintenanceTask};
use crate::plan;
use crate::plan::{copy_strings, ActionView, CompactionAction, RetainedReclaimable};
use crate::planning::{
    CheckpointPlan, PlannedArchiveSweep, PlannedFileRemoval, RepositoryState,
    SegmentCompactionPlan, SegmentWork, StaleArchive,
};
use crate::reclamation;
use crate::reclamation::{add_estimate, compaction_target_generation, retained_reclaimable_from};
use crate::text;

verus! {

/// What planning found, in the order the action listing reports it.
pub struct PlanFindings<'findings> {
    /// What the operator selected.
    pub options: &'findings CompactionOptions,
    /// What the survey established.
    pub state: &'findings RepositoryState,
    /// What was decided about segments and archives.
    pub segment_work: &'findings SegmentWork,
    /// The staging files that go.
    pub temporaries: &'findings Vec<PlannedFileRemoval>,
    /// The recovery backups that go.
    pub recovery_backups: &'findings Vec<PlannedFileRemoval>,
    /// Whether the store is raised to version 2 first.
    pub manifest_upgrade: bool,
    /// Distinct node records the head reaches.
    pub head_nodes: u64,
    /// The selected purge's histories, nodes and retained checkpoints.
    pub version_history_purge: Option<(u64, u64, u64)>,
    /// What the file system has left, where it says so.
    pub available_filesystem_bytes: Option<u64>,
}

/// The ordered action list an operator confirms, with the totals that
/// accompany it.
#[derive(Debug)]
pub struct PlanListing {
    /// The actions.
    pub actions: Vec<CompactionAction>,
    /// Bytes that the actions free.
    pub estimated_reclaimable_bytes: u64,
    /// Bytes of the archives that are rewritten.
    pub estimated_archive_rewrite_source_bytes: u64,
    /// What the sweeps declined to reclaim.
    pub retained_reclaimable: RetainedReclaimable,
}

/// What the archive sweeps in a plan account for.
#[derive(Clone, Copy, Debug, PartialEq, Eq, Structural)]
pub struct SweepListing {
    /// Bytes that the sweeps free.
    pub reclaimable_bytes: u64,
    /// Bytes of the archives that are rewritten.
    pub rewrite_source_bytes: u64,
    /// What the sweeps declined to reclaim.
    pub retained: RetainedReclaimable,
}

/// How far a listing has come.
pub struct ListingState {
    /// The actions listed so far.
    pub actions: Seq<ActionView>,
    /// The warnings given so far.
    pub warnings: Seq<Seq<char>>,
    /// The totals so far.
    pub totals: SweepListing,
}

impl ListingState {
    /// One more action.
    pub open spec fn listing(self, action: ActionView) -> Self {
        ListingState { actions: self.actions.push(action), ..self }
    }

    /// One more warning.
    pub open spec fn warning(self, warning: Seq<char>) -> Self {
        ListingState { warnings: self.warnings.push(warning), ..self }
    }

    /// More bytes that can be freed, unless the total overflows.
    pub open spec fn freeing(self, bytes: u64) -> (Self, bool) {
        match reclamation::charged(self.totals.reclaimable_bytes, bytes) {
            Some(sum) => (
                ListingState {
                    totals: SweepListing { reclaimable_bytes: sum, ..self.totals },
                    ..self
                },
                true,
            ),
            None => (self, false),
        }
    }
}

/// The listing after one more archive, and whether no total overflowed.
///
/// A standalone sweep also accounts for the size of the archives it rewrites;
/// a predicted sweep does not.
pub open spec fn after_archive(
    state: ListingState,
    sweep: PlannedArchiveSweep,
    standalone: bool,
) -> (ListingState, bool) {
    match sweep {
        PlannedArchiveSweep::Remove { file_name, segment_count, file_bytes } => state.listing(
            ActionView::RemoveReclaimableArchive {
                file_name: file_name@,
                segments: segment_count,
                bytes: file_bytes,
            },
        ).freeing(file_bytes),
        PlannedArchiveSweep::Rewrite {
            file_name,
            replacement_name,
            segment_count,
            eligible_entry_bytes,
            source_file_bytes,
        } => {
            let action = ActionView::RewriteArchive {
                file_name: file_name@,
                replacement_name: replacement_name@,
                segments: segment_count,
                eligible_bytes: eligible_entry_bytes,
            };
            if standalone {
                match reclamation::charged(state.totals.rewrite_source_bytes, source_file_bytes) {
                    Some(sum) => ListingState {
                        totals: SweepListing { rewrite_source_bytes: sum, ..state.totals },
                        ..state
                    }.listing(action).freeing(eligible_entry_bytes),
                    None => (state, false),
                }
            } else {
                state.listing(action).freeing(eligible_entry_bytes)
            }
        },
        declined => {
            let counts = reclamation::declined_counts(state.totals.retained, declined);
            match reclamation::charged(
                state.totals.retained.bytes,
                reclamation::declined_bytes(declined)->0,
            ) {
                Some(sum) => (
                    ListingState {
                        totals: SweepListing {
                            retained: RetainedReclaimable { bytes: sum, ..counts },
                            ..state.totals
                        },
                        ..state
                    }.warning(reclamation::declined_text(declined)),
                    true,
                ),
                None => (
                    ListingState {
                        totals: SweepListing { retained: counts, ..state.totals },
                        ..state
                    },
                    false,
                ),
            }
        },
    }
}

/// The listing after the archives in order, up to the first overflow.
pub open spec fn after_archives(
    state: ListingState,
    sweeps: Seq<PlannedArchiveSweep>,
    standalone: bool,
) -> (ListingState, bool)
    decreases sweeps.len(),
{
    if sweeps.len() == 0 {
        (state, true)
    } else {
        let (next, fits) = after_archive(state, sweeps[0], standalone);
        if fits {
            after_archives(next, sweeps.drop_first(), standalone)
        } else {
            (next, false)
        }
    }
}

/// How many segments the sweep entries speak of in all.
pub open spec fn total_segments(sweeps: Seq<PlannedArchiveSweep>) -> nat
    decreases sweeps.len(),
{
    if sweeps.len() == 0 {
        0
    } else {
        (reclamation::swept_segments(sweeps[0]) + total_segments(sweeps.drop_first())) as nat
    }
}

proof fn lemma_fewer_segments(sweeps: Seq<PlannedArchiveSweep>, count: int)
    requires
        0 <= count <= sweeps.len(),
    ensures
        total_segments(sweeps.skip(count)) <= total_segments(sweeps),
    decreases count,
{
    if count == 0 {
        assert(sweeps.skip(0) =~= sweeps);
    } else {
        lemma_fewer_segments(sweeps.drop_first(), count - 1);
        assert(sweeps.drop_first().skip(count - 1) =~= sweeps.skip(count));
    }
}

/// Counts the segments that a sweep's entries speak of, where that fits.
pub fn count_segments(plan: &Option<SegmentCompactionPlan>) -> (count: Option<usize>)
    ensures
        match count {
            Some(total) => total == total_segments(sweeps_of(*plan)),
            None => total_segments(sweeps_of(*plan)) > usize::MAX,
        },
{
    match plan {
        Some(sweep) => {
            let ghost all = sweep.archives@;
            let mut total: usize = 0;
            let mut index: usize = sweep.archives.len();
            assert(all.skip(index as int) =~= Seq::empty());
            while index > 0
                invariant
                    all == sweep.archives@,
                    all == sweeps_of(*plan),
                    index <= all.len(),
                    total == total_segments(all.skip(index as int)),
                decreases index,
            {
                index = index - 1;
                let segments: usize = match &sweep.archives[index] {
                    PlannedArchiveSweep::Remove { segment_count, .. } => *segment_count,
                    PlannedArchiveSweep::Rewrite { segment_count, .. } => *segment_count,
                    PlannedArchiveSweep::DeferredBySavings { segment_count, .. } => *segment_count,
                    PlannedArchiveSweep::DeferredAtLastGeneration { segment_count, .. } =>
                        *segment_count,
                    PlannedArchiveSweep::BlockedByOccupiedGeneration { segment_count, .. } =>
                        *segment_count,
                };
                proof {
                    let rest = all.skip(index as int);
                    assert(rest[0] == all[index as int]);
                    assert(rest.drop_first() =~= all.skip(index as int + 1));
                    lemma_fewer_segments(all, index as int);
                }
                match total.checked_add(segments) {
                    Some(sum) => {
                        total = sum;
                    },
                    None => {
                        return None;
                    },
                }
            }
            assert(all.skip(0) =~= all);
            Some(total)
        },
        None => Some(0),
    }
}

/// Whether the counts of declined segments have room for all the entries.
pub open spec fn counts_fit(retained: RetainedReclaimable, segments: nat) -> bool {
    &&& retained.below_savings_gate + segments <= usize::MAX
    &&& retained.at_last_generation + segments <= usize::MAX
    &&& retained.blocked_by_occupied_generation + segments <= usize::MAX
}

/// How far a listing has come, read from its parts.
pub open spec fn state_of(
    actions: Seq<CompactionAction>,
    warnings: Seq<String>,
    totals: SweepListing,
) -> ListingState {
    ListingState { actions: plan::action_views(actions), warnings: text::texts(warnings), totals }
}

/// Lists what a sweep does to one archive, and why it keeps whatever it
/// declines to reclaim.
fn list_archive(
    sweep: &PlannedArchiveSweep,
    standalone: bool,
    actions: &mut Vec<CompactionAction>,
    warnings: &mut Vec<String>,
    totals: &mut SweepListing,
) -> (listed: Result<(), Error>)
    requires
        reclamation::has_room(old(totals).retained, *sweep),
    ensures
        ({
            let before = state_of(old(actions)@, old(warnings)@, *old(totals));
            let (after, fits) = after_archive(before, *sweep, standalone);
            &&& state_of(final(actions)@, final(warnings)@, *final(totals)) == after
            &&& listed is Ok <==> fits
            &&& !fits ==> (listed matches Err(error) && error.refuses(
                reclamation::overflow_text(),
            ))
        }),
{
    let ghost listed_before = plan::action_views(actions@);
    match sweep {
        PlannedArchiveSweep::Remove { file_name, segment_count, file_bytes } => {
            actions.push(
                CompactionAction::RemoveReclaimableArchive {
                    file_name: file_name.clone(),
                    segments: *segment_count,
                    bytes: *file_bytes,
                },
            );
            assert(plan::action_views(actions@) =~= listed_before.push(
                ActionView::RemoveReclaimableArchive {
                    file_name: file_name@,
                    segments: *segment_count,
                    bytes: *file_bytes,
                },
            ));
            add_estimate(&mut totals.reclaimable_bytes, *file_bytes)
        },
        PlannedArchiveSweep::Rewrite {
            file_name,
            replacement_name,
            segment_count,
            eligible_entry_bytes,
            source_file_bytes,
        } => {
            if standalone {
                add_estimate(&mut totals.rewrite_source_bytes, *source_file_bytes)?;
            }
            actions.push(
                CompactionAction::RewriteArchive {
                    file_name: file_name.clone(),
                    replacement_name: replacement_name.clone(),
                    segments: *segment_count,
                    eligible_bytes: *eligible_entry_bytes,
                },
            );
            assert(plan::action_views(actions@) =~= listed_before.push(
                ActionView::RewriteArchive {
                    file_name: file_name@,
                    replacement_name: replacement_name@,
                    segments: *segment_count,
                    eligible_bytes: *eligible_entry_bytes,
                },
            ));
            add_estimate(&mut totals.reclaimable_bytes, *eligible_entry_bytes)
        },
        declined => retained_reclaimable_from(declined, &mut totals.retained, warnings),
    }
}

/// Lists what a sweep does to each archive.
pub fn list_segment_plan_actions(
    plan: &SegmentCompactionPlan,
    standalone: bool,
    actions: &mut Vec<CompactionAction>,
    warnings: &mut Vec<String>,
    totals: &mut SweepListing,
) -> (listed: Result<(), Error>)
    requires
        counts_fit(old(totals).retained, total_segments(plan.archives@)),
    ensures
        ({
            let before = state_of(old(actions)@, old(warnings)@, *old(totals));
            let (after, fits) = after_archives(before, plan.archives@, standalone);
            &&& state_of(final(actions)@, final(warnings)@, *final(totals)) == after
            &&& listed is Ok <==> fits
            &&& !fits ==> (listed matches Err(error) && error.refuses(
                reclamation::overflow_text(),
            ))
        }),
{
    let ghost before = state_of(actions@, warnings@, *totals);
    let mut index: usize = 0;
    assert(plan.archives@.skip(0) =~= plan.archives@);
    while index < plan.archives.len()
        invariant
            index <= plan.archives@.len(),
            before == state_of(old(actions)@, old(warnings)@, *old(totals)),
            counts_fit(totals.retained, total_segments(plan.archives@.skip(index as int))),
            after_archives(before, plan.archives@, standalone) == after_archives(
                state_of(actions@, warnings@, *totals),
                plan.archives@.skip(index as int),
                standalone,
            ),
        decreases plan.archives@.len() - index,
    {
        proof {
            let rest = plan.archives@.skip(index as int);
            assert(rest[0] == plan.archives@[index as int]);
            assert(rest.drop_first() =~= plan.archives@.skip(index as int + 1));
        }
        list_archive(&plan.archives[index], standalone, actions, warnings, totals)?;
        index = index + 1;
    }
    Ok(())
}

/// The warning about scarce space.
pub open spec fn scarce_space_text() -> Seq<char> {
    "available filesystem space is below the cumulative source size of planned archive rewrites; cleanup remains prefix-safe on ENOSPC, but may need a rerun after space is freed"@
}

/// The warning about hard links.
pub open spec fn hard_link_text() -> Seq<char> {
    "archive rewrite publication requires same-directory hard-link support, which a read-only plan cannot preflight; an unsupported filesystem fails safely with the source archive intact"@
}

/// The archives of a sweep, none where there is no sweep.
pub open spec fn sweeps_of(plan: Option<SegmentCompactionPlan>) -> Seq<PlannedArchiveSweep> {
    match plan {
        Some(plan) => plan.archives@,
        None => Seq::empty(),
    }
}

/// The listing after both sweeps and the warnings about rewrites.
pub open spec fn after_sweeps(
    state: ListingState,
    predicted: Seq<PlannedArchiveSweep>,
    standalone: Seq<PlannedArchiveSweep>,
    available: Option<u64>,
) -> (ListingState, bool) {
    let (middle, fits) = after_archives(state, predicted, false);
    if !fits {
        (middle, false)
    } else {
        let (swept, fits) = after_archives(middle, standalone, true);
        if !fits || swept.totals.rewrite_source_bytes == 0 {
            (swept, fits)
        } else if available is Some && available->0 < swept.totals.rewrite_source_bytes {
            (swept.warning(scarce_space_text()).warning(hard_link_text()), true)
        } else {
            (swept.warning(hard_link_text()), true)
        }
    }
}

/// No bytes, and nothing declined.
pub open spec fn no_totals() -> SweepListing {
    SweepListing {
        reclaimable_bytes: 0,
        rewrite_source_bytes: 0,
        retained: RetainedReclaimable::nothing(),
    }
}

proof fn lemma_counts_grow(
    state: ListingState,
    sweeps: Seq<PlannedArchiveSweep>,
    standalone: bool,
    more: nat,
)
    requires
        counts_fit(state.totals.retained, total_segments(sweeps) + more),
    ensures
        counts_fit(after_archives(state, sweeps, standalone).0.totals.retained, more),
    decreases sweeps.len(),
{
    if sweeps.len() > 0 {
        let (next, fits) = after_archive(state, sweeps[0], standalone);
        if fits {
            lemma_counts_grow(next, sweeps.drop_first(), standalone, more);
        }
    }
}

/// Lists the archive rewrites and removals a run would perform: the ones a
/// compaction's own reclaim pass predicts, and the ones a standalone segment
/// plan names.
///
/// Warns where the filesystem may not have room for the rewrites, and where
/// publication's hard-link requirement cannot be preflighted.
pub fn list_sweep_actions(
    predicted_sweep: &Option<SegmentCompactionPlan>,
    segment_plan: &Option<SegmentCompactionPlan>,
    available_filesystem_bytes: Option<u64>,
    actions: &mut Vec<CompactionAction>,
    warnings: &mut Vec<String>,
) -> (listed: Result<SweepListing, Error>)
    requires
        total_segments(sweeps_of(*predicted_sweep)) + total_segments(sweeps_of(*segment_plan))
            <= usize::MAX,
    ensures
        ({
            let before = state_of(old(actions)@, old(warnings)@, no_totals());
            let (after, fits) = after_sweeps(
                before,
                sweeps_of(*predicted_sweep),
                sweeps_of(*segment_plan),
                available_filesystem_bytes,
            );
            &&& plan::action_views(final(actions)@) == after.actions
            &&& text::texts(final(warnings)@) == after.warnings
            &&& match listed {
                Ok(totals) => fits && totals == after.totals,
                Err(error) => !fits && error.refuses(reclamation::overflow_text()),
            }
        }),
{
    let ghost before = state_of(actions@, warnings@, no_totals());
    let ghost predicted = sweeps_of(*predicted_sweep);
    let ghost standalone = sweeps_of(*segment_plan);
    let mut totals = SweepListing {
        reclaimable_bytes: 0,
        rewrite_source_bytes: 0,
        retained: RetainedReclaimable::default(),
    };
    proof {
        lemma_counts_grow(before, predicted, false, total_segments(standalone));
    }
    match predicted_sweep {
        Some(plan) => {
            list_segment_plan_actions(plan, false, actions, warnings, &mut totals)?;
        },
        None => {},
    }
    assert(state_of(actions@, warnings@, totals) == after_archives(before, predicted, false).0);
    match segment_plan {
        Some(plan) => {
            list_segment_plan_actions(plan, true, actions, warnings, &mut totals)?;
        },
        None => {},
    }
    let ghost swept = state_of(actions@, warnings@, totals);
    if totals.rewrite_source_bytes != 0 {
        let scarce = match available_filesystem_bytes {
            Some(available) => available < totals.rewrite_source_bytes,
            None => false,
        };
        if scarce {
            warnings.push(
                String::from_str(
                    "available filesystem space is below the cumulative source size of planned archive rewrites; cleanup remains prefix-safe on ENOSPC, but may need a rerun after space is freed",
                ),
            );
            assert(text::texts(warnings@) =~= swept.warnings.push(scarce_space_text()));
        }
        let ghost warned = text::texts(warnings@);
        warnings.push(
            String::from_str(
                "archive rewrite publication requires same-directory hard-link support, which a read-only plan cannot preflight; an unsupported filesystem fails safely with the source archive intact",
            ),
        );
        assert(text::texts(warnings@) =~= warned.push(hard_link_text()));
    }
    Ok(totals)
}

/// How the removal of a staging file is listed.
pub open spec fn temporary_action(removal: PlannedFileRemoval) -> ActionView {
    ActionView::RemoveTemporary { file_name: removal.file_name@, bytes: removal.bytes }
}

/// How the removal of a recovery backup is listed.
pub open spec fn backup_action(removal: PlannedFileRemoval) -> ActionView {
    ActionView::RemoveRecoveryBackup { file_name: removal.file_name@, bytes: removal.bytes }
}

/// How the removal of a stale archive is listed.
pub open spec fn stale_action(stale: StaleArchive) -> ActionView {
    ActionView::RemoveStaleArchive {
        file_name: stale.file_name@,
        reason: stale.reason,
        bytes: stale.bytes,
    }
}

/// The listing after files of known sizes, up to the first overflow.
pub open spec fn after_files(state: ListingState, files: Seq<(ActionView, u64)>) -> (
    ListingState,
    bool,
)
    decreases files.len(),
{
    if files.len() == 0 {
        (state, true)
    } else {
        let (next, fits) = state.listing(files[0].0).freeing(files[0].1);
        if fits {
            after_files(next, files.drop_first())
        } else {
            (next, false)
        }
    }
}

/// Staging files with their sizes.
pub open spec fn temporary_entries(removals: Seq<PlannedFileRemoval>) -> Seq<(ActionView, u64)> {
    removals.map_values(|removal: PlannedFileRemoval| (temporary_action(removal), removal.bytes))
}

/// Recovery backups with their sizes.
pub open spec fn backup_entries(removals: Seq<PlannedFileRemoval>) -> Seq<(ActionView, u64)> {
    removals.map_values(|removal: PlannedFileRemoval| (backup_action(removal), removal.bytes))
}

/// Stale archives with their sizes.
pub open spec fn stale_entries(archives: Seq<StaleArchive>) -> Seq<(ActionView, u64)> {
    archives.map_values(|stale: StaleArchive| (stale_action(stale), stale.bytes))
}

/// The listing with a running total of freed bytes.
pub open spec fn with_freed(
    actions: Seq<CompactionAction>,
    warnings: Seq<Seq<char>>,
    freed: u64,
) -> ListingState {
    ListingState {
        actions: plan::action_views(actions),
        warnings,
        totals: SweepListing { reclaimable_bytes: freed, ..no_totals() },
    }
}

/// Lists one file removal and charges its bytes.
fn list_file(
    action: CompactionAction,
    bytes: u64,
    actions: &mut Vec<CompactionAction>,
    freed: &mut u64,
) -> (listed: Result<(), Error>)
    ensures
        ({
            let before = with_freed(old(actions)@, Seq::empty(), *old(freed));
            let (after, fits) = before.listing(action@).freeing(bytes);
            &&& with_freed(final(actions)@, Seq::empty(), *final(freed)) == after
            &&& listed is Ok <==> fits
            &&& !fits ==> (listed matches Err(error) && error.refuses(
                reclamation::overflow_text(),
            ))
        }),
{
    let ghost listed_before = plan::action_views(actions@);
    let ghost view = action@;
    actions.push(action);
    assert(plan::action_views(actions@) =~= listed_before.push(view));
    add_estimate(freed, bytes)
}

proof fn lemma_files_split(state: ListingState, first: Seq<(ActionView, u64)>, second: Seq<
    (ActionView, u64),
>)
    ensures
        after_files(state, first + second) == {
            let (middle, fits) = after_files(state, first);
            if fits {
                after_files(middle, second)
            } else {
                (middle, false)
            }
        },
    decreases first.len(),
{
    if first.len() == 0 {
        assert(first + second =~= second);
    } else {
        let (next, fits) = state.listing(first[0].0).freeing(first[0].1);
        assert((first + second).drop_first() =~= first.drop_first() + second);
        if fits {
            lemma_files_split(next, first.drop_first(), second);
        }
    }
}

/// Lists the leftover files a run would remove, charging their bytes to the
/// reclaimable estimate.
pub fn list_file_removal_actions(
    temporaries: &Vec<PlannedFileRemoval>,
    recovery_backups: &Vec<PlannedFileRemoval>,
    actions: &mut Vec<CompactionAction>,
    estimated_reclaimable_bytes: &mut u64,
) -> (listed: Result<(), Error>)
    ensures
        ({
            let before = with_freed(old(actions)@, Seq::empty(), *old(estimated_reclaimable_bytes));
            let (after, fits) = after_files(
                before,
                temporary_entries(temporaries@) + backup_entries(recovery_backups@),
            );
            &&& with_freed(final(actions)@, Seq::empty(), *final(estimated_reclaimable_bytes))
                == after
            &&& listed is Ok <==> fits
            &&& !fits ==> (listed matches Err(error) && error.refuses(
                reclamation::overflow_text(),
            ))
        }),
{
    let ghost before = with_freed(actions@, Seq::empty(), *estimated_reclaimable_bytes);
    let ghost first = temporary_entries(temporaries@);
    let ghost second = backup_entries(recovery_backups@);
    proof {
        lemma_files_split(before, first, second);
        assert(first.skip(0) =~= first);
        assert(second.skip(0) =~= second);
    }
    let mut index: usize = 0;
    while index < temporaries.len()
        invariant
            index <= temporaries@.len(),
            first == temporary_entries(temporaries@),
            second == backup_entries(recovery_backups@),
            before == with_freed(
                old(actions)@,
                Seq::empty(),
                *old(estimated_reclaimable_bytes),
            ),
            after_files(before, first) == after_files(
                with_freed(actions@, Seq::empty(), *estimated_reclaimable_bytes),
                first.skip(index as int),
            ),
            after_files(before, first + second) == ({
                let (middle, fits) = after_files(before, first);
                if fits {
                    after_files(middle, second)
                } else {
                    (middle, false)
                }
            }),
        decreases temporaries@.len() - index,
    {
        let temporary = &temporaries[index];
        let action = CompactionAction::RemoveTemporary {
            file_name: temporary.file_name.clone(),
            bytes: temporary.bytes,
        };
        proof {
            let rest = first.skip(index as int);
            assert(rest[0] == (temporary_action(*temporary), temporary.bytes));
            assert(rest.drop_first() =~= first.skip(index as int + 1));
        }
        list_file(action, temporary.bytes, actions, estimated_reclaimable_bytes)?;
        index = index + 1;
    }
    let ghost middle = with_freed(actions@, Seq::empty(), *estimated_reclaimable_bytes);
    assert(first.skip(index as int) =~= Seq::empty());
    assert(after_files(before, first + second) == after_files(middle, second));
    let mut position: usize = 0;
    while position < recovery_backups.len()
        invariant
            position <= recovery_backups@.len(),
            second == backup_entries(recovery_backups@),
            before == with_freed(
                old(actions)@,
                Seq::empty(),
                *old(estimated_reclaimable_bytes),
            ),
            first == temporary_entries(temporaries@),
            after_files(before, first + second) == after_files(
                with_freed(actions@, Seq::empty(), *estimated_reclaimable_bytes),
                second.skip(position as int),
            ),
        decreases recovery_backups@.len() - position,
    {
        let backup = &recovery_backups[position];
        let action = CompactionAction::RemoveRecoveryBackup {
            file_name: backup.file_name.clone(),
            bytes: backup.bytes,
        };
        proof {
            let rest = second.skip(position as int);
            assert(rest[0] == (backup_action(*backup), backup.bytes));
            assert(rest.drop_first() =~= second.skip(position as int + 1));
        }
        list_file(action, backup.bytes, actions, estimated_reclaimable_bytes)?;
        position = position + 1;
    }
    assert(second.skip(position as int) =~= Seq::empty());
    Ok(())
}

/// Lists the stale archives a run would remove, charging their bytes.
fn list_stale_archives(
    stale_archives: &Vec<StaleArchive>,
    actions: &mut Vec<CompactionAction>,
    freed: &mut u64,
) -> (listed: Result<(), Error>)
    ensures
        ({
            let before = with_freed(old(actions)@, Seq::empty(), *old(freed));
            let (after, fits) = after_files(before, stale_entries(stale_archives@));
            &&& with_freed(final(actions)@, Seq::empty(), *final(freed)) == after
            &&& listed is Ok <==> fits
            &&& !fits ==> (listed matches Err(error) && error.refuses(
                reclamation::overflow_text(),
            ))
        }),
{
    let ghost before = with_freed(actions@, Seq::empty(), *freed);
    let ghost entries = stale_entries(stale_archives@);
    assert(entries.skip(0) =~= entries);
    let mut index: usize = 0;
    while index < stale_archives.len()
        invariant
            index <= stale_archives@.len(),
            entries == stale_entries(stale_archives@),
            before == with_freed(old(actions)@, Seq::empty(), *old(freed)),
            after_files(before, entries) == after_files(
                with_freed(actions@, Seq::empty(), *freed),
                entries.skip(index as int),
            ),
        decreases stale_archives@.len() - index,
    {
        let stale = &stale_archives[index];
        let action = CompactionAction::RemoveStaleArchive {
            file_name: stale.file_name.clone(),
            reason: stale.reason,
            bytes: stale.bytes,
        };
        proof {
            let rest = entries.skip(index as int);
            assert(rest[0] == (stale_action(*stale), stale.bytes));
            assert(rest.drop_first() =~= entries.skip(index as int + 1));
        }
        list_file(action, stale.bytes, actions, freed)?;
        index = index + 1;
    }
    assert(entries.skip(index as int) =~= Seq::empty());
    Ok(())
}

/// The actions that move the head: checkpoint removal, and what becomes of the
/// journal.
///
/// A copy retires every revision, whether or not it still resolves; without a
/// copy only the lines that the journal task prunes go.
pub open spec fn head_moving_actions(
    prunes_journal: bool,
    copies: bool,
    checkpoints: CheckpointPlan,
    journal: JournalPlan,
    journal_lines: usize,
) -> Seq<ActionView> {
    let removal = if checkpoints.names@.len() == 0 {
        Seq::empty()
    } else {
        seq![
            ActionView::RemoveCheckpoints {
                names: text::texts(checkpoints.names@),
                expired: checkpoints.expired,
                unreferenced: checkpoints.unreferenced,
            },
        ]
    };
    if copies {
        removal.push(ActionView::RetireJournalHistory { revisions: journal_lines })
    } else if prunes_journal && journal.removed_lines != 0 {
        removal.push(
            ActionView::PruneJournal {
                lines: journal.removed_lines,
                parser_ignored: journal.parser_ignored,
                missing_segments: journal.missing_segments,
                unreadable_revisions: journal.unreadable_revisions,
                beyond_retention: journal.beyond_retention,
            },
        )
    } else {
        removal
    }
}

/// Lists the actions that move the head.
pub fn list_head_moving_actions(
    options: &CompactionOptions,
    effective_compaction_kind: Option<CompactionKind>,
    checkpoints: &CheckpointPlan,
    journal: &JournalPlan,
    journal_lines: usize,
    actions: &mut Vec<CompactionAction>,
)
    ensures
        plan::action_views(final(actions)@) == plan::action_views(old(actions)@)
            + head_moving_actions(
            options@.tasks.contains(MaintenanceTask::Journal),
            effective_compaction_kind is Some,
            *checkpoints,
            *journal,
            journal_lines,
        ),
{
    let ghost before = plan::action_views(actions@);
    if checkpoints.names.len() != 0 {
        actions.push(
            CompactionAction::RemoveCheckpoints {
                names: copy_strings(&checkpoints.names),
                expired: checkpoints.expired,
                unreferenced: checkpoints.unreferenced,
            },
        );
    }
    let ghost middle = plan::action_views(actions@);
    assert(middle =~= before + head_moving_actions(
        false,
        false,
        *checkpoints,
        *journal,
        journal_lines,
    ));
    if effective_compaction_kind.is_some() {
        actions.push(CompactionAction::RetireJournalHistory { revisions: journal_lines });
    } else if options.contains(MaintenanceTask::Journal) && journal.removed_lines != 0 {
        actions.push(
            CompactionAction::PruneJournal {
                lines: journal.removed_lines,
                parser_ignored: journal.parser_ignored,
                missing_segments: journal.missing_segments,
                unreadable_revisions: journal.unreadable_revisions,
                beyond_retention: journal.beyond_retention,
            },
        );
    }
    assert(plan::action_views(actions@) =~= before + head_moving_actions(
        options@.tasks.contains(MaintenanceTask::Journal),
        effective_compaction_kind is Some,
        *checkpoints,
        *journal,
        journal_lines,
    ));
}

/// The actions that come before any sweep: the repairs that everything else
/// waits for, the manifest, the residue, the purge, and the copy.
pub open spec fn leading_actions(
    pending_repairs: Seq<CompactionAction>,
    manifest_upgrade: bool,
    residue: Option<usize>,
    purge: Option<(u64, u64, u64)>,
    copy: Option<ActionView>,
) -> Seq<ActionView> {
    plan::action_views(pending_repairs) + (if manifest_upgrade {
        seq![ActionView::UpgradeManifest]
    } else {
        Seq::empty()
    }) + (match residue {
        Some(segments) => seq![ActionView::RetireInterruptedCompactionResidue { segments }],
        None => Seq::empty(),
    }) + (match purge {
        Some((histories, nodes, retained_checkpoints)) => seq![
            ActionView::PurgeOrphanedVersionHistories { histories, nodes, retained_checkpoints },
        ],
        None => Seq::empty(),
    }) + (match copy {
        Some(action) => seq![action],
        None => Seq::empty(),
    })
}

/// The copy that a run performs, as an action.
pub open spec fn copy_action(work: SegmentWork, head_nodes: u64) -> Option<ActionView> {
    match work.effective_compaction_kind {
        Some(kind) => Some(
            ActionView::CopyHeadIntoFreshGeneration {
                head_nodes,
                target_generation: reclamation::target_generation(work.reference_generation, kind),
                kind,
            },
        ),
        None => None,
    }
}

/// Lists the actions that come before any sweep.
fn list_leading_actions(findings: &PlanFindings<'_>) -> (actions: Vec<CompactionAction>)
    ensures
        plan::action_views(actions@) == leading_actions(
            findings.state.pending_repairs@,
            findings.manifest_upgrade,
            if findings.segment_work.residue_sweep is Some {
                Some(findings.segment_work.residue_segments)
            } else {
                None
            },
            findings.version_history_purge,
            copy_action(*findings.segment_work, findings.head_nodes),
        ),
{
    let repairs = &findings.state.pending_repairs;
    let work = findings.segment_work;
    let mut actions: Vec<CompactionAction> = Vec::new();
    let mut index: usize = 0;
    assert(plan::action_views(actions@) =~= plan::action_views(repairs@).take(0));
    while index < repairs.len()
        invariant
            index <= repairs@.len(),
            plan::action_views(actions@) == plan::action_views(repairs@).take(index as int),
        decreases repairs@.len() - index,
    {
        let ghost before = plan::action_views(actions@);
        actions.push(repairs[index].copy());
        assert(plan::action_views(actions@) =~= before.push(repairs@[index as int]@));
        assert(plan::action_views(repairs@).take(index as int + 1) =~= before.push(
            repairs@[index as int]@,
        ));
        index = index + 1;
    }
    assert(plan::action_views(actions@) =~= plan::action_views(repairs@));
    if findings.manifest_upgrade {
        actions.push(CompactionAction::UpgradeManifest);
    }
    if work.residue_sweep.is_some() {
        actions.push(
            CompactionAction::RetireInterruptedCompactionResidue { segments: work.residue_segments },
        );
    }
    match findings.version_history_purge {
        Some((histories, nodes, retained_checkpoints)) => {
            actions.push(
                CompactionAction::PurgeOrphanedVersionHistories {
                    histories,
                    nodes,
                    retained_checkpoints,
                },
            );
        },
        None => {},
    }
    match work.effective_compaction_kind {
        Some(kind) => {
            actions.push(
                CompactionAction::CopyHeadIntoFreshGeneration {
                    head_nodes: findings.head_nodes,
                    target_generation: compaction_target_generation(
                        work.reference_generation,
                        kind,
                    ),
                    kind,
                },
            );
        },
        None => {},
    }
    assert(plan::action_views(actions@) =~= leading_actions(
        repairs@,
        findings.manifest_upgrade,
        if work.residue_sweep is Some {
            Some(work.residue_segments)
        } else {
            None
        },
        findings.version_history_purge,
        copy_action(*work, findings.head_nodes),
    ));
    actions
}

/// The whole listing: what comes before the sweeps, the sweeps, the stale
/// archives, the head, and the leftover files, up to the first overflow.
pub open spec fn full_listing(
    findings: PlanFindings<'_>,
    warnings: Seq<Seq<char>>,
    journal_lines: usize,
) -> (ListingState, bool) {
    let work = *findings.segment_work;
    let leading = ListingState {
        actions: leading_actions(
            findings.state.pending_repairs@,
            findings.manifest_upgrade,
            if work.residue_sweep is Some {
                Some(work.residue_segments)
            } else {
                None
            },
            findings.version_history_purge,
            copy_action(work, findings.head_nodes),
        ),
        warnings,
        totals: no_totals(),
    };
    let (swept, fits) = after_sweeps(
        leading,
        sweeps_of(work.predicted_sweep),
        sweeps_of(work.segment_plan),
        findings.available_filesystem_bytes,
    );
    if !fits {
        (swept, false)
    } else {
        let (staled, fits) = after_files(swept, stale_entries(work.stale_archives@));
        if !fits {
            (staled, false)
        } else {
            let moved = ListingState {
                actions: staled.actions + head_moving_actions(
                    findings.options@.tasks.contains(MaintenanceTask::Journal),
                    work.effective_compaction_kind is Some,
                    findings.state.checkpoints,
                    findings.state.journal_analysis.plan,
                    journal_lines,
                ),
                ..staled
            };
            after_files(
                moved,
                temporary_entries(findings.temporaries@) + backup_entries(
                    findings.recovery_backups@,
                ),
            )
        }
    }
}

/// Listing files neither warns nor touches what the sweeps accounted for.
proof fn lemma_files_keep(state: ListingState, other: ListingState, files: Seq<(ActionView, u64)>)
    requires
        state.actions == other.actions,
        state.totals.reclaimable_bytes == other.totals.reclaimable_bytes,
    ensures
        ({
            let (left, left_fits) = after_files(state, files);
            let (right, right_fits) = after_files(other, files);
            &&& left_fits == right_fits
            &&& left.actions == right.actions
            &&& left.totals.reclaimable_bytes == right.totals.reclaimable_bytes
            &&& left.warnings == state.warnings
            &&& left.totals.rewrite_source_bytes == state.totals.rewrite_source_bytes
            &&& left.totals.retained == state.totals.retained
        }),
    decreases files.len(),
{
    if files.len() > 0 {
        let (left, fits) = state.listing(files[0].0).freeing(files[0].1);
        let (right, _) = other.listing(files[0].0).freeing(files[0].1);
        if fits {
            lemma_files_keep(left, right, files.drop_first());
        }
    }
}

/// Turns what planning found into the actions it will take, accumulating the
/// byte estimates and the retained-reclaimable accounting as it goes.
///
/// Warnings are appended rather than returned: the caller keeps its own copy
/// so a failure after this point still carries them out.
pub fn list_planned_actions(findings: &PlanFindings<'_>, warnings: &mut Vec<String>) -> (listed:
    Result<PlanListing, Error>)
    requires
        total_segments(sweeps_of(findings.segment_work.predicted_sweep)) + total_segments(
            sweeps_of(findings.segment_work.segment_plan),
        ) <= usize::MAX,
    ensures
        ({
            let (after, fits) = full_listing(
                *findings,
                text::texts(old(warnings)@),
                findings.state.raw_journal.listed().len() as usize,
            );
            &&& text::texts(final(warnings)@) == after.warnings
            &&& match listed {
                Ok(listing) => {
                    &&& fits
                    &&& plan::action_views(listing.actions@) == after.actions
                    &&& listing.estimated_reclaimable_bytes == after.totals.reclaimable_bytes
                    &&& listing.estimated_archive_rewrite_source_bytes
                        == after.totals.rewrite_source_bytes
                    &&& listing.retained_reclaimable == after.totals.retained
                },
                Err(error) => !fits && error.refuses(reclamation::overflow_text()),
            }
        }),
{
    let work = findings.segment_work;
    let state = findings.state;
    let ghost warned_before = text::texts(warnings@);
    let mut actions = list_leading_actions(findings);
    let sweeps = list_sweep_actions(
        &work.predicted_sweep,
        &work.segment_plan,
        findings.available_filesystem_bytes,
        &mut actions,
        warnings,
    )?;
    let ghost swept = state_of(actions@, warnings@, sweeps);
    let mut estimated_reclaimable_bytes: u64 = sweeps.reclaimable_bytes;
    proof {
        lemma_files_keep(
            swept,
            with_freed(actions@, Seq::empty(), estimated_reclaimable_bytes),
            stale_entries(work.stale_archives@),
        );
    }
    list_stale_archives(&work.stale_archives, &mut actions, &mut estimated_reclaimable_bytes)?;
    let ghost staled = after_files(swept, stale_entries(work.stale_archives@)).0;
    list_head_moving_actions(
        findings.options,
        work.effective_compaction_kind,
        &state.checkpoints,
        &state.journal_analysis.plan,
        state.raw_journal.lines().len(),
        &mut actions,
    );
    proof {
        let moved = ListingState { actions: plan::action_views(actions@), ..staled };
        lemma_files_keep(
            moved,
            with_freed(actions@, Seq::empty(), estimated_reclaimable_bytes),
            temporary_entries(findings.temporaries@) + backup_entries(findings.recovery_backups@),
        );
    }
    list_file_removal_actions(
        findings.temporaries,
        findings.recovery_backups,
        &mut actions,
        &mut estimated_reclaimable_bytes,
    )?;
    Ok(
        PlanListing {
            actions,
            estimated_reclaimable_bytes,
            estimated_archive_rewrite_source_bytes: sweeps.rewrite_source_bytes,
            retained_reclaimable: sweeps.retained,
        },
    )
}

} // verus!
