//! What an operator confirms: every action in its place, and the figures beside
//! them.
use vstd::prelude::*;
use vstd::string::*;
use crate::identifier::{CompactionKind, GarbageCollectionGeneration};
use crate::journal::analysis::JournalPlan;
use crate::plan;
use crate::plan::{ActionView, CompactionAction};
use crate::planning::assembly;
use crate::planning::laws as listed;
use crate::planning::listing;
use crate::planning::listing::{ListingState, PlanFindings};
use crate::planning::{CheckpointPlan, PlannedArchiveSweep, SegmentWork};
use crate::reclamation;
use crate::text;

verus! {

/// The actions of some archives, in order: one for each that a sweep removes or
/// rewrites.
pub open spec fn sweep_actions(sweeps: Seq<PlannedArchiveSweep>) -> Seq<ActionView>
    decreases sweeps.len(),
{
    if sweeps.len() == 0 {
        Seq::empty()
    } else {
        (match sweeps[0] {
            PlannedArchiveSweep::Remove { file_name, segment_count, file_bytes } => seq![
                ActionView::RemoveReclaimableArchive {
                    file_name: file_name@,
                    segments: segment_count,
                    bytes: file_bytes,
                },
            ],
            PlannedArchiveSweep::Rewrite {
                file_name,
                replacement_name,
                segment_count,
                eligible_entry_bytes,
                ..
            } => seq![
                ActionView::RewriteArchive {
                    file_name: file_name@,
                    replacement_name: replacement_name@,
                    segments: segment_count,
                    eligible_bytes: eligible_entry_bytes,
                },
            ],
            _ => Seq::empty(),
        }) + sweep_actions(sweeps.drop_first())
    }
}

/// The bytes that a sweep entry frees.
pub open spec fn freed_bytes(sweep: PlannedArchiveSweep) -> nat {
    match sweep {
        PlannedArchiveSweep::Remove { file_bytes, .. } => file_bytes as nat,
        PlannedArchiveSweep::Rewrite { eligible_entry_bytes, .. } => eligible_entry_bytes as nat,
        _ => 0,
    }
}

/// The size of an archive that a sweep entry rewrites.
pub open spec fn rewritten_size(sweep: PlannedArchiveSweep) -> nat {
    match sweep {
        PlannedArchiveSweep::Rewrite { source_file_bytes, .. } => source_file_bytes as nat,
        _ => 0,
    }
}

/// The bytes that a sweep entry could free and leaves.
pub open spec fn left_bytes(sweep: PlannedArchiveSweep) -> nat {
    match sweep {
        PlannedArchiveSweep::DeferredBySavings { eligible_entry_bytes, .. } =>
            eligible_entry_bytes as nat,
        PlannedArchiveSweep::DeferredAtLastGeneration { eligible_entry_bytes, .. } =>
            eligible_entry_bytes as nat,
        PlannedArchiveSweep::BlockedByOccupiedGeneration { eligible_entry_bytes, .. } =>
            eligible_entry_bytes as nat,
        _ => 0,
    }
}

/// A figure of some archives added up.
pub open spec fn total(
    sweeps: Seq<PlannedArchiveSweep>,
    figure: spec_fn(PlannedArchiveSweep) -> nat,
) -> nat
    decreases sweeps.len(),
{
    if sweeps.len() == 0 {
        0
    } else {
        figure(sweeps[0]) + total(sweeps.drop_first(), figure)
    }
}

/// How many segments an entry leaves for want of savings.
pub open spec fn left_by_savings(sweep: PlannedArchiveSweep) -> nat {
    match sweep {
        PlannedArchiveSweep::DeferredBySavings { segment_count, .. } => segment_count as nat,
        _ => 0,
    }
}

/// How many segments an entry leaves for want of a further letter.
pub open spec fn left_at_last(sweep: PlannedArchiveSweep) -> nat {
    match sweep {
        PlannedArchiveSweep::DeferredAtLastGeneration { segment_count, .. } =>
            segment_count as nat,
        _ => 0,
    }
}

/// How many segments an entry leaves because a name is taken.
pub open spec fn left_by_occupied(sweep: PlannedArchiveSweep) -> nat {
    match sweep {
        PlannedArchiveSweep::BlockedByOccupiedGeneration { segment_count, .. } =>
            segment_count as nat,
        _ => 0,
    }
}

/// How many warnings an entry gives.
pub open spec fn warned(sweep: PlannedArchiveSweep) -> nat {
    match sweep {
        PlannedArchiveSweep::Remove { .. } => 0,
        PlannedArchiveSweep::Rewrite { .. } => 0,
        _ => 1,
    }
}

/// A sweep is listed archive by archive: an action for each that it removes or
/// rewrites, a warning for each that it leaves, and totals that are sums over the
/// archives. The size of rewritten archives counts only for a sweep without a copy.
pub proof fn law_a_sweep_is_listed_archive_by_archive(
    state: ListingState,
    sweeps: Seq<PlannedArchiveSweep>,
    standalone: bool,
)
    requires
        state.totals.reclaimable_bytes + total(
            sweeps,
            |sweep: PlannedArchiveSweep| freed_bytes(sweep),
        ) <= 0xffff_ffff_ffff_ffff,
        state.totals.rewrite_source_bytes + total(
            sweeps,
            |sweep: PlannedArchiveSweep| rewritten_size(sweep),
        ) <= 0xffff_ffff_ffff_ffff,
        state.totals.retained.bytes + total(
            sweeps,
            |sweep: PlannedArchiveSweep| left_bytes(sweep),
        ) <= 0xffff_ffff_ffff_ffff,
        listing::counts_fit(state.totals.retained, listing::total_segments(sweeps)),
    ensures
        ({
            let (after, fits) = listing::after_archives(state, sweeps, standalone);
            &&& fits
            &&& after.actions == state.actions + sweep_actions(sweeps)
            &&& after.totals.reclaimable_bytes == state.totals.reclaimable_bytes + total(
                sweeps,
                |sweep: PlannedArchiveSweep| freed_bytes(sweep),
            )
            &&& after.totals.rewrite_source_bytes == state.totals.rewrite_source_bytes + (
            if standalone {
                total(sweeps, |sweep: PlannedArchiveSweep| rewritten_size(sweep))
            } else {
                0
            })
            &&& after.totals.retained.bytes == state.totals.retained.bytes + total(
                sweeps,
                |sweep: PlannedArchiveSweep| left_bytes(sweep),
            )
            &&& after.totals.retained.below_savings_gate
                == state.totals.retained.below_savings_gate + total(
                sweeps,
                |sweep: PlannedArchiveSweep| left_by_savings(sweep),
            )
            &&& after.totals.retained.at_last_generation
                == state.totals.retained.at_last_generation + total(
                sweeps,
                |sweep: PlannedArchiveSweep| left_at_last(sweep),
            )
            &&& after.totals.retained.blocked_by_occupied_generation
                == state.totals.retained.blocked_by_occupied_generation + total(
                sweeps,
                |sweep: PlannedArchiveSweep| left_by_occupied(sweep),
            )
            &&& after.warnings.len() == state.warnings.len() + total(
                sweeps,
                |sweep: PlannedArchiveSweep| warned(sweep),
            )
            &&& state.warnings.is_prefix_of(after.warnings)
        }),
    decreases sweeps.len(),
{
    if sweeps.len() == 0 {
        assert(state.actions + sweep_actions(sweeps) =~= state.actions);
    } else {
        let (next, fits) = listing::after_archive(state, sweeps[0], standalone);
        let rest = sweeps.drop_first();
        lemma_one_archive(state, sweeps[0], standalone);
        law_a_sweep_is_listed_archive_by_archive(next, rest, standalone);
        let own = sweep_actions(seq![sweeps[0]]);
        assert(seq![sweeps[0]].drop_first() =~= Seq::empty());
        assert(sweep_actions(seq![sweeps[0]].drop_first()) =~= Seq::empty());
        assert(next.actions =~= state.actions + own);
        assert(sweep_actions(sweeps) =~= own + sweep_actions(rest));
        assert(state.actions + own + sweep_actions(rest) =~= state.actions + sweep_actions(sweeps));
    }
}

proof fn lemma_one_archive(state: ListingState, sweep: PlannedArchiveSweep, standalone: bool)
    requires
        state.totals.reclaimable_bytes + freed_bytes(sweep) <= 0xffff_ffff_ffff_ffff,
        state.totals.rewrite_source_bytes + rewritten_size(sweep) <= 0xffff_ffff_ffff_ffff,
        state.totals.retained.bytes + left_bytes(sweep) <= 0xffff_ffff_ffff_ffff,
        listing::counts_fit(state.totals.retained, reclamation::swept_segments(sweep) as nat),
    ensures
        ({
            let (after, fits) = listing::after_archive(state, sweep, standalone);
            &&& fits
            &&& after.actions == state.actions + sweep_actions(seq![sweep])
            &&& after.totals.reclaimable_bytes == state.totals.reclaimable_bytes + freed_bytes(
                sweep,
            )
            &&& after.totals.rewrite_source_bytes == state.totals.rewrite_source_bytes + (
            if standalone {
                rewritten_size(sweep)
            } else {
                0
            })
            &&& after.totals.retained.bytes == state.totals.retained.bytes + left_bytes(sweep)
            &&& after.totals.retained.below_savings_gate
                == state.totals.retained.below_savings_gate + left_by_savings(sweep)
            &&& after.totals.retained.at_last_generation
                == state.totals.retained.at_last_generation + left_at_last(sweep)
            &&& after.totals.retained.blocked_by_occupied_generation
                == state.totals.retained.blocked_by_occupied_generation + left_by_occupied(sweep)
            &&& after.warnings.len() == state.warnings.len() + warned(sweep)
            &&& state.warnings.is_prefix_of(after.warnings)
        }),
{
    let own = seq![sweep];
    let (after, fits) = listing::after_archive(state, sweep, standalone);
    assert(own.drop_first() =~= Seq::empty());
    assert(sweep_actions(own.drop_first()) =~= Seq::empty());
    match sweep {
        PlannedArchiveSweep::Remove { file_name, segment_count, file_bytes } => {
            assert(after.actions =~= state.actions + sweep_actions(own));
        },
        PlannedArchiveSweep::Rewrite { .. } => {
            assert(after.actions =~= state.actions + sweep_actions(own));
        },
        _ => {
            assert(after.actions =~= state.actions + sweep_actions(own));
        },
    }
}

/// A warning about an archive that is left names the archive, the segments and bytes
/// that it could have freed, and why it does not.
pub proof fn law_a_declined_archive_is_named_with_its_reason(sweep: PlannedArchiveSweep)
    ensures
        match sweep {
            PlannedArchiveSweep::DeferredBySavings {
                file_name,
                segment_count,
                eligible_size,
                ..
            } => reclamation::declined_text(sweep) == file_name@ + ": "@ + text::decimal(
                segment_count as nat,
            ) + " reclaimable segments ("@ + eligible_size@ + ") retained because "@
                + "savings do not exceed Oak's 25% rewrite gate"@,
            PlannedArchiveSweep::DeferredAtLastGeneration {
                file_name,
                segment_count,
                eligible_size,
                ..
            } => reclamation::declined_text(sweep) == file_name@ + ": "@ + text::decimal(
                segment_count as nat,
            ) + " reclaimable segments ("@ + eligible_size@ + ") retained because "@
                + "archive generation z cannot be rewritten"@,
            PlannedArchiveSweep::BlockedByOccupiedGeneration {
                file_name,
                occupied_name,
                segment_count,
                eligible_size,
                ..
            } => reclamation::declined_text(sweep) == file_name@ + ": "@ + text::decimal(
                segment_count as nat,
            ) + " reclaimable segments ("@ + eligible_size@ + ") retained because "@
                + occupied_name@ + " already exists"@,
            _ => true,
        },
{
}

/// A running total grows by what is charged to it, or refuses what does not fit.
pub proof fn law_a_charge_adds_or_refuses(sum: u64, amount: u64)
    ensures
        match reclamation::charged(sum, amount) {
            Some(after) => after == sum + amount,
            None => sum + amount > 0xffff_ffff_ffff_ffff,
        },
{
}

/// The actions of some files, in order.
pub open spec fn file_actions(files: Seq<(ActionView, u64)>) -> Seq<ActionView> {
    files.map_values(|file: (ActionView, u64)| file.0)
}

proof fn lemma_files(state: ListingState, files: Seq<(ActionView, u64)>)
    requires
        listing::after_files(state, files).1,
    ensures
        listing::after_files(state, files).0.actions == state.actions + file_actions(files),
    decreases files.len(),
{
    if files.len() == 0 {
        assert(state.actions + file_actions(files) =~= state.actions);
    } else {
        let (next, fits) = state.listing(files[0].0).freeing(files[0].1);
        let rest = files.drop_first();
        lemma_files(next, rest);
        assert(file_actions(files) =~= seq![files[0].0] + file_actions(rest));
        assert(state.actions.push(files[0].0) + file_actions(rest) =~= state.actions
            + file_actions(files));
    }
}

proof fn lemma_archive_actions(
    state: ListingState,
    sweeps: Seq<PlannedArchiveSweep>,
    standalone: bool,
)
    requires
        listing::after_archives(state, sweeps, standalone).1,
    ensures
        listing::after_archives(state, sweeps, standalone).0.actions == state.actions
            + sweep_actions(sweeps),
    decreases sweeps.len(),
{
    if sweeps.len() == 0 {
        assert(state.actions + sweep_actions(sweeps) =~= state.actions);
    } else {
        let (next, fits) = listing::after_archive(state, sweeps[0], standalone);
        let rest = sweeps.drop_first();
        lemma_archive_actions(next, rest, standalone);
        let own = match sweeps[0] {
            PlannedArchiveSweep::Remove { file_name, segment_count, file_bytes } => seq![
                ActionView::RemoveReclaimableArchive {
                    file_name: file_name@,
                    segments: segment_count,
                    bytes: file_bytes,
                },
            ],
            PlannedArchiveSweep::Rewrite {
                file_name,
                replacement_name,
                segment_count,
                eligible_entry_bytes,
                ..
            } => seq![
                ActionView::RewriteArchive {
                    file_name: file_name@,
                    replacement_name: replacement_name@,
                    segments: segment_count,
                    eligible_bytes: eligible_entry_bytes,
                },
            ],
            _ => Seq::empty(),
        };
        assert(sweep_actions(sweeps) == own + sweep_actions(rest));
        assert(next.actions =~= state.actions + own);
        assert(state.actions + own + sweep_actions(rest) =~= state.actions + (own + sweep_actions(
            rest,
        )));
    }
}

/// A complete listing states, in this order and nothing else: what comes before the
/// sweeps, the archives of the sweep that follows a copy, those of a sweep without
/// one, the stale archives, what becomes of checkpoints and journal, the staging files
/// and the recovery backups.
pub proof fn law_a_listing_follows_one_order(
    findings: PlanFindings<'_>,
    warnings: Seq<Seq<char>>,
    journal_lines: usize,
)
    requires
        listing::full_listing(findings, warnings, journal_lines).1,
    ensures
        ({
            let work = *findings.segment_work;
            listing::full_listing(findings, warnings, journal_lines).0.actions == listed::leading(
                findings,
                warnings,
            ).actions + sweep_actions(listing::sweeps_of(work.predicted_sweep)) + sweep_actions(
                listing::sweeps_of(work.segment_plan),
            ) + work.stale_archives@.map_values(
                |stale: crate::planning::StaleArchive|
                    ActionView::RemoveStaleArchive {
                        file_name: stale.file_name@,
                        reason: stale.reason,
                        bytes: stale.bytes,
                    },
            ) + listed::head_moves(findings, journal_lines) + findings.temporaries@.map_values(
                |file: crate::planning::PlannedFileRemoval|
                    ActionView::RemoveTemporary { file_name: file.file_name@, bytes: file.bytes },
            ) + findings.recovery_backups@.map_values(
                |file: crate::planning::PlannedFileRemoval|
                    ActionView::RemoveRecoveryBackup {
                        file_name: file.file_name@,
                        bytes: file.bytes,
                    },
            )
        }),
{
    let work = *findings.segment_work;
    let leading = listed::leading(findings, warnings);
    let predicted = listing::sweeps_of(work.predicted_sweep);
    let standalone = listing::sweeps_of(work.segment_plan);
    let first = listing::after_archives(leading, predicted, false).0;
    let second = listing::after_archives(first, standalone, true).0;
    lemma_archive_actions(leading, predicted, false);
    lemma_archive_actions(first, standalone, true);
    let swept = listing::after_sweeps(
        leading,
        predicted,
        standalone,
        findings.available_filesystem_bytes,
    ).0;
    assert(swept.actions == second.actions);
    let stale = listing::stale_entries(work.stale_archives@);
    lemma_files(swept, stale);
    let staled = listing::after_files(swept, stale).0;
    let moved = ListingState {
        actions: staled.actions + listed::head_moves(findings, journal_lines),
        ..staled
    };
    let temporaries = listing::temporary_entries(findings.temporaries@);
    let backups = listing::backup_entries(findings.recovery_backups@);
    lemma_files(moved, temporaries + backups);
    assert(file_actions(stale) =~= work.stale_archives@.map_values(
        |stale: crate::planning::StaleArchive|
            ActionView::RemoveStaleArchive {
                file_name: stale.file_name@,
                reason: stale.reason,
                bytes: stale.bytes,
            },
    ));
    assert(file_actions(temporaries) =~= findings.temporaries@.map_values(
        |file: crate::planning::PlannedFileRemoval|
            ActionView::RemoveTemporary { file_name: file.file_name@, bytes: file.bytes },
    ));
    assert(file_actions(backups) =~= findings.recovery_backups@.map_values(
        |file: crate::planning::PlannedFileRemoval|
            ActionView::RemoveRecoveryBackup { file_name: file.file_name@, bytes: file.bytes },
    ));
    assert(file_actions(temporaries + backups) =~= file_actions(temporaries) + file_actions(
        backups,
    ));
    assert(moved.actions + (file_actions(temporaries) + file_actions(backups)) =~= moved.actions
        + file_actions(temporaries) + file_actions(backups));
}

/// Before any sweep come the repairs, then the manifest where it is upgraded, the
/// residue where there is any, the purge where one is carried, and the copy where one
/// is performed.
pub proof fn law_repairs_come_first_and_the_copy_last(
    repairs: Seq<CompactionAction>,
    manifest_upgrade: bool,
    residue: Option<usize>,
    purge: Option<(u64, u64, u64)>,
    copy: Option<ActionView>,
)
    ensures
        ({
            let leading = listing::leading_actions(
                repairs,
                manifest_upgrade,
                residue,
                purge,
                copy,
            );
            let count = repairs.len() as int;
            let upgrade = if manifest_upgrade {
                1int
            } else {
                0int
            };
            let residues = if residue is Some {
                1int
            } else {
                0int
            };
            let purges = if purge is Some {
                1int
            } else {
                0int
            };
            let copies = if copy is Some {
                1int
            } else {
                0int
            };
            &&& leading.len() == count + upgrade + residues + purges + copies
            &&& forall|i: int| 0 <= i < count ==> #[trigger] leading[i] == repairs[i]@
            &&& manifest_upgrade ==> leading[count] == ActionView::UpgradeManifest
            &&& residue matches Some(segments) ==> leading[count + upgrade] == (
            ActionView::RetireInterruptedCompactionResidue { segments })
            &&& purge matches Some((histories, nodes, retained_checkpoints)) ==> leading[count
                + upgrade + residues] == (ActionView::PurgeOrphanedVersionHistories {
                histories,
                nodes,
                retained_checkpoints,
            })
            &&& copy matches Some(action) ==> leading.last() == action
        }),
{
    assert(plan::action_views(repairs).len() == repairs.len());
}

/// The copy is announced with the nodes of the head, its kind, and the generation
/// that it writes: the next one after the head's.
pub proof fn law_a_copy_is_announced_with_its_generation(work: SegmentWork, head_nodes: u64)
    requires
        work.reference_generation.generation < 0x7fff_ffff,
        work.reference_generation.full_generation < 0x7fff_ffff,
    ensures
        listing::copy_action(work, head_nodes) is Some <==> work.effective_compaction_kind is Some,
        work.effective_compaction_kind matches Some(kind) ==> listing::copy_action(
            work,
            head_nodes,
        ) == Some(
            (ActionView::CopyHeadIntoFreshGeneration {
                head_nodes,
                target_generation: GarbageCollectionGeneration {
                    generation: (work.reference_generation.generation + 1) as i32,
                    full_generation: (work.reference_generation.full_generation + if kind
                        == CompactionKind::Full {
                        1int
                    } else {
                        0int
                    }) as i32,
                    is_compacted: true,
                },
                kind,
            }),
        ),
{
}

/// Where checkpoints go they are named, with how many go for which reason. A copy
/// retires every line of the journal; without one the journal is pruned where that is
/// selected and something goes, and otherwise it is left alone.
pub proof fn law_the_head_moves_as_listed(
    prunes_journal: bool,
    copies: bool,
    checkpoints: CheckpointPlan,
    journal: JournalPlan,
    journal_lines: usize,
)
    ensures
        ({
            let actions = listing::head_moving_actions(
                prunes_journal,
                copies,
                checkpoints,
                journal,
                journal_lines,
            );
            let removes = checkpoints.names@.len() > 0;
            let prunes = !copies && prunes_journal && journal.removed_lines != 0;
            &&& actions.len() == (if removes {
                1int
            } else {
                0int
            }) + (if copies || prunes {
                1int
            } else {
                0int
            })
            &&& removes ==> actions[0] == (ActionView::RemoveCheckpoints {
                names: text::texts(checkpoints.names@),
                expired: checkpoints.expired,
                unreferenced: checkpoints.unreferenced,
            })
            &&& copies ==> actions.last() == (ActionView::RetireJournalHistory {
                revisions: journal_lines,
            })
            &&& prunes ==> actions.last() == (ActionView::PruneJournal {
                lines: journal.removed_lines,
                parser_ignored: journal.parser_ignored,
                missing_segments: journal.missing_segments,
                unreadable_revisions: journal.unreadable_revisions,
                beyond_retention: journal.beyond_retention,
            })
        }),
{
}

/// Where a sweep without a copy rewrites archives, an operator is told that the file
/// system must support hard links, and before that, where less is free than the
/// archives measure, that space is scarce; otherwise neither is said.
pub proof fn law_rewrites_are_warned_about(
    state: ListingState,
    predicted: Seq<PlannedArchiveSweep>,
    standalone: Seq<PlannedArchiveSweep>,
    available: Option<u64>,
)
    requires
        listing::after_sweeps(state, predicted, standalone, available).1,
    ensures
        ({
            let first = listing::after_archives(state, predicted, false).0;
            let swept = listing::after_archives(first, standalone, true).0;
            let after = listing::after_sweeps(state, predicted, standalone, available).0;
            let size = swept.totals.rewrite_source_bytes;
            &&& after.totals == swept.totals
            &&& after.actions == swept.actions
            &&& size == 0 ==> after.warnings == swept.warnings
            &&& size > 0 && (available is None || available->0 >= size) ==> after.warnings
                == swept.warnings.push(
                "archive rewrite publication requires same-directory hard-link support, which a read-only plan cannot preflight; an unsupported filesystem fails safely with the source archive intact"@,
            )
            &&& size > 0 && available is Some && available->0 < size ==> after.warnings
                == swept.warnings.push(
                "available filesystem space is below the cumulative source size of planned archive rewrites; cleanup remains prefix-safe on ENOSPC, but may need a rerun after space is freed"@,
            ).push(
                "archive rewrite publication requires same-directory hard-link support, which a read-only plan cannot preflight; an unsupported filesystem fails safely with the source archive intact"@,
            )
        }),
{
}

/// What a copy writes at most is the closure's node data, less the estimated share of
/// the histories that it omits, and never less than nothing; without a copy, or
/// without a trace, nothing is predicted.
pub proof fn law_a_copy_writes_the_data_that_stays(
    kind: Option<CompactionKind>,
    data_bytes: u64,
    bulk_bytes: u64,
    purges: bool,
    estimate: u64,
)
    ensures
        assembly::copy_output(None, Some((data_bytes, bulk_bytes)), purges, estimate) is None,
        assembly::copy_output(kind, None, purges, estimate) is None,
        kind is Some ==> {
            let predicted = assembly::copy_output(
                kind,
                Some((data_bytes, bulk_bytes)),
                purges,
                estimate,
            );
            &&& predicted is Some
            &&& !purges ==> predicted->0 == data_bytes
            &&& purges && estimate <= data_bytes ==> predicted->0 + estimate == data_bytes
            &&& purges && estimate > data_bytes ==> predicted->0 == 0
        },
{
}

/// The listing of an archive is given up exactly if one of the totals that it adds to
/// does not fit.
pub proof fn law_a_total_that_does_not_fit_ends_the_listing(
    state: ListingState,
    sweep: PlannedArchiveSweep,
    standalone: bool,
)
    ensures
        listing::after_archive(state, sweep, standalone).1 <==> {
            &&& state.totals.reclaimable_bytes + freed_bytes(sweep) <= 0xffff_ffff_ffff_ffff
            &&& standalone ==> state.totals.rewrite_source_bytes + rewritten_size(sweep)
                <= 0xffff_ffff_ffff_ffff
            &&& state.totals.retained.bytes + left_bytes(sweep) <= 0xffff_ffff_ffff_ffff
        },
{
}

/// Both sweeps of a plan are listed, unless a total of one of them does not fit.
pub proof fn law_sweeps_are_listed_while_their_totals_fit(
    state: ListingState,
    predicted: Seq<PlannedArchiveSweep>,
    standalone: Seq<PlannedArchiveSweep>,
    available: Option<u64>,
)
    ensures
        listing::after_sweeps(state, predicted, standalone, available).1 <==> {
            let (middle, fits) = listing::after_archives(state, predicted, false);
            fits && listing::after_archives(middle, standalone, true).1
        },
{
}

} // verus!
