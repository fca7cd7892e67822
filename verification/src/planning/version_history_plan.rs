//! The version-history parts of a plan: the report on orphans that every run
//! carries, and the purge when one is requested.
use std::collections::{HashMap, HashSet};
use vstd::prelude::*;
use vstd::std_specs::hash::*;
use vstd::string::*;
use crate::identifier::{RecordIdentifier, SegmentIdentifier, SegmentSet};
use crate::options::{CompactionOptions, HistoryPurgeRequest};
use crate::plan::{OrphanedVersionHistoryReport, VersionHistoryPurge};
use crate::planning::history;
use crate::planning::history::HistoryView;
use crate::planning::purge;
use crate::planning::purge::{
    candidate_internal_identifiers, select_purge, PurgeSelection, PurgeVerdict,
};
use crate::planning::version_storage;
use crate::planning::version_storage::{StorageView, VersionStorageCensus};
use crate::text;
use crate::text::push_decimal;

verus! {

/// Seconds since the epoch as a signed number: what does not fit is the
/// largest, and an instant before the epoch is the epoch.
pub open spec fn clamped(since_epoch: Option<u64>) -> i64 {
    match since_epoch {
        Some(seconds) => if seconds > i64::MAX {
            i64::MAX
        } else {
            seconds as i64
        },
        None => 0,
    }
}

/// Seconds since the epoch as a signed number.
pub fn clamped_seconds(since_epoch: Option<u64>) -> (seconds: i64)
    ensures
        seconds == clamped(since_epoch),
{
    match since_epoch {
        Some(seconds) => if seconds > i64::MAX as u64 {
            i64::MAX
        } else {
            seconds as i64
        },
        None => 0,
    }
}

/// What the selection of a purge needs next.
pub enum PurgeStart {
    /// No purge is requested.
    Unrequested,
    /// Nothing is selected, so nothing needs to be looked for.
    Settled,
    /// The references of the content must be held against these identifiers.
    NeedsReferences(HashMap<u128, u128>),
}

/// The histories that would go if nothing referred to them.
pub open spec fn preliminary(
    storage: StorageView,
    request: HistoryPurgeRequest,
    now_epoch_seconds: i64,
) -> Seq<HistoryView> {
    purge::ruled(
        storage.histories,
        PurgeVerdict::Selected,
        request.minimum_age_seconds,
        now_epoch_seconds,
        Set::empty(),
    )
}

/// Decides whether the content's references have to be walked: only a
/// requested purge that would select something asks for it.
pub fn start_version_history_purge(
    options: &CompactionOptions,
    census: &VersionStorageCensus,
    now_epoch_seconds: i64,
) -> (start: PurgeStart)
    requires
        census.well_formed(),
    ensures
        match options@.history_purge {
            None => start is Unrequested,
            Some(request) => {
                let chosen = preliminary(census@, request, now_epoch_seconds);
                if chosen.len() == 0 {
                    start is Settled
                } else {
                    start matches PurgeStart::NeedsReferences(owners)
                        && owners@ == purge::internal_owners(
                        census@.histories,
                        purge::versionables_of(chosen),
                    )
                }
            },
        },
{
    broadcast use group_hash_axioms;

    match options.history_purge() {
        None => PurgeStart::Unrequested,
        Some(request) => {
            let nothing: HashSet<u128> = HashSet::new();
            let selection = select_purge(
                census,
                request.minimum_age_seconds,
                now_epoch_seconds,
                &nothing,
            );
            if selection.histories == 0 {
                PurgeStart::Settled
            } else {
                PurgeStart::NeedsReferences(
                    candidate_internal_identifiers(census, &selection.selected_identifiers),
                )
            }
        },
    }
}

/// A warning that counts what stays.
pub open spec fn counted(count: u64, remark: Seq<char>) -> Seq<Seq<char>> {
    if count == 0 {
        Seq::empty()
    } else {
        seq![text::decimal(count as nat) + remark]
    }
}

/// What an operator is told about the histories that a purge leaves.
pub open spec fn purge_warnings(
    kept_configurations: u64,
    kept_by_age: u64,
    kept_by_references: u64,
    malformed_identifiers: u64,
) -> Seq<Seq<char>> {
    counted(
        kept_configurations,
        " orphaned version histories kept: they freeze nt:configuration versionables, which this purge does not touch"@,
    ) + counted(
        kept_by_age,
        " orphaned version histories kept by the age bound (younger than the minimum, or without a parsable version creation date)"@,
    ) + counted(
        kept_by_references,
        " orphaned version histories kept: REFERENCE or WEAKREFERENCE values outside version storage still name records inside them"@,
    ) + counted(
        malformed_identifiers,
        " version histories carry versionable identifiers that do not parse and were not classified"@,
    )
}

fn warn_counted(warnings: &mut Vec<String>, count: u64, remark: &str)
    ensures
        text::texts(final(warnings)@) == text::texts(old(warnings)@) + counted(count, remark@),
{
    let ghost before = text::texts(warnings@);
    if count != 0 {
        let mut warning = String::new();
        push_decimal(&mut warning, count);
        warning.append(remark);
        assert(warning@ =~= text::decimal(count as nat) + remark@);
        warnings.push(warning);
        assert(text::texts(warnings@) =~= before + counted(count, remark@));
    } else {
        assert(before + counted(count, remark@) =~= before);
    }
}

/// Selects the version-history purge when one is requested: the orphans, minus
/// configurations, minus anything younger than the age bound, minus what
/// references demote.
pub fn select_version_history_purge(
    options: &CompactionOptions,
    census: &VersionStorageCensus,
    now_epoch_seconds: i64,
    demoted: &HashSet<u128>,
    warnings: &mut Vec<String>,
) -> (selection: Option<PurgeSelection>)
    requires
        census.well_formed(),
    ensures
        match options@.history_purge {
            None => selection is None && text::texts(final(warnings)@) == text::texts(
                old(warnings)@,
            ),
            Some(request) => selection matches Some(selected) && selected.selects(
                census@,
                request.minimum_age_seconds,
                now_epoch_seconds,
                demoted@,
            ) && text::texts(final(warnings)@) == text::texts(old(warnings)@) + purge_warnings(
                selected.kept_configurations,
                selected.kept_by_age,
                selected.kept_by_references,
                census@.malformed_identifiers,
            ),
        },
{
    match options.history_purge() {
        None => None,
        Some(request) => {
            let ghost before = text::texts(warnings@);
            let selection = select_purge(
                census,
                request.minimum_age_seconds,
                now_epoch_seconds,
                demoted,
            );
            warn_counted(
                warnings,
                selection.kept_configurations,
                " orphaned version histories kept: they freeze nt:configuration versionables, which this purge does not touch",
            );
            warn_counted(
                warnings,
                selection.kept_by_age,
                " orphaned version histories kept by the age bound (younger than the minimum, or without a parsable version creation date)",
            );
            warn_counted(
                warnings,
                selection.kept_by_references,
                " orphaned version histories kept: REFERENCE or WEAKREFERENCE values outside version storage still name records inside them",
            );
            warn_counted(
                warnings,
                census.malformed_identifiers(),
                " version histories carry versionable identifiers that do not parse and were not classified",
            );
            assert(text::texts(warnings@) =~= before + purge_warnings(
                selection.kept_configurations,
                selection.kept_by_age,
                selection.kept_by_references,
                census@.malformed_identifiers,
            ));
            Some(selection)
        },
    }
}

/// Whether a run releases an orphan: it is selected, or nothing is and the
/// figures describe a purge of every orphan.
pub open spec fn releases(selection: Option<PurgeSelection>, history: HistoryView) -> bool {
    match selection {
        Some(selected) => selected.histories == 0 || selected.selected_identifiers@.contains(
            history.versionable,
        ),
        None => true,
    }
}

/// The orphans that a run releases, or those that it keeps.
pub open spec fn side(
    histories: Seq<HistoryView>,
    selection: Option<PurgeSelection>,
    released: bool,
) -> Seq<HistoryView>
    decreases histories.len(),
{
    if histories.len() == 0 {
        Seq::empty()
    } else {
        let earlier = side(histories.drop_last(), selection, released);
        if releases(selection, histories.last()) == released {
            earlier.push(histories.last())
        } else {
            earlier
        }
    }
}

/// The bulk segments that a purge releases: what only the purged histories
/// reference. A block shared with the head, a checkpoint's own content, a live
/// history or a kept orphan stays.
pub open spec fn released_bulk_of(
    storage: StorageView,
    live_bulk: Set<SegmentIdentifier>,
    selection: Option<PurgeSelection>,
) -> Set<SegmentIdentifier> {
    version_storage::bulk_total(side(storage.histories, selection, true)).difference(
        live_bulk.union(storage.live_history_bulk).union(
            version_storage::bulk_total(side(storage.histories, selection, false)),
        ),
    )
}

/// Whether a run releases an orphan.
fn is_released(selection: &Option<PurgeSelection>, versionable: u128) -> (released: bool)
    ensures
        forall|history: HistoryView|
            history.versionable == versionable ==> released == #[trigger] releases(
                *selection,
                history,
            ),
{
    broadcast use group_hash_axioms;

    match selection {
        Some(selected) => selected.histories == 0 || selected.selected_identifiers.contains(
            &versionable,
        ),
        None => true,
    }
}

/// The bulk segments that a purge releases.
pub fn released_bulk(
    census: &VersionStorageCensus,
    live_bulk: &SegmentSet,
    selection: &Option<PurgeSelection>,
) -> (released: SegmentSet)
    requires
        census.well_formed(),
        live_bulk.well_formed(),
    ensures
        released.well_formed(),
        released.listed().to_set() == released_bulk_of(
            census@,
            live_bulk.listed().to_set(),
            *selection,
        ),
{
    let ghost all = census@.histories;
    let mut orphan_bulk = SegmentSet::new();
    let mut kept_bulk = SegmentSet::new();
    let mut index: usize = 0;
    proof {
        assert(all.take(0) =~= Seq::empty());
        assert(orphan_bulk.listed().to_set() =~= Set::empty());
    }
    while index < census.len()
        invariant
            census.well_formed(),
            all == census@.histories,
            index <= all.len(),
            orphan_bulk.well_formed(),
            kept_bulk.well_formed(),
            orphan_bulk.listed().to_set() == version_storage::bulk_total(
                side(all.take(index as int), *selection, true),
            ),
            kept_bulk.listed().to_set() == version_storage::bulk_total(
                side(all.take(index as int), *selection, false),
            ),
        decreases all.len() - index,
    {
        let facts = census.history(index);
        proof {
            let longer = all.take(index as int + 1);
            assert(longer.drop_last() =~= all.take(index as int));
            assert(longer.last() == all[index as int]);
            let gone = side(all.take(index as int), *selection, true);
            let kept = side(all.take(index as int), *selection, false);
            assert(gone.push(all[index as int]).drop_last() =~= gone);
            assert(kept.push(all[index as int]).drop_last() =~= kept);
        }
        let released = is_released(selection, facts.versionable);
        assert(released == releases(*selection, all[index as int]));
        if released {
            orphan_bulk.add_all(&facts.bulk_segments);
        } else {
            kept_bulk.add_all(&facts.bulk_segments);
        }
        index = index + 1;
    }
    assert(all.take(index as int) =~= all);
    let ghost gone = orphan_bulk.listed();
    let ghost kept = kept_bulk.listed().to_set();
    let ghost live = live_bulk.listed().to_set();
    let ghost alive = census@.live_history_bulk;
    let live_history = census.live_history_bulk();
    let mut remaining = SegmentSet::new();
    let mut position: usize = 0;
    assert(remaining.listed().to_set() =~= gone.take(0).to_set().difference(
        live.union(alive).union(kept),
    ));
    while position < orphan_bulk.len()
        invariant
            position <= gone.len(),
            gone == orphan_bulk.listed(),
            live_bulk.well_formed(),
            live_history.well_formed(),
            kept_bulk.well_formed(),
            remaining.well_formed(),
            live == live_bulk.listed().to_set(),
            alive == live_history.listed().to_set(),
            kept == kept_bulk.listed().to_set(),
            remaining.listed().to_set() == gone.take(position as int).to_set().difference(
                live.union(alive).union(kept),
            ),
        decreases gone.len() - position,
    {
        let segment = orphan_bulk.get(position);
        let ghost before = remaining.listed();
        let ghost taken = gone.take(position as int);
        let stays = live_bulk.contains(segment) || live_history.contains(segment)
            || kept_bulk.contains(segment);
        if !stays {
            remaining.insert(segment);
        }
        proof {
            assert(live.contains(segment) == live_bulk.has(segment));
            assert(alive.contains(segment) == live_history.has(segment));
            assert(kept.contains(segment) == kept_bulk.has(segment));
            assert(gone.take(position as int + 1) =~= taken.push(segment));
            taken.lemma_push_to_set_commute(segment);
            before.lemma_push_to_set_commute(segment);
            if before.contains(segment) {
                assert(before.to_set().contains(segment));
                assert(before.to_set().insert(segment) =~= before.to_set());
            }
            assert(remaining.listed().to_set() =~= taken.push(segment).to_set().difference(
                live.union(alive).union(kept),
            ));
        }
        position = position + 1;
    }
    assert(gone.take(position as int) =~= gone);
    remaining
}

/// A share of some bytes: so many of so many parts, rounded down.
pub open spec fn share(bytes: u64, parts: u64, taken: nat) -> int {
    (bytes * taken) / parts as int
}

proof fn lemma_share(bytes: int, parts: int, taken: int)
    by (nonlinear_arith)
    requires
        bytes >= 0,
        parts > 0,
        taken >= 0,
    ensures
        (bytes / parts) * taken + ((bytes % parts) * taken) / parts == (bytes * taken) / parts,
        (bytes / parts) * taken >= 0,
        ((bytes % parts) * taken) / parts >= 0,
        (bytes % parts) * taken >= 0,
{
    let quotient = bytes / parts;
    let rest = bytes % parts;
    assert(bytes == quotient * parts + rest);
    assert(bytes * taken == (quotient * taken) * parts + rest * taken);
}

/// Bytes of binaries inside the store, over some histories, up to the largest
/// number that fits.
pub open spec fn inline_total(histories: Seq<HistoryView>) -> u64
    decreases histories.len(),
{
    if histories.len() == 0 {
        0
    } else {
        history::saturated(
            inline_total(histories.drop_last()),
            histories.last().inline_binary_bytes,
        )
    }
}

/// What the report says, apart from the checkpoints.
pub open spec fn report_of(
    storage: StorageView,
    selection: Option<PurgeSelection>,
    head_nodes: u64,
    closure_indexed_bytes: Option<(u64, u64)>,
    released_bulk_segments: u64,
    released_bulk_bytes: u64,
    retained_checkpoints: u64,
) -> OrphanedVersionHistoryReport {
    OrphanedVersionHistoryReport {
        orphaned_histories: storage.histories.len() as u64,
        orphaned_nodes: version_storage::node_total(storage.histories) as u64,
        inline_binary_bytes: inline_total(storage.histories),
        external_references: version_storage::reference_total(storage.histories) as u64,
        released_bulk_segments,
        released_bulk_bytes,
        node_record_bytes_estimate: match closure_indexed_bytes {
            Some((data_bytes, _)) => if head_nodes != 0 {
                share(
                    data_bytes,
                    head_nodes,
                    version_storage::node_total(side(storage.histories, selection, true)),
                ) as u64
            } else {
                0
            },
            None => 0,
        },
        malformed_identifiers: storage.malformed_identifiers,
        retained_checkpoints,
    }
}

/// The estimate fits.
pub open spec fn estimate_fits(
    storage: StorageView,
    selection: Option<PurgeSelection>,
    head_nodes: u64,
    closure_indexed_bytes: Option<(u64, u64)>,
) -> bool {
    closure_indexed_bytes is Some && head_nodes != 0 ==> {
        let released = version_storage::node_total(side(storage.histories, selection, true));
        let data_bytes = (closure_indexed_bytes->0).0;
        &&& (data_bytes % head_nodes) * released <= u64::MAX
        &&& share(data_bytes, head_nodes, released) <= u64::MAX
    }
}

/// How many nodes the released histories hold.
fn released_node_count(census: &VersionStorageCensus, selection: &Option<PurgeSelection>) -> (count:
    u64)
    requires
        census.well_formed(),
    ensures
        count == version_storage::node_total(side(census@.histories, *selection, true)),
{
    let ghost all = census@.histories;
    let mut count: u64 = 0;
    let mut index: usize = 0;
    proof {
        census.lemma_consistent();
        assert(all.take(0) =~= Seq::empty());
    }
    while index < census.len()
        invariant
            census.well_formed(),
            census@.consistent(),
            all == census@.histories,
            index <= all.len(),
            count == version_storage::node_total(side(all.take(index as int), *selection, true)),
        decreases all.len() - index,
    {
        let facts = census.history(index);
        proof {
            let longer = all.take(index as int + 1);
            assert(longer.drop_last() =~= all.take(index as int));
            assert(longer.last() == all[index as int]);
            lemma_totals_of_take(all, index as int + 1);
            lemma_side_total(longer, *selection, true);
            let gone = side(all.take(index as int), *selection, true);
            assert(gone.push(all[index as int]).drop_last() =~= gone);
        }
        let released_here = is_released(selection, facts.versionable);
        assert(released_here == releases(*selection, all[index as int]));
        if released_here {
            count = count + facts.nodes;
        }
        index = index + 1;
    }
    assert(all.take(index as int) =~= all);
    count
}

proof fn lemma_product_bound(left: u64, right: u64)
    by (nonlinear_arith)
    ensures
        0 <= left * right <= u128::MAX,
{
}

/// Whether the estimate of what a purge frees fits.
pub fn purge_estimate_fits(
    census: &VersionStorageCensus,
    selection: &Option<PurgeSelection>,
    head_nodes: u64,
    closure_indexed_bytes: Option<(u64, u64)>,
) -> (fits: bool)
    requires
        census.well_formed(),
    ensures
        fits == estimate_fits(census@, *selection, head_nodes, closure_indexed_bytes),
{
    match closure_indexed_bytes {
        Some((data_bytes, _)) => {
            if head_nodes == 0 {
                return true;
            }
            let released = released_node_count(census, selection);
            let remainder: u64 = data_bytes % head_nodes;
            proof {
                lemma_product_bound(data_bytes, released);
                lemma_product_bound(remainder, released);
            }
            let rest: u128 = remainder as u128 * released as u128;
            let share: u128 = data_bytes as u128 * released as u128 / head_nodes as u128;
            rest <= u64::MAX as u128 && share <= u64::MAX as u128
        },
        None => true,
    }
}

proof fn lemma_totals_of_take(histories: Seq<HistoryView>, count: int)
    requires
        0 <= count <= histories.len(),
    ensures
        version_storage::node_total(histories.take(count)) <= version_storage::node_total(
            histories,
        ),
        version_storage::reference_total(histories.take(count)) <= version_storage::reference_total(
            histories,
        ),
    decreases histories.len(),
{
    if count == histories.len() {
        assert(histories.take(count) =~= histories);
    } else {
        lemma_totals_of_take(histories.drop_last(), count);
        assert(histories.drop_last().take(count) =~= histories.take(count));
    }
}

proof fn lemma_side_total(
    histories: Seq<HistoryView>,
    selection: Option<PurgeSelection>,
    released: bool,
)
    ensures
        version_storage::node_total(side(histories, selection, released))
            <= version_storage::node_total(histories),
    decreases histories.len(),
{
    if histories.len() > 0 {
        lemma_side_total(histories.drop_last(), selection, released);
        let earlier = side(histories.drop_last(), selection, released);
        assert(earlier.push(histories.last()).drop_last() =~= earlier);
    }
}

/// Assembles the report on orphans from what the walks established. The
/// released histories' share of the node records is scaled from the head's
/// average bytes per node: an estimate that the copy realises.
pub fn orphaned_version_history_report(
    census: &VersionStorageCensus,
    selection: &Option<PurgeSelection>,
    head_nodes: u64,
    closure_indexed_bytes: Option<(u64, u64)>,
    released: &SegmentSet,
    released_bulk_bytes: u64,
    retained_checkpoints: u64,
) -> (report: OrphanedVersionHistoryReport)
    requires
        census.well_formed(),
        estimate_fits(census@, *selection, head_nodes, closure_indexed_bytes),
    ensures
        report == report_of(
            census@,
            *selection,
            head_nodes,
            closure_indexed_bytes,
            released.listed().len() as u64,
            released_bulk_bytes,
            retained_checkpoints,
        ),
{
    let ghost all = census@.histories;
    let mut orphaned_histories: u64 = 0;
    let mut orphaned_nodes: u64 = 0;
    let mut inline_binary_bytes: u64 = 0;
    let mut external_references: u64 = 0;
    let mut released_nodes: u64 = 0;
    let mut index: usize = 0;
    proof {
        census.lemma_consistent();
        assert(all.take(0) =~= Seq::empty());
    }
    while index < census.len()
        invariant
            census.well_formed(),
            census@.consistent(),
            all == census@.histories,
            index <= all.len(),
            orphaned_histories == index,
            orphaned_nodes == version_storage::node_total(all.take(index as int)),
            inline_binary_bytes == inline_total(all.take(index as int)),
            external_references == version_storage::reference_total(all.take(index as int)),
            released_nodes == version_storage::node_total(
                side(all.take(index as int), *selection, true),
            ),
        decreases all.len() - index,
    {
        let facts = census.history(index);
        proof {
            let longer = all.take(index as int + 1);
            assert(longer.drop_last() =~= all.take(index as int));
            assert(longer.last() == all[index as int]);
            lemma_totals_of_take(all, index as int + 1);
            lemma_side_total(longer, *selection, true);
            let gone = side(all.take(index as int), *selection, true);
            assert(gone.push(all[index as int]).drop_last() =~= gone);
        }
        orphaned_histories = orphaned_histories + 1;
        orphaned_nodes = orphaned_nodes + facts.nodes;
        inline_binary_bytes = inline_binary_bytes.saturating_add(facts.inline_binary_bytes);
        external_references = external_references + facts.external_references;
        let released_here = is_released(selection, facts.versionable);
        assert(released_here == releases(*selection, all[index as int]));
        if released_here {
            released_nodes = released_nodes + facts.nodes;
        }
        index = index + 1;
    }
    assert(all.take(index as int) =~= all);
    let mut estimate: u64 = 0;
    if let Some((data_bytes, _)) = closure_indexed_bytes {
        if head_nodes != 0 {
            proof {
                lemma_share(data_bytes as int, head_nodes as int, released_nodes as int);
            }
            let remainder: u64 = data_bytes % head_nodes;
            estimate = data_bytes / head_nodes * released_nodes + remainder * released_nodes
                / head_nodes;
        }
    }
    OrphanedVersionHistoryReport {
        orphaned_histories,
        orphaned_nodes,
        inline_binary_bytes,
        external_references,
        released_bulk_segments: released.len() as u64,
        released_bulk_bytes,
        node_record_bytes_estimate: estimate,
        malformed_identifiers: census.malformed_identifiers(),
        retained_checkpoints,
    }
}

/// The records of the chain from the content root to version storage, as far
/// as it goes.
pub open spec fn chain_records(
    content_root: Option<RecordIdentifier>,
    system: Option<RecordIdentifier>,
    storage: Option<RecordIdentifier>,
) -> Seq<RecordIdentifier> {
    listed(content_root) + if content_root is Some {
        listed(system) + if system is Some {
            listed(storage)
        } else {
            Seq::empty()
        }
    } else {
        Seq::empty()
    }
}

/// One record, or none.
pub open spec fn listed(record: Option<RecordIdentifier>) -> Seq<RecordIdentifier> {
    match record {
        Some(record) => seq![record],
        None => Seq::empty(),
    }
}

/// A purge carries a selection, when there is one and it is not empty.
pub open spec fn carries(
    purge: Option<VersionHistoryPurge>,
    selection: Option<PurgeSelection>,
    chain: Seq<RecordIdentifier>,
    retained_checkpoints: u64,
) -> bool {
    match selection {
        Some(selected) => if selected.histories == 0 {
            purge is None
        } else {
            &&& purge matches Some(carried)
            &&& carried.omitted_records@ == selected.omitted_records@
            &&& carried.context_dependent_records@ == selected.context_dependent_intermediates@
                + chain
            &&& carried.histories == selected.histories
            &&& carried.nodes == selected.nodes
            &&& carried.retained_checkpoints == retained_checkpoints
        },
        None => purge is None,
    }
}

/// The purge that a plan carries, when a selection is not empty. The ancestors
/// whose copy depends on the scope are the chain from the content root down to
/// version storage, and every node above histories that loses some of them.
pub fn version_history_plan_parts(
    selection: Option<PurgeSelection>,
    content_root: Option<RecordIdentifier>,
    system: Option<RecordIdentifier>,
    storage: Option<RecordIdentifier>,
    retained_checkpoints: u64,
) -> (purge: Option<VersionHistoryPurge>)
    ensures
        carries(
            purge,
            selection,
            chain_records(content_root, system, storage),
            retained_checkpoints,
        ),
{
    match selection {
        Some(selected) => {
            if selected.histories == 0 {
                return None;
            }
            let ghost before = selected.context_dependent_intermediates@;
            let mut records = selected.context_dependent_intermediates;
            if let Some(record) = content_root {
                records.push(record);
                if let Some(record) = system {
                    records.push(record);
                    if let Some(record) = storage {
                        records.push(record);
                    }
                }
            }
            assert(records@ =~= before + chain_records(content_root, system, storage));
            Some(
                VersionHistoryPurge {
                    omitted_records: selected.omitted_records,
                    context_dependent_records: records,
                    histories: selected.histories,
                    nodes: selected.nodes,
                    retained_checkpoints,
                },
            )
        },
        None => None,
    }
}

/// How many checkpoints keep their own version storage: all but the retired.
pub fn retained_checkpoint_count(checkpoints: u64, retired: u64) -> (retained: u64)
    ensures
        retained == if checkpoints >= retired {
            (checkpoints - retired) as u64
        } else {
            0
        },
{
    checkpoints.saturating_sub(retired)
}

/// No bulk segment that live content, a live history or a kept orphan still
/// references is counted as released.
pub proof fn law_released_bulk_is_referenced_by_purged_histories_alone(
    storage: StorageView,
    live_bulk: Set<SegmentIdentifier>,
    selection: Option<PurgeSelection>,
    segment: SegmentIdentifier,
)
    ensures
        released_bulk_of(storage, live_bulk, selection).contains(segment) ==> {
            &&& !live_bulk.contains(segment)
            &&& !storage.live_history_bulk.contains(segment)
            &&& forall|i: int|
                0 <= i < storage.histories.len() && (
                #[trigger] storage.histories[i]).bulk_segments.contains(segment) ==> releases(
                    selection,
                    storage.histories[i],
                )
        },
{
    if released_bulk_of(storage, live_bulk, selection).contains(segment) {
        assert forall|i: int|
            0 <= i < storage.histories.len() && (
            #[trigger] storage.histories[i]).bulk_segments.contains(segment) implies releases(
            selection,
            storage.histories[i],
        ) by {
            if !releases(selection, storage.histories[i]) {
                lemma_side_bulk(storage.histories, selection, i, segment);
            }
        }
    }
}

proof fn lemma_side_bulk(
    histories: Seq<HistoryView>,
    selection: Option<PurgeSelection>,
    index: int,
    segment: SegmentIdentifier,
)
    requires
        0 <= index < histories.len(),
        histories[index].bulk_segments.contains(segment),
        !releases(selection, histories[index]),
    ensures
        version_storage::bulk_total(side(histories, selection, false)).contains(segment),
    decreases histories.len(),
{
    let rest = histories.drop_last();
    let earlier = side(rest, selection, false);
    assert(earlier.push(histories.last()).drop_last() =~= earlier);
    if index < histories.len() - 1 {
        lemma_side_bulk(rest, selection, index, segment);
    }
}

} // verus!
