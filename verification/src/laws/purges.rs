//! What a scan of version storage takes for a history, what a purge omits, and what
//! is reported of it.
use vstd::prelude::*;
use vstd::string::*;
use crate::content;
use crate::content::PropertyState;
use crate::identifier::{RecordIdentifier, SegmentIdentifier};
use crate::laws::histories;
use crate::laws::paths as places;
use crate::number;
use crate::plan::VersionHistoryPurge;
use crate::planning::history::HistoryView;
use crate::planning::paths;
use crate::planning::purge;
use crate::planning::purge::{PurgeGround, PurgeSelection, PurgeVerdict};
use crate::planning::version_history_plan;
use crate::planning::version_storage;
use crate::planning::version_storage::{BegunHistory, Inside, StorageView};
use crate::text;

verus! {

/// Whether a node says that it is a history.
pub open spec fn is_history_node(properties: Seq<PropertyState>) -> bool {
    content::named_text(properties, "jcr:primaryType"@) == Some("nt:versionHistory"@)
}

/// Whether a history node names this versionable.
pub open spec fn names_versionable(properties: Seq<PropertyState>, versionable: u128) -> bool {
    &&& content::named_text(properties, "jcr:versionableUuid"@) matches Some(written)
    &&& number::identifier_value(vstd::utf8::encode_utf8(written)) == Some(versionable)
}

/// A node within the history that the scan is inside of belongs to that history and
/// to no other, whatever the node says of itself.
pub proof fn law_a_node_within_a_history_belongs_to_it(
    storage: StorageView,
    inside: Inside,
    path: Seq<char>,
    record: RecordIdentifier,
    properties: Seq<PropertyState>,
    collect: bool,
    limit: u64,
    history: int,
)
    requires
        path == inside.path || places::continues(path, inside.path),
        0 <= history < storage.histories.len(),
    ensures
        ({
            let (after, current) = version_storage::visited(
                storage,
                Some(inside),
                path,
                record,
                properties,
                collect,
                limit,
            );
            &&& current == Some(inside)
            &&& after.histories.len() == storage.histories.len()
            &&& storage.histories[history].versionable == inside.versionable
                ==> after.histories[history] == storage.histories[history].attributed(
                properties,
                collect,
                limit,
            )
            &&& storage.histories[history].versionable != inside.versionable
                ==> after.histories[history] == storage.histories[history]
            &&& after.begun == storage.begun
            &&& after.intermediates == storage.intermediates
            &&& after.malformed_identifiers == storage.malformed_identifiers
            &&& after.live_identifiers == storage.live_identifiers
        }),
{
    places::law_within_is_equal_or_continued(path, inside.path);
}

/// A history node outside every history begins one of the versionable that it
/// names: the scan is inside of it from there on, one history of that versionable is
/// known, which holds this one node, and every other is left as it was.
pub proof fn law_a_history_node_begins_its_history(
    storage: StorageView,
    current: Option<Inside>,
    path: Seq<char>,
    record: RecordIdentifier,
    properties: Seq<PropertyState>,
    collect: bool,
    limit: u64,
    versionable: u128,
)
    requires
        current matches Some(inside) ==> path != inside.path && !places::continues(
            path,
            inside.path,
        ),
        is_history_node(properties),
        names_versionable(properties, versionable),
        storage.consistent(),
    ensures
        ({
            let (after, next) = version_storage::visited(
                storage,
                current,
                path,
                record,
                properties,
                collect,
                limit,
            );
            let own = HistoryView::begun(versionable, record, path).attributed(
                properties,
                collect,
                limit,
            );
            &&& next == Some(Inside { path, versionable })
            &&& after.histories.contains(own)
            &&& own.record == record && own.path == path && own.versionable == versionable
                && own.nodes == 1
            &&& forall|other: HistoryView|
                other.versionable != versionable ==> (#[trigger] after.histories.contains(other)
                    <==> storage.histories.contains(other))
            &&& forall|other: HistoryView| #[trigger]
                after.histories.contains(other) && other.versionable == versionable ==> other
                    == own
            &&& after.begun == storage.begun.push(
                BegunHistory { path, versionable: Some(versionable) },
            )
            &&& after.intermediates == storage.intermediates
            &&& after.malformed_identifiers == storage.malformed_identifiers
        }),
{
    if let Some(inside) = current {
        places::law_within_is_equal_or_continued(path, inside.path);
    }
    let (after, next) = version_storage::visited(
        storage,
        current,
        path,
        record,
        properties,
        collect,
        limit,
    );
    let begun = HistoryView::begun(versionable, record, path);
    let own = begun.attributed(properties, collect, limit);
    histories::law_a_node_counts_once(begun, properties, collect, limit);
    let seen = storage.seeing(properties);
    let started = seen.beginning(versionable, record, path);
    assert(seen.histories == storage.histories);
    assert(after.histories.len() == started.histories.len());
    assert forall|i: int| 0 <= i < after.histories.len() implies #[trigger] after.histories[i] == (
    if started.histories[i].versionable == versionable {
        started.histories[i].attributed(properties, collect, limit)
    } else {
        started.histories[i]
    }) by {}
    if exists|i: int|
        0 <= i < storage.histories.len() && (#[trigger] storage.histories[i]).versionable
            == versionable {
        let i = choose|i: int|
            0 <= i < storage.histories.len() && (#[trigger] storage.histories[i]).versionable
                == versionable;
        assert(started.histories[i] == begun);
        assert(after.histories[i] == own);
        assert forall|other: HistoryView| other.versionable != versionable implies (
        #[trigger] after.histories.contains(other) <==> storage.histories.contains(other)) by {
            if after.histories.contains(other) {
                let j = choose|j: int| 0 <= j < after.histories.len() && after.histories[j] == other;
                assert(started.histories[j].versionable != versionable) by {
                    if started.histories[j].versionable == versionable {
                        assert(started.histories[j] == begun);
                        assert(after.histories[j] == own);
                    }
                }
                assert(storage.histories[j] == other);
            }
            if storage.histories.contains(other) {
                let j = choose|j: int|
                    0 <= j < storage.histories.len() && storage.histories[j] == other;
                assert(started.histories[j] == other);
                assert(after.histories[j] == other);
            }
        }
        assert forall|other: HistoryView| #[trigger]
            after.histories.contains(other) && other.versionable == versionable implies other
            == own by {
            let j = choose|j: int| 0 <= j < after.histories.len() && after.histories[j] == other;
            if started.histories[j].versionable == versionable {
                assert(started.histories[j] == begun);
            }
        }
    } else {
        let end = storage.histories.len() as int;
        assert(started.histories == storage.histories.push(begun));
        assert(started.histories[end] == begun);
        assert(after.histories[end] == own);
        assert forall|other: HistoryView| other.versionable != versionable implies (
        #[trigger] after.histories.contains(other) <==> storage.histories.contains(other)) by {
            if after.histories.contains(other) {
                let j = choose|j: int| 0 <= j < after.histories.len() && after.histories[j] == other;
                assert(j != end);
                assert(storage.histories[j].versionable != versionable);
                assert(started.histories[j] == storage.histories[j]);
            }
            if storage.histories.contains(other) {
                let j = choose|j: int|
                    0 <= j < storage.histories.len() && storage.histories[j] == other;
                assert(started.histories[j] == other);
                assert(after.histories[j] == other);
            }
        }
        assert forall|other: HistoryView| #[trigger]
            after.histories.contains(other) && other.versionable == versionable implies other
            == own by {
            let j = choose|j: int| 0 <= j < after.histories.len() && after.histories[j] == other;
            if j < end {
                assert(storage.histories[j].versionable != versionable);
                assert(started.histories[j] == storage.histories[j]);
            }
        }
    }
}

/// A history node that names no versionable that reads is counted, and protects
/// what is above it; nothing is attributed to it, and the scan is inside of no
/// history.
pub proof fn law_an_unnamed_history_is_counted_as_malformed(
    storage: StorageView,
    current: Option<Inside>,
    path: Seq<char>,
    record: RecordIdentifier,
    properties: Seq<PropertyState>,
    collect: bool,
    limit: u64,
)
    requires
        current matches Some(inside) ==> path != inside.path && !places::continues(
            path,
            inside.path,
        ),
        is_history_node(properties),
        forall|versionable: u128| !#[trigger] names_versionable(properties, versionable),
        storage.malformed_identifiers < 0xffff_ffff_ffff_ffff,
    ensures
        ({
            let (after, next) = version_storage::visited(
                storage,
                current,
                path,
                record,
                properties,
                collect,
                limit,
            );
            &&& next is None
            &&& after.histories == storage.histories
            &&& after.malformed_identifiers == storage.malformed_identifiers + 1
            &&& after.begun == storage.begun.push(BegunHistory { path, versionable: None })
            &&& after.intermediates == storage.intermediates
        }),
{
    if let Some(inside) = current {
        places::law_within_is_equal_or_continued(path, inside.path);
    }
    if let Some(written) = content::named_text(properties, "jcr:versionableUuid"@) {
        if let Some(versionable) = number::identifier_value(vstd::utf8::encode_utf8(written)) {
            assert(names_versionable(properties, versionable));
        }
    }
}

/// Any other node outside every history stands above histories, but for the root of
/// version storage itself.
pub proof fn law_any_other_node_stands_above_histories(
    storage: StorageView,
    current: Option<Inside>,
    path: Seq<char>,
    record: RecordIdentifier,
    properties: Seq<PropertyState>,
    collect: bool,
    limit: u64,
)
    requires
        current matches Some(inside) ==> path != inside.path && !places::continues(
            path,
            inside.path,
        ),
        !is_history_node(properties),
    ensures
        ({
            let (after, next) = version_storage::visited(
                storage,
                current,
                path,
                record,
                properties,
                collect,
                limit,
            );
            &&& next is None
            &&& after.histories == storage.histories
            &&& after.begun == storage.begun
            &&& after.malformed_identifiers == storage.malformed_identifiers
            &&& path.len() > 0 ==> after.intermediates == storage.intermediates.push(
                (path, record),
            )
            &&& path.len() == 0 ==> after.intermediates == storage.intermediates
        }),
{
    if let Some(inside) = current {
        places::law_within_is_equal_or_continued(path, inside.path);
    }
}

/// Totals grow by what each further history holds.
pub proof fn law_totals_add_up(histories: Seq<HistoryView>, more: HistoryView)
    ensures
        version_storage::node_total(Seq::empty()) == 0,
        version_storage::reference_total(Seq::empty()) == 0,
        version_history_plan::inline_total(Seq::empty()) == 0,
        version_storage::node_total(histories.push(more)) == version_storage::node_total(histories)
            + more.nodes,
        version_storage::reference_total(histories.push(more)) == version_storage::reference_total(
            histories,
        ) + more.external_references,
        ({
            let sum = version_history_plan::inline_total(histories) + more.inline_binary_bytes;
            version_history_plan::inline_total(histories.push(more)) == (if sum
                > 0xffff_ffff_ffff_ffff {
                0xffff_ffff_ffff_ffff
            } else {
                sum
            })
        }),
{
    assert(histories.push(more).drop_last() =~= histories);
}

/// The bulk segments of some histories are those of any of them.
pub proof fn law_histories_occupy_the_bulk_of_any(
    histories: Seq<HistoryView>,
    segment: SegmentIdentifier,
)
    ensures
        version_storage::bulk_total(histories).contains(segment) <==> exists|i: int|
            0 <= i < histories.len() && (#[trigger] histories[i]).bulk_segments.contains(segment),
    decreases histories.len(),
{
    if histories.len() > 0 {
        let shorter = histories.drop_last();
        let end = histories.len() - 1;
        law_histories_occupy_the_bulk_of_any(shorter, segment);
        assert(histories[end] == histories.last());
        assert(forall|i: int| 0 <= i < end ==> histories[i] == shorter[i]);
        if exists|i: int|
            0 <= i < shorter.len() && (#[trigger] shorter[i]).bulk_segments.contains(segment) {
            let i = choose|i: int|
                0 <= i < shorter.len() && (#[trigger] shorter[i]).bulk_segments.contains(segment);
            assert(histories[i].bulk_segments.contains(segment));
        }
    }
}

proof fn lemma_side_holds(
    histories: Seq<HistoryView>,
    selection: Option<PurgeSelection>,
    released: bool,
    history: HistoryView,
)
    ensures
        version_history_plan::side(histories, selection, released).contains(history)
            <==> histories.contains(history) && version_history_plan::releases(
            selection,
            history,
        ) == released,
    decreases histories.len(),
{
    let all = version_history_plan::side(histories, selection, released);
    if histories.len() == 0 {
        assert(!all.contains(history));
    } else {
        let shorter = histories.drop_last();
        let end = histories.len() - 1;
        lemma_side_holds(shorter, selection, released, history);
        let earlier = version_history_plan::side(shorter, selection, released);
        assert(histories[end] == histories.last());
        if shorter.contains(history) {
            let i = choose|i: int| 0 <= i < shorter.len() && shorter[i] == history;
            assert(histories[i] == history);
        }
        if histories.contains(history) {
            let i = choose|i: int| 0 <= i < histories.len() && histories[i] == history;
            if i < end {
                assert(shorter[i] == history);
            }
        }
        if earlier.contains(history) {
            let i = choose|i: int| 0 <= i < earlier.len() && earlier[i] == history;
            assert(all[i] == history);
        }
        if all.contains(history) {
            let i = choose|i: int| 0 <= i < all.len() && all[i] == history;
            if i < earlier.len() {
                assert(earlier[i] == history);
            }
        }
        if version_history_plan::releases(selection, histories.last()) == released {
            assert(all[earlier.len() as int] == histories.last());
        }
    }
}

/// Whether a run lets go of an orphan: the purge selected it, or there is no purge
/// that selects anything and the figures speak of all orphans.
pub open spec fn lets_go(selection: Option<PurgeSelection>, versionable: u128) -> bool {
    selection is None || selection->0.histories == 0
        || selection->0.selected_identifiers@.contains(versionable)
}

/// A bulk segment is released exactly if an orphan that goes occupies it and nothing
/// that stays does: no live content, no live history, and no orphan that is kept.
pub proof fn law_a_segment_is_released_exactly_if_nothing_else_needs_it(
    storage: StorageView,
    live_bulk: Set<SegmentIdentifier>,
    selection: Option<PurgeSelection>,
    segment: SegmentIdentifier,
)
    ensures
        version_history_plan::released_bulk_of(storage, live_bulk, selection).contains(segment)
            <==> {
            &&& exists|i: int|
                0 <= i < storage.histories.len() && lets_go(
                    selection,
                    (#[trigger] storage.histories[i]).versionable,
                ) && storage.histories[i].bulk_segments.contains(segment)
            &&& !live_bulk.contains(segment)
            &&& !storage.live_history_bulk.contains(segment)
            &&& !exists|i: int|
                0 <= i < storage.histories.len() && !lets_go(
                    selection,
                    (#[trigger] storage.histories[i]).versionable,
                ) && storage.histories[i].bulk_segments.contains(segment)
        },
{
    let gone = version_history_plan::side(storage.histories, selection, true);
    let kept = version_history_plan::side(storage.histories, selection, false);
    law_histories_occupy_the_bulk_of_any(gone, segment);
    law_histories_occupy_the_bulk_of_any(kept, segment);
    if version_storage::bulk_total(gone).contains(segment) {
        let i = choose|i: int|
            0 <= i < gone.len() && (#[trigger] gone[i]).bulk_segments.contains(segment);
        lemma_side_holds(storage.histories, selection, true, gone[i]);
        assert(gone.contains(gone[i]));
        let j = choose|j: int| 0 <= j < storage.histories.len() && storage.histories[j] == gone[i];
        assert(lets_go(selection, storage.histories[j].versionable));
    }
    if version_storage::bulk_total(kept).contains(segment) {
        let i = choose|i: int|
            0 <= i < kept.len() && (#[trigger] kept[i]).bulk_segments.contains(segment);
        lemma_side_holds(storage.histories, selection, false, kept[i]);
        assert(kept.contains(kept[i]));
        let j = choose|j: int| 0 <= j < storage.histories.len() && storage.histories[j] == kept[i];
        assert(!lets_go(selection, storage.histories[j].versionable));
    }
    if exists|i: int|
        0 <= i < storage.histories.len() && lets_go(
            selection,
            (#[trigger] storage.histories[i]).versionable,
        ) && storage.histories[i].bulk_segments.contains(segment) {
        let i = choose|i: int|
            0 <= i < storage.histories.len() && lets_go(
                selection,
                (#[trigger] storage.histories[i]).versionable,
            ) && storage.histories[i].bulk_segments.contains(segment);
        lemma_side_holds(storage.histories, selection, true, storage.histories[i]);
        let j = choose|j: int| 0 <= j < gone.len() && gone[j] == storage.histories[i];
        assert(gone[j].bulk_segments.contains(segment));
    }
    if exists|i: int|
        0 <= i < storage.histories.len() && !lets_go(
            selection,
            (#[trigger] storage.histories[i]).versionable,
        ) && storage.histories[i].bulk_segments.contains(segment) {
        let i = choose|i: int|
            0 <= i < storage.histories.len() && !lets_go(
                selection,
                (#[trigger] storage.histories[i]).versionable,
            ) && storage.histories[i].bulk_segments.contains(segment);
        lemma_side_holds(storage.histories, selection, false, storage.histories[i]);
        let j = choose|j: int| 0 <= j < kept.len() && kept[j] == storage.histories[i];
        assert(kept[j].bulk_segments.contains(segment));
    }
}

/// The estimate of the node records that a purge frees scales the closure's data
/// bytes by the part of the head's nodes that go, rounded down; nothing is estimated
/// where the head was not traced or has no nodes.
pub proof fn law_the_estimate_is_the_released_share(
    storage: StorageView,
    selection: Option<PurgeSelection>,
    head_nodes: u64,
    data_bytes: u64,
    bulk_bytes: u64,
    released_bulk_segments: u64,
    released_bulk_bytes: u64,
    retained_checkpoints: u64,
)
    requires
        version_history_plan::estimate_fits(
            storage,
            selection,
            head_nodes,
            Some((data_bytes, bulk_bytes)),
        ),
        head_nodes != 0,
    ensures
        ({
            let estimate = version_history_plan::report_of(
                storage,
                selection,
                head_nodes,
                Some((data_bytes, bulk_bytes)),
                released_bulk_segments,
                released_bulk_bytes,
                retained_checkpoints,
            ).node_record_bytes_estimate;
            let gone = version_storage::node_total(
                version_history_plan::side(storage.histories, selection, true),
            );
            &&& estimate * head_nodes <= data_bytes * gone
            &&& data_bytes * gone < (estimate + 1) * head_nodes
        }),
        version_history_plan::report_of(
            storage,
            selection,
            head_nodes,
            None,
            released_bulk_segments,
            released_bulk_bytes,
            retained_checkpoints,
        ).node_record_bytes_estimate == 0,
        version_history_plan::report_of(
            storage,
            selection,
            0,
            Some((data_bytes, bulk_bytes)),
            released_bulk_segments,
            released_bulk_bytes,
            retained_checkpoints,
        ).node_record_bytes_estimate == 0,
{
    let gone = version_storage::node_total(
        version_history_plan::side(storage.histories, selection, true),
    );
    lemma_rounded_down((data_bytes * gone) as int, head_nodes as int);
    assert(data_bytes * gone >= 0) by (nonlinear_arith)
        requires
            data_bytes >= 0,
            gone >= 0,
    ;
    assert(version_history_plan::share(data_bytes, head_nodes, gone) >= 0) by {
        lemma_quotient_nonnegative((data_bytes * gone) as int, head_nodes as int);
    }
}

proof fn lemma_rounded_down(total: int, parts: int)
    by (nonlinear_arith)
    requires
        parts > 0,
    ensures
        (total / parts) * parts <= total,
        total < (total / parts + 1) * parts,
{
}

proof fn lemma_quotient_nonnegative(total: int, parts: int)
    by (nonlinear_arith)
    requires
        parts > 0,
        total >= 0,
    ensures
        total / parts >= 0,
{
}

/// What is reported of orphans are their numbers as the scan found them: every
/// history, node, byte and reference, selected or not.
pub proof fn law_every_orphan_is_reported(
    storage: StorageView,
    selection: Option<PurgeSelection>,
    head_nodes: u64,
    closure_indexed_bytes: Option<(u64, u64)>,
    released_bulk_segments: u64,
    released_bulk_bytes: u64,
    retained_checkpoints: u64,
)
    requires
        storage.consistent(),
        storage.histories.len() <= 0xffff_ffff_ffff_ffff,
    ensures
        ({
            let report = version_history_plan::report_of(
                storage,
                selection,
                head_nodes,
                closure_indexed_bytes,
                released_bulk_segments,
                released_bulk_bytes,
                retained_checkpoints,
            );
            &&& report.orphaned_histories == storage.histories.len()
            &&& report.orphaned_nodes == version_storage::node_total(storage.histories)
            &&& report.external_references == version_storage::reference_total(storage.histories)
            &&& report.inline_binary_bytes == version_history_plan::inline_total(storage.histories)
            &&& report.released_bulk_segments == released_bulk_segments
            &&& report.released_bulk_bytes == released_bulk_bytes
            &&& report.malformed_identifiers == storage.malformed_identifiers
            &&& report.retained_checkpoints == retained_checkpoints
        }),
{
}

/// A plan carries a purge exactly if it selects a history, and then as it was
/// selected; the ancestors whose copy depends on where they are copied to are the
/// nodes that lose some histories, followed by the chain from the content down to
/// version storage, as far as it goes.
pub proof fn law_a_plan_carries_what_was_selected(
    purge: Option<VersionHistoryPurge>,
    selection: Option<PurgeSelection>,
    content_root: Option<RecordIdentifier>,
    system: Option<RecordIdentifier>,
    storage: Option<RecordIdentifier>,
    retained_checkpoints: u64,
)
    requires
        version_history_plan::carries(
            purge,
            selection,
            version_history_plan::chain_records(content_root, system, storage),
            retained_checkpoints,
        ),
    ensures
        purge is Some <==> selection is Some && selection->0.histories > 0,
        purge matches Some(carried) ==> {
            let selected = selection->0;
            let below = selected.context_dependent_intermediates@.len();
            let chain = carried.context_dependent_records@.skip(below as int);
            &&& carried.omitted_records@ == selected.omitted_records@
            &&& carried.histories == selected.histories
            &&& carried.nodes == selected.nodes
            &&& carried.retained_checkpoints == retained_checkpoints
            &&& carried.context_dependent_records@.take(below as int)
                == selected.context_dependent_intermediates@
            &&& content_root is None ==> chain.len() == 0
            &&& content_root is Some && system is None ==> chain == seq![content_root->0]
            &&& content_root is Some && system is Some && storage is None ==> chain == seq![
                content_root->0,
                system->0,
            ]
            &&& content_root is Some && system is Some && storage is Some ==> chain == seq![
                content_root->0,
                system->0,
                storage->0,
            ]
        },
{
    if let Some(carried) = purge {
        let selected = selection->0;
        let below = selected.context_dependent_intermediates@;
        let chain = version_history_plan::chain_records(content_root, system, storage);
        assert((below + chain).take(below.len() as int) =~= below);
        assert((below + chain).skip(below.len() as int) =~= chain);
        if content_root is Some && system is Some && storage is Some {
            assert(chain =~= seq![content_root->0, system->0, storage->0]);
        } else if content_root is Some && system is Some {
            assert(chain =~= seq![content_root->0, system->0]);
        } else if content_root is Some {
            assert(chain =~= seq![content_root->0]);
        }
    }
}

/// Whether nothing protects an orphan from a purge.
pub open spec fn is_unprotected(
    history: HistoryView,
    minimum_age_seconds: Option<u64>,
    now_epoch_seconds: i64,
    demoted: Set<u128>,
) -> bool {
    &&& !history.freezes_a_configuration
    &&& !demoted.contains(history.versionable)
    &&& minimum_age_seconds matches Some(age) ==> history.newest_version_created is Some
        && now_epoch_seconds - history.newest_version_created->0 >= age
}

/// A selection names the versionables of exactly the orphans that nothing protects,
/// and omits the record of each.
pub proof fn law_a_selection_names_the_unprotected(
    selection: PurgeSelection,
    storage: StorageView,
    minimum_age_seconds: Option<u64>,
    now_epoch_seconds: i64,
    demoted: Set<u128>,
    versionable: u128,
)
    requires
        selection.selects(storage, minimum_age_seconds, now_epoch_seconds, demoted),
        minimum_age_seconds matches Some(age) ==> age <= 0x7fff_ffff_ffff_ffff,
    ensures
        selection.selected_identifiers@.contains(versionable) <==> exists|i: int|
            0 <= i < storage.histories.len() && is_unprotected(
                #[trigger] storage.histories[i],
                minimum_age_seconds,
                now_epoch_seconds,
                demoted,
            ) && storage.histories[i].versionable == versionable,
        forall|i: int|
            0 <= i < storage.histories.len() && is_unprotected(
                #[trigger] storage.histories[i],
                minimum_age_seconds,
                now_epoch_seconds,
                demoted,
            ) ==> selection.omitted_records@.contains(storage.histories[i].record),
        selection.histories == 0 ==> forall|i: int|
            0 <= i < storage.histories.len() ==> !is_unprotected(
                #[trigger] storage.histories[i],
                minimum_age_seconds,
                now_epoch_seconds,
                demoted,
            ),
{
    let chosen = purge::ruled(
        storage.histories,
        PurgeVerdict::Selected,
        minimum_age_seconds,
        now_epoch_seconds,
        demoted,
    );
    let names = chosen.map_values(|history: HistoryView| history.versionable);
    assert forall|i: int|
        0 <= i < storage.histories.len() && is_unprotected(
            #[trigger] storage.histories[i],
            minimum_age_seconds,
            now_epoch_seconds,
            demoted,
        ) implies chosen.len() > 0 && names.contains(storage.histories[i].versionable)
        && selection.omitted_records@.contains(storage.histories[i].record) by {
        histories::law_a_purge_takes_exactly_what_nothing_protects(
            storage.histories,
            minimum_age_seconds,
            now_epoch_seconds,
            demoted,
            storage.histories[i],
        );
        assert(storage.histories.contains(storage.histories[i]));
        let j = choose|j: int| 0 <= j < chosen.len() && chosen[j] == storage.histories[i];
        assert(names[j] == storage.histories[i].versionable);
        assert(purge::records_of(chosen)[j] == storage.histories[i].record);
        assert(selection.omitted_records@[j] == storage.histories[i].record);
    }
    if selection.selected_identifiers@.contains(versionable) {
        assert(names.contains(versionable));
        let j = choose|j: int| 0 <= j < names.len() && names[j] == versionable;
        assert(chosen.contains(chosen[j]));
        histories::law_a_purge_takes_exactly_what_nothing_protects(
            storage.histories,
            minimum_age_seconds,
            now_epoch_seconds,
            demoted,
            chosen[j],
        );
        let i = choose|i: int| 0 <= i < storage.histories.len() && storage.histories[i] == chosen[j];
        assert(is_unprotected(
            storage.histories[i],
            minimum_age_seconds,
            now_epoch_seconds,
            demoted,
        ));
    }
}

/// Where some paths have another as an ancestor.
pub open spec fn places_beneath(paths: Seq<Seq<char>>, above: Seq<char>) -> Set<int> {
    Set::new(
        |i: int| 0 <= i < paths.len() && places::continues(paths[i], above) && above.contains('/'),
    )
}

proof fn lemma_beneath(histories: Seq<Seq<char>>, above: Seq<char>)
    ensures
        places_beneath(histories, above).finite(),
        version_storage::count_under(histories, above) == places_beneath(histories, above).len(),
    decreases histories.len(),
{
    if histories.len() == 0 {
        assert(places_beneath(histories, above) =~= Set::empty());
    } else {
        let shorter = histories.drop_last();
        let end = histories.len() - 1;
        lemma_beneath(shorter, above);
        places::law_ancestors_are_what_a_path_continues(histories.last(), above);
        if places::continues(histories[end], above) && above.contains('/') {
            assert(places_beneath(histories, above) =~= places_beneath(shorter, above).insert(end));
        } else {
            assert(places_beneath(histories, above) =~= places_beneath(shorter, above));
        }
    }
}

/// A tally of ancestors has for every path as many as there are histories beneath it.
pub proof fn law_a_tally_counts_the_histories_beneath(
    counts: Map<Seq<char>, u64>,
    histories: Seq<Seq<char>>,
    above: Seq<char>,
)
    requires
        version_storage::tallies(counts, histories),
    ensures
        counts.contains_key(above) ==> counts[above] == places_beneath(histories, above).len(),
        !counts.contains_key(above) ==> places_beneath(histories, above).len() == 0,
{
    lemma_beneath(histories, above);
    assert(version_storage::tallied(counts, above) == version_storage::count_under(
        histories,
        above,
    ));
}

/// A node above histories goes exactly if at least one history lies beneath it, as
/// many of the selected lie beneath it as there are at all, and every recorded node
/// right beneath it goes too.
pub proof fn law_a_node_goes_exactly_if_everything_beneath_goes(ground: PurgeGround, node: int)
    requires
        0 <= node < ground.nodes.len(),
    ensures
        ground.omissible(ground.nodes[node].0) <==> {
            let path = ground.nodes[node].0;
            &&& places_beneath(ground.begun, path).len() > 0
            &&& places_beneath(ground.chosen, path).len() == places_beneath(
                ground.begun,
                path,
            ).len()
            &&& forall|child: int|
                0 <= child < ground.nodes.len() && paths::parent((#[trigger] ground.nodes[child]).0)
                    == Some(path) ==> ground.omissible(ground.nodes[child].0)
        },
{
    let path = ground.nodes[node].0;
    purge::lemma_omissible(ground, node);
    lemma_beneath(ground.begun, path);
    lemma_beneath(ground.chosen, path);
    if exists|child: int| #[trigger] ground.blocked_by(path, child) {
        let child = choose|child: int| #[trigger] ground.blocked_by(path, child);
        assert(!ground.omissible(ground.nodes[child].0));
    }
    if !(forall|child: int|
        0 <= child < ground.nodes.len() && paths::parent((#[trigger] ground.nodes[child]).0)
            == Some(path) ==> ground.omissible(ground.nodes[child].0)) {
        let child = choose|child: int|
            0 <= child < ground.nodes.len() && paths::parent((#[trigger] ground.nodes[child]).0)
                == Some(path) && !ground.omissible(ground.nodes[child].0);
        assert(ground.blocked_by(path, child));
    }
}

proof fn lemma_layer(nodes: Seq<purge::Node>, depth: nat, node: purge::Node)
    ensures
        purge::layer(nodes, depth).contains(node) <==> nodes.contains(node) && paths::depth(node.0)
            == depth,
    decreases nodes.len(),
{
    let all = purge::layer(nodes, depth);
    if nodes.len() == 0 {
        assert(!all.contains(node));
    } else {
        let shorter = nodes.drop_last();
        let end = nodes.len() - 1;
        lemma_layer(shorter, depth, node);
        let earlier = purge::layer(shorter, depth);
        assert(nodes[end] == nodes.last());
        if shorter.contains(node) {
            let i = choose|i: int| 0 <= i < shorter.len() && shorter[i] == node;
            assert(nodes[i] == node);
        }
        if nodes.contains(node) {
            let i = choose|i: int| 0 <= i < nodes.len() && nodes[i] == node;
            if i < end {
                assert(shorter[i] == node);
            }
        }
        if earlier.contains(node) {
            let i = choose|i: int| 0 <= i < earlier.len() && earlier[i] == node;
            assert(all[i] == node);
        }
        if all.contains(node) {
            let i = choose|i: int| 0 <= i < all.len() && all[i] == node;
            if i < earlier.len() {
                assert(earlier[i] == node);
            }
        }
        if paths::depth(nodes.last().0) == depth {
            assert(all[earlier.len() as int] == nodes.last());
        }
    }
}

proof fn lemma_below_height(nodes: Seq<purge::Node>, index: int)
    requires
        0 <= index < nodes.len(),
    ensures
        paths::depth(nodes[index].0) < purge::height(nodes),
    decreases nodes.len(),
{
    if index < nodes.len() - 1 {
        lemma_below_height(nodes.drop_last(), index);
    }
}

/// The nodes of some depth or a larger one are listed, each node of the deeper
/// layers before any of the shallower.
pub proof fn law_deeper_nodes_come_first(nodes: Seq<purge::Node>, depth: nat, node: purge::Node)
    ensures
        purge::deepest_first(nodes, depth).contains(node) <==> nodes.contains(node)
            && paths::depth(node.0) >= depth,
        forall|i: int, j: int|
            0 <= i < j < purge::deepest_first(nodes, depth).len() ==> paths::depth(
                (#[trigger] purge::deepest_first(nodes, depth)[i]).0,
            ) >= paths::depth((#[trigger] purge::deepest_first(nodes, depth)[j]).0),
    decreases purge::height(nodes) - depth,
{
    let all = purge::deepest_first(nodes, depth);
    if depth >= purge::height(nodes) {
        assert(!all.contains(node));
        if nodes.contains(node) {
            let i = choose|i: int| 0 <= i < nodes.len() && nodes[i] == node;
            lemma_below_height(nodes, i);
        }
    } else {
        law_deeper_nodes_come_first(nodes, depth + 1, node);
        lemma_layer(nodes, depth, node);
        let deeper = purge::deepest_first(nodes, depth + 1);
        let level = purge::layer(nodes, depth);
        assert(all.contains(node) <==> deeper.contains(node) || level.contains(node)) by {
            if deeper.contains(node) {
                let i = choose|i: int| 0 <= i < deeper.len() && deeper[i] == node;
                assert(all[i] == node);
            }
            if level.contains(node) {
                let i = choose|i: int| 0 <= i < level.len() && level[i] == node;
                assert(all[deeper.len() + i] == node);
            }
            if all.contains(node) {
                let i = choose|i: int| 0 <= i < all.len() && all[i] == node;
                if i < deeper.len() {
                    assert(deeper[i] == node);
                } else {
                    assert(level[i - deeper.len()] == node);
                }
            }
        }
        assert forall|i: int, j: int| 0 <= i < j < all.len() implies paths::depth(
            (#[trigger] all[i]).0,
        ) >= paths::depth((#[trigger] all[j]).0) by {
            if j >= deeper.len() {
                assert(level.contains(level[j - deeper.len()]));
                lemma_layer(nodes, depth, all[j]);
                if i < deeper.len() {
                    assert(deeper.contains(deeper[i]));
                    law_deeper_nodes_come_first(nodes, depth + 1, all[i]);
                } else {
                    assert(level.contains(level[i - deeper.len()]));
                    lemma_layer(nodes, depth, all[i]);
                }
            } else {
                assert(all[i] == deeper[i] && all[j] == deeper[j]);
            }
        }
    }
}

proof fn lemma_records_where(
    nodes: Seq<purge::Node>,
    keeps: spec_fn(Seq<char>) -> bool,
    record: RecordIdentifier,
)
    ensures
        purge::records_where(nodes, keeps).contains(record) <==> exists|i: int|
            0 <= i < nodes.len() && keeps((#[trigger] nodes[i]).0) && nodes[i].1 == record,
    decreases nodes.len(),
{
    let all = purge::records_where(nodes, keeps);
    if nodes.len() == 0 {
        assert(!all.contains(record));
    } else {
        let shorter = nodes.drop_last();
        let end = nodes.len() - 1;
        lemma_records_where(shorter, keeps, record);
        let earlier = purge::records_where(shorter, keeps);
        assert(nodes[end] == nodes.last());
        assert(forall|i: int| 0 <= i < end ==> nodes[i] == shorter[i]);
        if exists|i: int|
            0 <= i < shorter.len() && keeps((#[trigger] shorter[i]).0) && shorter[i].1 == record {
            let i = choose|i: int|
                0 <= i < shorter.len() && keeps((#[trigger] shorter[i]).0) && shorter[i].1
                    == record;
            assert(keeps(nodes[i].0) && nodes[i].1 == record);
        }
        if earlier.contains(record) {
            let i = choose|i: int| 0 <= i < earlier.len() && earlier[i] == record;
            assert(all[i] == record);
        }
        if all.contains(record) {
            let i = choose|i: int| 0 <= i < all.len() && all[i] == record;
            if i < earlier.len() {
                assert(earlier[i] == record);
            }
        }
        if keeps(nodes.last().0) {
            assert(all[earlier.len() as int] == nodes.last().1);
        }
    }
}

/// Beside the selected histories a purge omits exactly the nodes beneath which
/// everything goes, and the copy depends on its place for exactly those that stay and
/// lose a history.
pub proof fn law_nodes_go_or_lose_histories(
    selection: PurgeSelection,
    storage: StorageView,
    minimum_age_seconds: Option<u64>,
    now_epoch_seconds: i64,
    demoted: Set<u128>,
    node: int,
)
    requires
        selection.selects(storage, minimum_age_seconds, now_epoch_seconds, demoted),
        0 <= node < storage.intermediates.len(),
    ensures
        ({
            let ground = purge::ground_of(
                storage,
                purge::ruled(
                    storage.histories,
                    PurgeVerdict::Selected,
                    minimum_age_seconds,
                    now_epoch_seconds,
                    demoted,
                ),
            );
            let (path, record) = storage.intermediates[node];
            &&& ground.omissible(path) ==> selection.omitted_records@.contains(record)
            &&& !ground.omissible(path) && places_beneath(ground.chosen, path).len() > 0
                ==> selection.context_dependent_intermediates@.contains(record)
        }),
{
    let chosen = purge::ruled(
        storage.histories,
        PurgeVerdict::Selected,
        minimum_age_seconds,
        now_epoch_seconds,
        demoted,
    );
    let ground = purge::ground_of(storage, chosen);
    let nodes = purge::deepest_first(storage.intermediates, 0);
    let (path, record) = storage.intermediates[node];
    law_deeper_nodes_come_first(storage.intermediates, 0, storage.intermediates[node]);
    assert(storage.intermediates.contains(storage.intermediates[node]));
    let place = choose|i: int| 0 <= i < nodes.len() && nodes[i] == storage.intermediates[node];
    lemma_records_where(nodes, ground.omits(), record);
    lemma_records_where(nodes, ground.thins(), record);
    lemma_beneath(ground.chosen, path);
    if ground.omissible(path) {
        let gone = purge::records_where(nodes, ground.omits());
        assert(ground.omits()(nodes[place].0) && nodes[place].1 == record);
        let i = choose|i: int| 0 <= i < gone.len() && gone[i] == record;
        assert(selection.omitted_records@[purge::records_of(chosen).len() + i] == record);
    } else if places_beneath(ground.chosen, path).len() > 0 {
        assert(ground.thins()(nodes[place].0) && nodes[place].1 == record);
    }
}

/// Nothing is omitted but the record of a selected history or of a node beneath which
/// everything goes.
pub proof fn law_nothing_else_is_omitted(
    selection: PurgeSelection,
    storage: StorageView,
    minimum_age_seconds: Option<u64>,
    now_epoch_seconds: i64,
    demoted: Set<u128>,
    record: RecordIdentifier,
)
    requires
        selection.selects(storage, minimum_age_seconds, now_epoch_seconds, demoted),
        minimum_age_seconds matches Some(age) ==> age <= 0x7fff_ffff_ffff_ffff,
        selection.omitted_records@.contains(record),
    ensures
        ({
            let ground = purge::ground_of(
                storage,
                purge::ruled(
                    storage.histories,
                    PurgeVerdict::Selected,
                    minimum_age_seconds,
                    now_epoch_seconds,
                    demoted,
                ),
            );
            ||| exists|i: int|
                0 <= i < storage.histories.len() && is_unprotected(
                    #[trigger] storage.histories[i],
                    minimum_age_seconds,
                    now_epoch_seconds,
                    demoted,
                ) && storage.histories[i].record == record
            ||| exists|i: int|
                0 <= i < storage.intermediates.len() && ground.omissible(
                    (#[trigger] storage.intermediates[i]).0,
                ) && storage.intermediates[i].1 == record
        }),
{
    let chosen = purge::ruled(
        storage.histories,
        PurgeVerdict::Selected,
        minimum_age_seconds,
        now_epoch_seconds,
        demoted,
    );
    let ground = purge::ground_of(storage, chosen);
    let nodes = purge::deepest_first(storage.intermediates, 0);
    let own = purge::records_of(chosen);
    let gone = purge::records_where(nodes, ground.omits());
    let i = choose|i: int|
        0 <= i < selection.omitted_records@.len() && selection.omitted_records@[i] == record;
    if i < own.len() {
        assert(own[i] == record);
        assert(chosen.contains(chosen[i]));
        histories::law_a_purge_takes_exactly_what_nothing_protects(
            storage.histories,
            minimum_age_seconds,
            now_epoch_seconds,
            demoted,
            chosen[i],
        );
        let j = choose|j: int| 0 <= j < storage.histories.len() && storage.histories[j] == chosen[i];
        assert(is_unprotected(
            storage.histories[j],
            minimum_age_seconds,
            now_epoch_seconds,
            demoted,
        ));
    } else {
        assert(gone[i - own.len()] == record);
        assert(gone.contains(record));
        lemma_records_where(nodes, ground.omits(), record);
        let k = choose|k: int|
            0 <= k < nodes.len() && ground.omits()((#[trigger] nodes[k]).0) && nodes[k].1 == record;
        law_deeper_nodes_come_first(storage.intermediates, 0, nodes[k]);
        assert(nodes.contains(nodes[k]));
        let j = choose|j: int|
            0 <= j < storage.intermediates.len() && storage.intermediates[j] == nodes[k];
        assert(ground.omissible(storage.intermediates[j].0));
    }
}

/// How many of some histories a condition holds of.
pub open spec fn how_many(
    histories: Seq<HistoryView>,
    condition: spec_fn(HistoryView) -> bool,
) -> nat
    decreases histories.len(),
{
    if histories.len() == 0 {
        0
    } else {
        how_many(histories.drop_first(), condition) + if condition(histories[0]) {
            1nat
        } else {
            0nat
        }
    }
}

/// The nodes of those of some histories that a condition holds of.
pub open spec fn nodes_where(
    histories: Seq<HistoryView>,
    condition: spec_fn(HistoryView) -> bool,
) -> nat
    decreases histories.len(),
{
    if histories.len() == 0 {
        0
    } else {
        nodes_where(histories.drop_first(), condition) + if condition(histories[0]) {
            histories[0].nodes as nat
        } else {
            0nat
        }
    }
}

proof fn lemma_how_many_last(
    histories: Seq<HistoryView>,
    condition: spec_fn(HistoryView) -> bool,
)
    requires
        histories.len() > 0,
    ensures
        how_many(histories, condition) == how_many(histories.drop_last(), condition) + if condition(
            histories.last(),
        ) {
            1nat
        } else {
            0nat
        },
        nodes_where(histories, condition) == nodes_where(histories.drop_last(), condition)
            + if condition(histories.last()) {
            histories.last().nodes as nat
        } else {
            0nat
        },
    decreases histories.len(),
{
    if histories.len() > 1 {
        let rest = histories.drop_first();
        lemma_how_many_last(rest, condition);
        assert(rest.drop_last() =~= histories.drop_last().drop_first());
    } else {
        assert(histories.drop_last() =~= Seq::empty());
        assert(histories.drop_first() =~= Seq::empty());
    }
}

proof fn lemma_ruled_counts(
    histories: Seq<HistoryView>,
    wanted: PurgeVerdict,
    minimum_age_seconds: Option<u64>,
    now_epoch_seconds: i64,
    demoted: Set<u128>,
    condition: spec_fn(HistoryView) -> bool,
)
    requires
        forall|history: HistoryView| #[trigger]
            condition(history) <==> purge::verdict(
                history,
                minimum_age_seconds,
                now_epoch_seconds,
                demoted,
            ) == wanted,
    ensures
        purge::ruled(histories, wanted, minimum_age_seconds, now_epoch_seconds, demoted).len()
            == how_many(histories, condition),
        version_storage::node_total(
            purge::ruled(histories, wanted, minimum_age_seconds, now_epoch_seconds, demoted),
        ) == nodes_where(histories, condition),
    decreases histories.len(),
{
    if histories.len() > 0 {
        let shorter = histories.drop_last();
        lemma_ruled_counts(
            shorter,
            wanted,
            minimum_age_seconds,
            now_epoch_seconds,
            demoted,
            condition,
        );
        lemma_how_many_last(histories, condition);
        let earlier = purge::ruled(
            shorter,
            wanted,
            minimum_age_seconds,
            now_epoch_seconds,
            demoted,
        );
        assert(condition(histories.last()) <==> purge::verdict(
            histories.last(),
            minimum_age_seconds,
            now_epoch_seconds,
            demoted,
        ) == wanted);
        law_totals_add_up(earlier, histories.last());
    }
}

/// Whether an orphan is younger than asked for, or of no known age.
pub open spec fn is_young(
    history: HistoryView,
    minimum_age_seconds: Option<u64>,
    now_epoch_seconds: i64,
) -> bool {
    minimum_age_seconds matches Some(age) && (history.newest_version_created is None
        || now_epoch_seconds - history.newest_version_created->0 < age)
}

/// A selection counts each orphan where it belongs: the unprotected with all their
/// nodes, and the others by the first thing that protects them.
pub proof fn law_a_selection_counts_every_orphan_where_it_belongs(
    selection: PurgeSelection,
    storage: StorageView,
    minimum_age_seconds: Option<u64>,
    now_epoch_seconds: i64,
    demoted: Set<u128>,
)
    requires
        selection.selects(storage, minimum_age_seconds, now_epoch_seconds, demoted),
        minimum_age_seconds matches Some(age) ==> age <= 0x7fff_ffff_ffff_ffff,
    ensures
        ({
            let unprotected = |history: HistoryView|
                is_unprotected(history, minimum_age_seconds, now_epoch_seconds, demoted);
            &&& selection.histories == how_many(storage.histories, unprotected)
            &&& selection.nodes == nodes_where(storage.histories, unprotected)
        }),
        selection.kept_configurations == how_many(
            storage.histories,
            |history: HistoryView| history.freezes_a_configuration,
        ),
        selection.kept_by_age == how_many(
            storage.histories,
            |history: HistoryView|
                !history.freezes_a_configuration && is_young(
                    history,
                    minimum_age_seconds,
                    now_epoch_seconds,
                ),
        ),
        selection.kept_by_references == how_many(
            storage.histories,
            |history: HistoryView|
                !history.freezes_a_configuration && !is_young(
                    history,
                    minimum_age_seconds,
                    now_epoch_seconds,
                ) && demoted.contains(history.versionable),
        ),
{
    lemma_ruled_counts(
        storage.histories,
        PurgeVerdict::Selected,
        minimum_age_seconds,
        now_epoch_seconds,
        demoted,
        |history: HistoryView|
            is_unprotected(history, minimum_age_seconds, now_epoch_seconds, demoted),
    );
    lemma_ruled_counts(
        storage.histories,
        PurgeVerdict::KeptConfiguration,
        minimum_age_seconds,
        now_epoch_seconds,
        demoted,
        |history: HistoryView| history.freezes_a_configuration,
    );
    lemma_ruled_counts(
        storage.histories,
        PurgeVerdict::KeptByAge,
        minimum_age_seconds,
        now_epoch_seconds,
        demoted,
        |history: HistoryView|
            !history.freezes_a_configuration && is_young(
                history,
                minimum_age_seconds,
                now_epoch_seconds,
            ),
    );
    lemma_ruled_counts(
        storage.histories,
        PurgeVerdict::KeptByReferences,
        minimum_age_seconds,
        now_epoch_seconds,
        demoted,
        |history: HistoryView|
            !history.freezes_a_configuration && !is_young(
                history,
                minimum_age_seconds,
                now_epoch_seconds,
            ) && demoted.contains(history.versionable),
    );
}

/// The nodes that the estimate scales by are those of the orphans that go.
pub proof fn law_released_nodes_are_those_that_go(
    histories: Seq<HistoryView>,
    selection: Option<PurgeSelection>,
)
    ensures
        version_storage::node_total(version_history_plan::side(histories, selection, true))
            == nodes_where(
            histories,
            |history: HistoryView| lets_go(selection, history.versionable),
        ),
    decreases histories.len(),
{
    if histories.len() > 0 {
        let shorter = histories.drop_last();
        law_released_nodes_are_those_that_go(shorter, selection);
        lemma_how_many_last(
            histories,
            |history: HistoryView| lets_go(selection, history.versionable),
        );
        law_totals_add_up(
            version_history_plan::side(shorter, selection, true),
            histories.last(),
        );
    }
}

/// An operator reads how many orphans stay and why, in a fixed order and only where
/// there are any.
pub proof fn law_every_kept_orphan_is_told(
    kept_configurations: u64,
    kept_by_age: u64,
    kept_by_references: u64,
    malformed_identifiers: u64,
)
    ensures
        ({
            let told = version_history_plan::purge_warnings(
                kept_configurations,
                kept_by_age,
                kept_by_references,
                malformed_identifiers,
            );
            &&& told.len() == (if kept_configurations > 0 {
                1int
            } else {
                0int
            }) + (if kept_by_age > 0 {
                1int
            } else {
                0int
            }) + (if kept_by_references > 0 {
                1int
            } else {
                0int
            }) + (if malformed_identifiers > 0 {
                1int
            } else {
                0int
            })
            &&& kept_configurations > 0 ==> told[0] == text::decimal(kept_configurations as nat)
                + " orphaned version histories kept: they freeze nt:configuration versionables, which this purge does not touch"@
            &&& kept_configurations == 0 && kept_by_age > 0 ==> told[0] == text::decimal(
                kept_by_age as nat,
            )
                + " orphaned version histories kept by the age bound (younger than the minimum, or without a parsable version creation date)"@
            &&& kept_configurations == 0 && kept_by_age == 0 && kept_by_references > 0
                ==> told[0] == text::decimal(kept_by_references as nat)
                + " orphaned version histories kept: REFERENCE or WEAKREFERENCE values outside version storage still name records inside them"@
            &&& malformed_identifiers > 0 ==> told.last() == text::decimal(
                malformed_identifiers as nat,
            )
                + " version histories carry versionable identifiers that do not parse and were not classified"@
        }),
{
}

} // verus!
