//! What the walk over the content establishes, and which histories it releases.
use vstd::prelude::*;
use vstd::string::*;
use crate::content::{PropertyState, PropertyValue, PropertyValues};
use crate::identifier::SegmentIdentifier;
use crate::laws::content;
use crate::number;
use crate::planning::content_census::ContentView;
use crate::planning::history::HistoryView;
use crate::planning::version_storage;
use crate::planning::version_storage::StorageView;
use crate::shared_bulk;

verus! {

/// Whether a property is named `jcr:uuid` and has one string as its value, which
/// reads as this identifier.
pub open spec fn names_node(property: PropertyState, identifier: u128) -> bool {
    &&& property.name@ == "jcr:uuid"@
    &&& property.values matches PropertyValues::Single(value)
    &&& value matches PropertyValue::String(string)
    &&& number::identifier_value(vstd::utf8::encode_utf8(string@)) == Some(identifier)
}

/// While live identifiers are matched, a node with a single string `jcr:uuid` is
/// alive: its identifier is among the live ones, wherever among the properties it
/// stands, and once live matches are resolved no history of that versionable is
/// left as an orphan.
pub proof fn law_a_live_node_keeps_its_history(
    census: ContentView,
    properties: Seq<PropertyState>,
    medium_value_limit: u64,
    position: int,
    identifier: u128,
)
    requires
        census.match_live_identifiers,
        0 <= position < properties.len(),
        names_node(properties[position], identifier),
    ensures
        ({
            let storage = census.with_node(properties, medium_value_limit).version_storage;
            &&& storage.live_identifiers.contains(identifier)
            &&& forall|i: int|
                0 <= i < storage.resolved().histories.len() ==> (
                #[trigger] storage.resolved().histories[i]).versionable != identifier
        }),
{
    law_only_live_nodes_are_marked(census, properties, medium_value_limit, identifier);
    let storage = census.with_node(properties, medium_value_limit).version_storage;
    assert forall|i: int| 0 <= i < storage.resolved().histories.len() implies (
    #[trigger] storage.resolved().histories[i]).versionable != identifier by {
        law_resolution_releases_exactly_the_live(storage, storage.resolved().histories[i]);
        assert(storage.resolved().histories.contains(storage.resolved().histories[i]));
    }
}

/// A node marks no other identifier than those of its single string `jcr:uuid`
/// properties, and those only while live identifiers are matched; nothing that was
/// marked is forgotten, and nothing else of version storage changes.
pub proof fn law_only_live_nodes_are_marked(
    census: ContentView,
    properties: Seq<PropertyState>,
    medium_value_limit: u64,
    identifier: u128,
)
    ensures
        ({
            let after = census.with_node(properties, medium_value_limit);
            &&& after.match_live_identifiers == census.match_live_identifiers
            &&& after.version_storage.live_identifiers.contains(identifier) <==> {
                ||| census.version_storage.live_identifiers.contains(identifier)
                ||| census.match_live_identifiers && exists|i: int|
                    0 <= i < properties.len() && #[trigger] names_node(properties[i], identifier)
            }
            &&& after.version_storage == (StorageView {
                live_identifiers: after.version_storage.live_identifiers,
                ..census.version_storage
            })
        }),
    decreases properties.len(),
{
    if properties.len() > 0 {
        let shorter = properties.drop_last();
        let end = properties.len() - 1;
        law_only_live_nodes_are_marked(census, shorter, medium_value_limit, identifier);
        let middle = census.with_node(shorter, medium_value_limit);
        assert(names_node(properties[end], identifier) ==> middle.with_property(
            properties[end],
            medium_value_limit,
        ).version_storage.live_identifiers.contains(identifier) == (
        middle.version_storage.live_identifiers.contains(identifier)
            || census.match_live_identifiers));
        assert(!names_node(properties[end], identifier) ==> middle.with_property(
            properties[end],
            medium_value_limit,
        ).version_storage.live_identifiers.contains(identifier)
            == middle.version_storage.live_identifiers.contains(identifier));
        if exists|i: int| 0 <= i < shorter.len() && #[trigger] names_node(shorter[i], identifier) {
            let i = choose|i: int|
                0 <= i < shorter.len() && #[trigger] names_node(shorter[i], identifier);
            assert(names_node(properties[i], identifier));
        }
        if exists|i: int|
            0 <= i < properties.len() && #[trigger] names_node(properties[i], identifier) {
            let i = choose|i: int|
                0 <= i < properties.len() && #[trigger] names_node(properties[i], identifier);
            if i < end {
                assert(names_node(shorter[i], identifier));
            }
        }
    }
}

proof fn lemma_filter_holds(
    histories: Seq<HistoryView>,
    condition: spec_fn(HistoryView) -> bool,
    history: HistoryView,
)
    ensures
        histories.filter(condition).contains(history) <==> histories.contains(history) && condition(
            history,
        ),
    decreases histories.len(),
{
    reveal(Seq::filter);
    if histories.len() == 0 {
        assert(!histories.filter(condition).contains(history));
    } else {
        let shorter = histories.drop_last();
        lemma_filter_holds(shorter, condition, history);
        let kept = shorter.filter(condition);
        assert(histories.contains(history) <==> shorter.contains(history) || history
            == histories.last()) by {
            if histories.contains(history) {
                let i = choose|i: int| 0 <= i < histories.len() && histories[i] == history;
                if i < shorter.len() {
                    assert(shorter[i] == history);
                }
            }
            if shorter.contains(history) {
                let i = choose|i: int| 0 <= i < shorter.len() && shorter[i] == history;
                assert(histories[i] == history);
            }
            assert(histories[histories.len() - 1] == histories.last());
        }
        if condition(histories.last()) {
            let all = kept.push(histories.last());
            assert(histories.filter(condition) == all);
            assert(all.contains(history) <==> kept.contains(history) || history
                == histories.last()) by {
                if kept.contains(history) {
                    let i = choose|i: int| 0 <= i < kept.len() && kept[i] == history;
                    assert(all[i] == history);
                }
                assert(all[kept.len() as int] == histories.last());
            }
        }
    }
}

/// Resolving releases exactly the histories whose versionable is alive: every
/// other history stays as it is, and none comes to be.
pub proof fn law_resolution_releases_exactly_the_live(storage: StorageView, history: HistoryView)
    ensures
        storage.resolved().histories.contains(history) <==> storage.histories.contains(history)
            && !storage.live_identifiers.contains(history.versionable),
        storage.resolved().live_identifiers == Set::<u128>::empty(),
        storage.resolved().intermediates == storage.intermediates,
        storage.resolved().begun == storage.begun,
        storage.resolved().malformed_identifiers == storage.malformed_identifiers,
{
    lemma_filter_holds(storage.histories, storage.unmatched(), history);
}

proof fn lemma_bulk_total(histories: Seq<HistoryView>, segment: SegmentIdentifier)
    ensures
        version_storage::bulk_total(histories).contains(segment) <==> exists|i: int|
            0 <= i < histories.len() && (#[trigger] histories[i]).bulk_segments.contains(segment),
    decreases histories.len(),
{
    if histories.len() > 0 {
        let shorter = histories.drop_last();
        lemma_bulk_total(shorter, segment);
        if exists|i: int|
            0 <= i < shorter.len() && (#[trigger] shorter[i]).bulk_segments.contains(segment) {
            let i = choose|i: int|
                0 <= i < shorter.len() && (#[trigger] shorter[i]).bulk_segments.contains(segment);
            assert(histories[i] == shorter[i]);
        }
        if exists|i: int|
            0 <= i < histories.len() && (#[trigger] histories[i]).bulk_segments.contains(segment) {
            let i = choose|i: int|
                0 <= i < histories.len() && (#[trigger] histories[i]).bulk_segments.contains(
                    segment,
                );
            if i < shorter.len() {
                assert(histories[i] == shorter[i]);
            }
        }
        assert(histories[histories.len() - 1] == histories.last());
    }
}

/// What a released history occupied counts as occupied by live histories, and
/// nothing else does that did not before.
pub proof fn law_a_released_history_keeps_its_bulk(storage: StorageView, segment: SegmentIdentifier)
    ensures
        storage.resolved().live_history_bulk.contains(segment) <==> {
            ||| storage.live_history_bulk.contains(segment)
            ||| exists|i: int|
                0 <= i < storage.histories.len() && storage.live_identifiers.contains(
                    (#[trigger] storage.histories[i]).versionable,
                ) && storage.histories[i].bulk_segments.contains(segment)
        },
{
    let matched = storage.histories.filter(storage.matched());
    lemma_bulk_total(matched, segment);
    if exists|i: int|
        0 <= i < matched.len() && (#[trigger] matched[i]).bulk_segments.contains(segment) {
        let i = choose|i: int|
            0 <= i < matched.len() && (#[trigger] matched[i]).bulk_segments.contains(segment);
        assert(matched.contains(matched[i]));
        lemma_filter_holds(storage.histories, storage.matched(), matched[i]);
        let j = choose|j: int|
            0 <= j < storage.histories.len() && storage.histories[j] == matched[i];
        assert(storage.live_identifiers.contains(storage.histories[j].versionable));
    }
    if exists|i: int|
        0 <= i < storage.histories.len() && storage.live_identifiers.contains(
            (#[trigger] storage.histories[i]).versionable,
        ) && storage.histories[i].bulk_segments.contains(segment) {
        let i = choose|i: int|
            0 <= i < storage.histories.len() && storage.live_identifiers.contains(
                (#[trigger] storage.histories[i]).versionable,
            ) && storage.histories[i].bulk_segments.contains(segment);
        lemma_filter_holds(storage.histories, storage.matched(), storage.histories[i]);
        assert(storage.histories.contains(storage.histories[i]));
        let j = choose|j: int| 0 <= j < matched.len() && matched[j] == storage.histories[i];
        assert(matched[j].bulk_segments.contains(segment));
    }
}

/// The content occupies the bulk segments among the blocks of every value of every
/// property of its nodes, whatever the property's type, beside what it occupied
/// before.
pub proof fn law_content_occupies_the_bulk_of_every_value(
    census: ContentView,
    properties: Seq<PropertyState>,
    medium_value_limit: u64,
    segment: SegmentIdentifier,
)
    ensures
        census.with_node(properties, medium_value_limit).live_bulk.contains(segment) <==> {
            ||| census.live_bulk.contains(segment)
            ||| exists|p: int, i: int|
                0 <= p < properties.len() && 0 <= i < properties[p].all().len()
                    && #[trigger] content::holds_block(
                    properties[p].all()[i],
                    medium_value_limit,
                    segment,
                )
        },
        census.with_node(properties, medium_value_limit).external_binaries
            == census.external_binaries.observing_properties(properties),
    decreases properties.len(),
{
    if properties.len() > 0 {
        let shorter = properties.drop_last();
        let last = properties.last();
        let end = properties.len() - 1;
        law_content_occupies_the_bulk_of_every_value(census, shorter, medium_value_limit, segment);
        content::law_values_occupy_the_bulk_of_their_blocks(
            last.all(),
            medium_value_limit,
            segment,
        );
        let middle = census.with_node(shorter, medium_value_limit);
        let own = shared_bulk::values_bulk(last.all(), medium_value_limit);
        assert(census.with_node(properties, medium_value_limit).live_bulk
            == middle.live_bulk.union(own));
        if exists|p: int, i: int|
            0 <= p < shorter.len() && 0 <= i < shorter[p].all().len()
                && #[trigger] content::holds_block(
                shorter[p].all()[i],
                medium_value_limit,
                segment,
            ) {
            let (p, i) = choose|p: int, i: int|
                0 <= p < shorter.len() && 0 <= i < shorter[p].all().len()
                    && #[trigger] content::holds_block(
                    shorter[p].all()[i],
                    medium_value_limit,
                    segment,
                );
            assert(content::holds_block(properties[p].all()[i], medium_value_limit, segment));
        }
        if own.contains(segment) {
            let i = choose|i: int|
                0 <= i < last.all().len() && #[trigger] content::holds_block(
                    last.all()[i],
                    medium_value_limit,
                    segment,
                );
            assert(content::holds_block(properties[end].all()[i], medium_value_limit, segment));
        }
        if exists|p: int, i: int|
            0 <= p < properties.len() && 0 <= i < properties[p].all().len()
                && #[trigger] content::holds_block(
                properties[p].all()[i],
                medium_value_limit,
                segment,
            ) {
            let (p, i) = choose|p: int, i: int|
                0 <= p < properties.len() && 0 <= i < properties[p].all().len()
                    && #[trigger] content::holds_block(
                    properties[p].all()[i],
                    medium_value_limit,
                    segment,
                );
            if p < end {
                assert(content::holds_block(shorter[p].all()[i], medium_value_limit, segment));
            } else {
                assert(content::holds_block(last.all()[i], medium_value_limit, segment));
            }
        }
    }
}

} // verus!
