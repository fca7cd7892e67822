//! What is known of a version history once its nodes were attributed to it, and
//! which histories a purge may take.
use vstd::prelude::*;
use vstd::string::*;
use crate::content;
use crate::content::{BinaryValue, PropertyState, PropertyValue};
use crate::identifier::{RecordIdentifier, SegmentIdentifier};
use crate::laws::content as values;
use crate::laws::dates as instants;
use crate::number;
use crate::planning::dates;
use crate::planning::history;
use crate::planning::history::HistoryView;
use crate::planning::purge;
use crate::planning::purge::PurgeVerdict;

verus! {

/// A history after some more nodes of its subtree.
pub open spec fn attributed_all(
    history: HistoryView,
    nodes: Seq<Seq<PropertyState>>,
    collect_internal_identifiers: bool,
    medium_value_limit: u64,
) -> HistoryView
    decreases nodes.len(),
{
    if nodes.len() == 0 {
        history
    } else {
        attributed_all(
            history,
            nodes.drop_last(),
            collect_internal_identifiers,
            medium_value_limit,
        ).attributed(nodes.last(), collect_internal_identifiers, medium_value_limit)
    }
}

/// Whether the first value of a property reads as this text.
pub open spec fn begins_with(property: PropertyState, wanted: Seq<char>) -> bool {
    property.all().len() > 0 && property.all()[0].text() == Some(wanted)
}

/// Whether a node is a version, and its property at a place says that it was created
/// at this instant.
pub open spec fn is_version_of(properties: Seq<PropertyState>, place: int, created: i64) -> bool {
    &&& content::named_text(properties, "jcr:primaryType"@) == Some("nt:version"@)
    &&& 0 <= place < properties.len()
    &&& properties[place].name@ == "jcr:created"@
    &&& exists|written: Seq<char>| #[trigger]
        begins_with(properties[place], written) && dates::epoch_seconds(
            vstd::utf8::encode_utf8(written),
        ) == Some(created as int)
}

/// What attributing the first properties of a node leaves as the newest instant.
proof fn lemma_newest_of_properties(
    history: HistoryView,
    properties: Seq<PropertyState>,
    primary_type: Option<Seq<char>>,
    collect: bool,
    limit: u64,
)
    ensures
        ({
            let before = history.newest_version_created;
            let after = history.with_properties(
                properties,
                primary_type,
                collect,
                limit,
            ).newest_version_created;
            &&& before is Some ==> after is Some && after->0 >= before->0
            &&& forall|place: int, created: i64|
                #![trigger dated(properties, primary_type, place, created)]
                dated(properties, primary_type, place, created) ==> after is Some && after->0
                    >= created
            &&& after is Some && after != before ==> exists|place: int|
                #![trigger properties[place]]
                dated(properties, primary_type, place, after->0)
        }),
    decreases properties.len(),
{
    let before = history.newest_version_created;
    if properties.len() > 0 {
        let shorter = properties.drop_last();
        let last = properties.last();
        let end = properties.len() - 1;
        lemma_newest_of_properties(history, shorter, primary_type, collect, limit);
        let middle = history.with_properties(shorter, primary_type, collect, limit);
        lemma_values_keep_meaning(middle, last.all(), limit);
        let after = history.with_properties(
            properties,
            primary_type,
            collect,
            limit,
        ).newest_version_created;
        assert(properties[end] == last);
        if let Some(created) = history::created_at(last, primary_type) {
            let written = content::leading_text(last)->0;
            assert(begins_with(last, written));
            instants::law_an_instant_fits(vstd::utf8::encode_utf8(written));
            assert(dated(properties, primary_type, end, created));
        }
        assert forall|place: int, created: i64|
            #![trigger dated(properties, primary_type, place, created)]
            dated(properties, primary_type, place, created) implies after is Some && after->0
            >= created by {
            if place < end {
                assert(shorter[place] == properties[place]);
                assert(dated(shorter, primary_type, place, created));
            } else {
                let written = choose|written: Seq<char>| #[trigger]
                    begins_with(properties[place], written) && dates::epoch_seconds(
                        vstd::utf8::encode_utf8(written),
                    ) == Some(created as int);
                assert(content::leading_text(last) == Some(written));
                assert(history::created_at(last, primary_type) == Some(created));
            }
        }
        if after is Some && after != before {
            if after == middle.newest_version_created {
                let place = choose|place: int|
                    #![trigger shorter[place]]
                    dated(shorter, primary_type, place, after->0);
                assert(properties[place] == shorter[place]);
                assert(dated(properties, primary_type, place, after->0));
            } else {
                assert(dated(properties, primary_type, end, after->0));
            }
        }
    }
}

/// Whether a property of a node of some type dates a version.
spec fn dated(
    properties: Seq<PropertyState>,
    primary_type: Option<Seq<char>>,
    place: int,
    created: i64,
) -> bool {
    &&& primary_type == Some("nt:version"@)
    &&& 0 <= place < properties.len()
    &&& properties[place].name@ == "jcr:created"@
    &&& exists|written: Seq<char>| #[trigger]
        begins_with(properties[place], written) && dates::epoch_seconds(
            vstd::utf8::encode_utf8(written),
        ) == Some(created as int)
}

proof fn lemma_values_keep_meaning(
    history: HistoryView,
    values: Seq<PropertyValue>,
    medium_value_limit: u64,
)
    ensures
        ({
            let after = history.with_values(values, medium_value_limit);
            &&& after.newest_version_created == history.newest_version_created
            &&& after.freezes_a_configuration == history.freezes_a_configuration
            &&& after.internal_identifiers == history.internal_identifiers
            &&& after.nodes == history.nodes
            &&& after.versionable == history.versionable
            &&& after.record == history.record
            &&& after.path == history.path
        }),
    decreases values.len(),
{
    if values.len() > 0 {
        lemma_values_keep_meaning(history, values.drop_last(), medium_value_limit);
    }
}

/// The newest version of a history is no older than any of its versions, and is
/// one of them: once some nodes were attributed, the known instant is at least
/// every instant at which an `nt:version` node among them says it was created, one
/// of these nodes states it, and it is unknown exactly if no such node states one.
pub proof fn law_the_newest_version_bounds_all_versions(
    begun: HistoryView,
    nodes: Seq<Seq<PropertyState>>,
    collect_internal_identifiers: bool,
    medium_value_limit: u64,
)
    requires
        begun.newest_version_created is None,
    ensures
        ({
            let newest = attributed_all(
                begun,
                nodes,
                collect_internal_identifiers,
                medium_value_limit,
            ).newest_version_created;
            &&& forall|n: int, place: int, created: i64|
                0 <= n < nodes.len() && #[trigger] is_version_of(nodes[n], place, created)
                    ==> newest is Some && newest->0 >= created
            &&& newest is Some ==> exists|n: int, place: int|
                0 <= n < nodes.len() && #[trigger] is_version_of(nodes[n], place, newest->0)
        }),
    decreases nodes.len(),
{
    if nodes.len() > 0 {
        let shorter = nodes.drop_last();
        let last = nodes.last();
        let end = nodes.len() - 1;
        law_the_newest_version_bounds_all_versions(
            begun,
            shorter,
            collect_internal_identifiers,
            medium_value_limit,
        );
        let middle = attributed_all(
            begun,
            shorter,
            collect_internal_identifiers,
            medium_value_limit,
        );
        let counted = HistoryView { nodes: (middle.nodes + 1) as u64, ..middle };
        let primary_type = content::named_text(last, "jcr:primaryType"@);
        lemma_newest_of_properties(
            counted,
            last,
            primary_type,
            collect_internal_identifiers,
            medium_value_limit,
        );
        let newest = attributed_all(
            begun,
            nodes,
            collect_internal_identifiers,
            medium_value_limit,
        ).newest_version_created;
        assert forall|n: int, place: int, created: i64|
            0 <= n < nodes.len() && #[trigger] is_version_of(nodes[n], place, created) implies newest
            is Some && newest->0 >= created by {
            if n < end {
                assert(is_version_of(shorter[n], place, created));
            } else {
                assert(dated(last, primary_type, place, created));
            }
        }
        if newest is Some {
            if newest == middle.newest_version_created {
                let (n, place) = choose|n: int, place: int|
                    0 <= n < shorter.len() && #[trigger] is_version_of(
                        shorter[n],
                        place,
                        newest->0,
                    );
                assert(is_version_of(nodes[n], place, newest->0));
            } else {
                let place = choose|place: int|
                    #![trigger last[place]]
                    dated(last, primary_type, place, newest->0);
                assert(is_version_of(nodes[end], place, newest->0));
            }
        }
    }
}

/// A purge with a minimum age takes no history with a version younger than that:
/// every version that was attributed to a selected history is at least as old, and
/// at least one of them says how old it is.
pub proof fn law_no_young_version_is_purged(
    begun: HistoryView,
    nodes: Seq<Seq<PropertyState>>,
    collect_internal_identifiers: bool,
    medium_value_limit: u64,
    histories: Seq<HistoryView>,
    minimum_age_seconds: u64,
    now_epoch_seconds: i64,
    demoted: Set<u128>,
)
    requires
        begun.newest_version_created is None,
        minimum_age_seconds <= 0x7fff_ffff_ffff_ffff,
        purge::ruled(
            histories,
            PurgeVerdict::Selected,
            Some(minimum_age_seconds),
            now_epoch_seconds,
            demoted,
        ).contains(
            attributed_all(begun, nodes, collect_internal_identifiers, medium_value_limit),
        ),
    ensures
        forall|n: int, place: int, created: i64|
            0 <= n < nodes.len() && #[trigger] is_version_of(nodes[n], place, created)
                ==> now_epoch_seconds - created >= minimum_age_seconds,
        exists|n: int, place: int, created: i64|
            0 <= n < nodes.len() && #[trigger] is_version_of(nodes[n], place, created),
{
    let history = attributed_all(begun, nodes, collect_internal_identifiers, medium_value_limit);
    law_the_newest_version_bounds_all_versions(
        begun,
        nodes,
        collect_internal_identifiers,
        medium_value_limit,
    );
    law_a_purge_takes_exactly_what_nothing_protects(
        histories,
        Some(minimum_age_seconds),
        now_epoch_seconds,
        demoted,
        history,
    );
    let created = history.newest_version_created->0;
    let (n, place) = choose|n: int, place: int|
        0 <= n < nodes.len() && #[trigger] is_version_of(nodes[n], place, created);
    assert(is_version_of(nodes[n], place, created));
}

/// A purge takes exactly the orphans that nothing protects: those that froze no
/// configuration, that no reference from outside demoted and, where a minimum age
/// is asked for, whose newest version is known to be at least that old.
pub proof fn law_a_purge_takes_exactly_what_nothing_protects(
    histories: Seq<HistoryView>,
    minimum_age_seconds: Option<u64>,
    now_epoch_seconds: i64,
    demoted: Set<u128>,
    history: HistoryView,
)
    requires
        minimum_age_seconds matches Some(age) ==> age <= 0x7fff_ffff_ffff_ffff,
    ensures
        purge::ruled(
            histories,
            PurgeVerdict::Selected,
            minimum_age_seconds,
            now_epoch_seconds,
            demoted,
        ).contains(history) <==> {
            &&& histories.contains(history)
            &&& !history.freezes_a_configuration
            &&& !demoted.contains(history.versionable)
            &&& minimum_age_seconds matches Some(age) ==> history.newest_version_created is Some
                && now_epoch_seconds - history.newest_version_created->0 >= age
        },
    decreases histories.len(),
{
    lemma_ruled(
        histories,
        PurgeVerdict::Selected,
        minimum_age_seconds,
        now_epoch_seconds,
        demoted,
        history,
    );
}

/// An orphan that froze a configuration is kept as such, whatever else is true of
/// it; one that is too young, or of no known age, is kept for that; and only one
/// that is neither is kept for the references into it.
pub proof fn law_an_orphan_is_kept_for_its_first_reason(
    histories: Seq<HistoryView>,
    minimum_age_seconds: Option<u64>,
    now_epoch_seconds: i64,
    demoted: Set<u128>,
    history: HistoryView,
)
    requires
        histories.contains(history),
        minimum_age_seconds matches Some(age) ==> age <= 0x7fff_ffff_ffff_ffff,
    ensures
        ({
            let young = minimum_age_seconds matches Some(age) && (
            history.newest_version_created is None || now_epoch_seconds
                - history.newest_version_created->0 < age);
            &&& history.freezes_a_configuration <==> purge::ruled(
                histories,
                PurgeVerdict::KeptConfiguration,
                minimum_age_seconds,
                now_epoch_seconds,
                demoted,
            ).contains(history)
            &&& !history.freezes_a_configuration && young <==> purge::ruled(
                histories,
                PurgeVerdict::KeptByAge,
                minimum_age_seconds,
                now_epoch_seconds,
                demoted,
            ).contains(history)
            &&& !history.freezes_a_configuration && !young && demoted.contains(
                history.versionable,
            ) <==> purge::ruled(
                histories,
                PurgeVerdict::KeptByReferences,
                minimum_age_seconds,
                now_epoch_seconds,
                demoted,
            ).contains(history)
        }),
{
    lemma_ruled(
        histories,
        PurgeVerdict::KeptConfiguration,
        minimum_age_seconds,
        now_epoch_seconds,
        demoted,
        history,
    );
    lemma_ruled(
        histories,
        PurgeVerdict::KeptByAge,
        minimum_age_seconds,
        now_epoch_seconds,
        demoted,
        history,
    );
    lemma_ruled(
        histories,
        PurgeVerdict::KeptByReferences,
        minimum_age_seconds,
        now_epoch_seconds,
        demoted,
        history,
    );
}

proof fn lemma_ruled(
    histories: Seq<HistoryView>,
    wanted: PurgeVerdict,
    minimum_age_seconds: Option<u64>,
    now_epoch_seconds: i64,
    demoted: Set<u128>,
    history: HistoryView,
)
    ensures
        purge::ruled(
            histories,
            wanted,
            minimum_age_seconds,
            now_epoch_seconds,
            demoted,
        ).contains(history) <==> histories.contains(history) && purge::verdict(
            history,
            minimum_age_seconds,
            now_epoch_seconds,
            demoted,
        ) == wanted,
    decreases histories.len(),
{
    let all = purge::ruled(histories, wanted, minimum_age_seconds, now_epoch_seconds, demoted);
    if histories.len() == 0 {
        assert(!all.contains(history));
    } else {
        let shorter = histories.drop_last();
        lemma_ruled(shorter, wanted, minimum_age_seconds, now_epoch_seconds, demoted, history);
        let earlier = purge::ruled(
            shorter,
            wanted,
            minimum_age_seconds,
            now_epoch_seconds,
            demoted,
        );
        if histories.contains(history) {
            let i = choose|i: int| 0 <= i < histories.len() && histories[i] == history;
            if i < shorter.len() {
                assert(shorter[i] == history);
            }
        }
        if shorter.contains(history) {
            let i = choose|i: int| 0 <= i < shorter.len() && shorter[i] == history;
            assert(histories[i] == history);
        }
        assert(histories[histories.len() - 1] == histories.last());
        if earlier.contains(history) {
            let i = choose|i: int| 0 <= i < earlier.len() && earlier[i] == history;
            assert(all[i] == history);
        }
        if all.contains(history) {
            let i = choose|i: int| 0 <= i < all.len() && all[i] == history;
            if i < earlier.len() {
                assert(earlier[i] == history);
            }
        }
        if purge::verdict(histories.last(), minimum_age_seconds, now_epoch_seconds, demoted)
            == wanted {
            assert(all[earlier.len() as int] == histories.last());
        }
    }
}

/// Whether a property says that a configuration was frozen.
pub open spec fn froze_configuration(property: PropertyState) -> bool {
    property.name@ == "jcr:frozenPrimaryType"@ && begins_with(property, "nt:configuration"@)
}

/// Whether a property gives its node this identifier.
pub open spec fn identifies(property: PropertyState, identifier: u128) -> bool {
    &&& property.name@ == "jcr:uuid"@
    &&& exists|written: Seq<char>| #[trigger]
        begins_with(property, written) && number::identifier_value(
            vstd::utf8::encode_utf8(written),
        ) == Some(identifier)
}

/// One frozen `nt:configuration` anywhere in a history marks it for good, and
/// nothing else does.
pub proof fn law_a_frozen_configuration_marks_its_history(
    history: HistoryView,
    properties: Seq<PropertyState>,
    collect_internal_identifiers: bool,
    medium_value_limit: u64,
)
    ensures
        history.attributed(
            properties,
            collect_internal_identifiers,
            medium_value_limit,
        ).freezes_a_configuration <==> history.freezes_a_configuration || exists|i: int|
            0 <= i < properties.len() && froze_configuration(#[trigger] properties[i]),
{
    let counted = HistoryView { nodes: (history.nodes + 1) as u64, ..history };
    lemma_marks(
        counted,
        properties,
        content::named_text(properties, "jcr:primaryType"@),
        collect_internal_identifiers,
        medium_value_limit,
        0,
    );
}

/// The identifiers inside a history are those that the first texts of its nodes'
/// `jcr:uuid` properties read as, where they are collected at all.
pub proof fn law_the_nodes_of_a_history_name_themselves(
    history: HistoryView,
    properties: Seq<PropertyState>,
    collect_internal_identifiers: bool,
    medium_value_limit: u64,
    identifier: u128,
)
    ensures
        history.attributed(
            properties,
            collect_internal_identifiers,
            medium_value_limit,
        ).internal_identifiers.contains(identifier) <==> {
            ||| history.internal_identifiers.contains(identifier)
            ||| collect_internal_identifiers && exists|i: int|
                0 <= i < properties.len() && identifies(#[trigger] properties[i], identifier)
        },
{
    let counted = HistoryView { nodes: (history.nodes + 1) as u64, ..history };
    lemma_marks(
        counted,
        properties,
        content::named_text(properties, "jcr:primaryType"@),
        collect_internal_identifiers,
        medium_value_limit,
        identifier,
    );
}

/// A node counts once, and what tells a history from others stays.
pub proof fn law_a_node_counts_once(
    history: HistoryView,
    properties: Seq<PropertyState>,
    collect_internal_identifiers: bool,
    medium_value_limit: u64,
)
    requires
        history.nodes < 0xffff_ffff_ffff_ffff,
    ensures
        ({
            let after = history.attributed(
                properties,
                collect_internal_identifiers,
                medium_value_limit,
            );
            &&& after.nodes == history.nodes + 1
            &&& after.versionable == history.versionable
            &&& after.record == history.record
            &&& after.path == history.path
        }),
{
    let counted = HistoryView { nodes: (history.nodes + 1) as u64, ..history };
    lemma_marks(
        counted,
        properties,
        content::named_text(properties, "jcr:primaryType"@),
        collect_internal_identifiers,
        medium_value_limit,
        0,
    );
}

proof fn lemma_marks(
    history: HistoryView,
    properties: Seq<PropertyState>,
    primary_type: Option<Seq<char>>,
    collect: bool,
    limit: u64,
    identifier: u128,
)
    ensures
        ({
            let after = history.with_properties(properties, primary_type, collect, limit);
            &&& after.freezes_a_configuration <==> history.freezes_a_configuration || exists|
                i: int,
            |
                0 <= i < properties.len() && froze_configuration(#[trigger] properties[i])
            &&& after.internal_identifiers.contains(identifier) <==> {
                ||| history.internal_identifiers.contains(identifier)
                ||| collect && exists|i: int|
                    0 <= i < properties.len() && identifies(#[trigger] properties[i], identifier)
            }
            &&& after.nodes == history.nodes
            &&& after.versionable == history.versionable
            &&& after.record == history.record
            &&& after.path == history.path
        }),
    decreases properties.len(),
{
    if properties.len() > 0 {
        let shorter = properties.drop_last();
        let last = properties.last();
        let end = properties.len() - 1;
        lemma_marks(history, shorter, primary_type, collect, limit, identifier);
        let middle = history.with_properties(shorter, primary_type, collect, limit);
        let valued = middle.with_values(last.all(), limit);
        lemma_values_keep_meaning(middle, last.all(), limit);
        let after = history.with_properties(properties, primary_type, collect, limit);
        assert(properties[end] == last);
        assert(forall|i: int| 0 <= i < end ==> shorter[i] == properties[i]);
        assert(froze_configuration(last) == history::freezes_configuration(last));
        if exists|i: int| 0 <= i < shorter.len() && froze_configuration(#[trigger] shorter[i]) {
            let i = choose|i: int|
                0 <= i < shorter.len() && froze_configuration(#[trigger] shorter[i]);
            assert(froze_configuration(properties[i]));
        }
        if exists|i: int| 0 <= i < shorter.len() && identifies(#[trigger] shorter[i], identifier) {
            let i = choose|i: int|
                0 <= i < shorter.len() && identifies(#[trigger] shorter[i], identifier);
            assert(identifies(properties[i], identifier));
        }
        assert(identifies(last, identifier) == (history::own_identifier(last) == Some(identifier)))
            by {
            if history::own_identifier(last) == Some(identifier) {
                assert(begins_with(last, content::leading_text(last)->0));
            }
        }
        let known = valued.internal_identifiers;
        if history::own_identifier(last) is Some && collect {
            let own = history::own_identifier(last)->0;
            assert(after.internal_identifiers == known.push(own));
            assert(known.push(own).contains(identifier) <==> known.contains(identifier) || own
                == identifier) by {
                if known.contains(identifier) {
                    let i = choose|i: int| 0 <= i < known.len() && known[i] == identifier;
                    assert(known.push(own)[i] == identifier);
                }
                assert(known.push(own)[known.len() as int] == own);
            }
        } else {
            assert(after.internal_identifiers == known);
        }
    }
}

/// The bytes that a value holds inside the store.
pub open spec fn inline_bytes(value: PropertyValue) -> nat {
    match value {
        PropertyValue::Binary(BinaryValue::Inline { length, .. }) => length as nat,
        _ => 0,
    }
}

/// The bytes that some values hold inside the store, one after the other.
pub open spec fn inline_sum(values: Seq<PropertyValue>) -> nat
    decreases values.len(),
{
    if values.len() == 0 {
        0
    } else {
        inline_bytes(values[0]) + inline_sum(values.drop_first())
    }
}

/// Which values are binaries outside the store.
pub open spec fn outside_places(values: Seq<PropertyValue>) -> Set<int> {
    Set::new(
        |i: int|
            0 <= i < values.len() && values[i] matches PropertyValue::Binary(
                BinaryValue::External { .. },
            ),
    )
}

proof fn lemma_inline_sum_push(values: Seq<PropertyValue>)
    requires
        values.len() > 0,
    ensures
        inline_sum(values) == inline_sum(values.drop_last()) + inline_bytes(values.last()),
    decreases values.len(),
{
    if values.len() > 1 {
        let rest = values.drop_first();
        lemma_inline_sum_push(rest);
        assert(rest.drop_last() =~= values.drop_last().drop_first());
    } else {
        assert(values.drop_last() =~= Seq::empty());
        assert(values.drop_first() =~= Seq::empty());
    }
}

/// The values of a property add the bytes of each binary inside the store, as far
/// as the sum fits, one reference for each binary outside of it, and the bulk
/// segments among the blocks of any.
pub proof fn law_every_value_is_accounted_for(
    history: HistoryView,
    values: Seq<PropertyValue>,
    medium_value_limit: u64,
    segment: SegmentIdentifier,
)
    requires
        history.external_references + values.len() <= 0xffff_ffff_ffff_ffff,
    ensures
        ({
            let after = history.with_values(values, medium_value_limit);
            let total = history.inline_binary_bytes + inline_sum(values);
            &&& after.inline_binary_bytes == (if total > 0xffff_ffff_ffff_ffff {
                0xffff_ffff_ffff_ffff
            } else {
                total
            })
            &&& after.external_references == history.external_references + outside_places(
                values,
            ).len()
            &&& outside_places(values).finite()
            &&& after.bulk_segments.contains(segment) <==> {
                ||| history.bulk_segments.contains(segment)
                ||| exists|i: int|
                    0 <= i < values.len() && #[trigger] values::holds_block(
                        values[i],
                        medium_value_limit,
                        segment,
                    )
            }
        }),
    decreases values.len(),
{
    let after = history.with_values(values, medium_value_limit);
    if values.len() == 0 {
        assert(outside_places(values) =~= Set::empty());
    } else {
        let shorter = values.drop_last();
        let last = values.last();
        let end = values.len() - 1;
        law_every_value_is_accounted_for(history, shorter, medium_value_limit, segment);
        lemma_inline_sum_push(values);
        values::law_a_value_occupies_the_bulk_of_its_blocks(last, medium_value_limit, segment);
        let middle = history.with_values(shorter, medium_value_limit);
        assert(values[end] == last);
        assert(outside_places(shorter).len() <= end) by {
            lemma_outside_bound(shorter);
        }
        if last matches PropertyValue::Binary(BinaryValue::External { .. }) {
            assert(outside_places(values) =~= outside_places(shorter).insert(end));
        } else {
            assert(outside_places(values) =~= outside_places(shorter));
        }
        if exists|i: int|
            0 <= i < shorter.len() && #[trigger] values::holds_block(
                shorter[i],
                medium_value_limit,
                segment,
            ) {
            let i = choose|i: int|
                0 <= i < shorter.len() && #[trigger] values::holds_block(
                    shorter[i],
                    medium_value_limit,
                    segment,
                );
            assert(values::holds_block(values[i], medium_value_limit, segment));
        }
        if exists|i: int|
            0 <= i < values.len() && #[trigger] values::holds_block(
                values[i],
                medium_value_limit,
                segment,
            ) {
            let i = choose|i: int|
                0 <= i < values.len() && #[trigger] values::holds_block(
                    values[i],
                    medium_value_limit,
                    segment,
                );
            if i < end {
                assert(values::holds_block(shorter[i], medium_value_limit, segment));
            }
        }
        if values::holds_block(last, medium_value_limit, segment) {
            assert(values::holds_block(values[end], medium_value_limit, segment));
        }
    }
}

proof fn lemma_outside_bound(values: Seq<PropertyValue>)
    ensures
        outside_places(values).finite(),
        outside_places(values).len() <= values.len(),
    decreases values.len(),
{
    if values.len() == 0 {
        assert(outside_places(values) =~= Set::empty());
    } else {
        let shorter = values.drop_last();
        let end = values.len() - 1;
        lemma_outside_bound(shorter);
        if values[end] matches PropertyValue::Binary(BinaryValue::External { .. }) {
            assert(outside_places(values) =~= outside_places(shorter).insert(end));
        } else {
            assert(outside_places(values) =~= outside_places(shorter));
        }
    }
}

/// The bytes that the values of some properties hold inside the store.
pub open spec fn inline_sum_of(properties: Seq<PropertyState>) -> nat
    decreases properties.len(),
{
    if properties.len() == 0 {
        0
    } else {
        inline_sum(properties[0].all()) + inline_sum_of(properties.drop_first())
    }
}

/// How many values of some properties are binaries outside the store.
pub open spec fn outside_sum_of(properties: Seq<PropertyState>) -> nat
    decreases properties.len(),
{
    if properties.len() == 0 {
        0
    } else {
        outside_places(properties[0].all()).len() + outside_sum_of(properties.drop_first())
    }
}

proof fn lemma_sums_last(properties: Seq<PropertyState>)
    requires
        properties.len() > 0,
    ensures
        inline_sum_of(properties) == inline_sum_of(properties.drop_last()) + inline_sum(
            properties.last().all(),
        ),
        outside_sum_of(properties) == outside_sum_of(properties.drop_last()) + outside_places(
            properties.last().all(),
        ).len(),
    decreases properties.len(),
{
    if properties.len() > 1 {
        let rest = properties.drop_first();
        lemma_sums_last(rest);
        assert(rest.drop_last() =~= properties.drop_last().drop_first());
    } else {
        assert(properties.drop_last() =~= Seq::empty());
        assert(properties.drop_first() =~= Seq::empty());
    }
}

/// A node's properties are all accounted for, whatever they are called: the bytes of
/// every binary inside the store, as far as the sum fits, every reference to one
/// outside, and the bulk segments of all of them.
pub proof fn law_every_property_is_accounted_for(
    history: HistoryView,
    properties: Seq<PropertyState>,
    collect_internal_identifiers: bool,
    medium_value_limit: u64,
    segment: SegmentIdentifier,
)
    requires
        history.external_references + history::value_total(properties) <= 0xffff_ffff_ffff_ffff,
    ensures
        ({
            let after = history.attributed(
                properties,
                collect_internal_identifiers,
                medium_value_limit,
            );
            let total = history.inline_binary_bytes + inline_sum_of(properties);
            &&& after.inline_binary_bytes == (if total > 0xffff_ffff_ffff_ffff {
                0xffff_ffff_ffff_ffff
            } else {
                total
            })
            &&& after.external_references == history.external_references + outside_sum_of(
                properties,
            )
            &&& after.bulk_segments.contains(segment) <==> {
                ||| history.bulk_segments.contains(segment)
                ||| exists|p: int, i: int|
                    0 <= p < properties.len() && 0 <= i < properties[p].all().len()
                        && #[trigger] values::holds_block(
                        properties[p].all()[i],
                        medium_value_limit,
                        segment,
                    )
            }
        }),
{
    let counted = HistoryView { nodes: (history.nodes + 1) as u64, ..history };
    lemma_properties_accounted(
        counted,
        properties,
        content::named_text(properties, "jcr:primaryType"@),
        collect_internal_identifiers,
        medium_value_limit,
        segment,
    );
}

proof fn lemma_properties_accounted(
    history: HistoryView,
    properties: Seq<PropertyState>,
    primary_type: Option<Seq<char>>,
    collect: bool,
    limit: u64,
    segment: SegmentIdentifier,
)
    requires
        history.external_references + history::value_total(properties) <= 0xffff_ffff_ffff_ffff,
    ensures
        ({
            let after = history.with_properties(properties, primary_type, collect, limit);
            let total = history.inline_binary_bytes + inline_sum_of(properties);
            &&& after.inline_binary_bytes == (if total > 0xffff_ffff_ffff_ffff {
                0xffff_ffff_ffff_ffff
            } else {
                total
            })
            &&& after.external_references == history.external_references + outside_sum_of(
                properties,
            )
            &&& outside_sum_of(properties) <= history::value_total(properties)
            &&& after.bulk_segments.contains(segment) <==> {
                ||| history.bulk_segments.contains(segment)
                ||| exists|p: int, i: int|
                    0 <= p < properties.len() && 0 <= i < properties[p].all().len()
                        && #[trigger] values::holds_block(
                        properties[p].all()[i],
                        limit,
                        segment,
                    )
            }
        }),
    decreases properties.len(),
{
    if properties.len() > 0 {
        let shorter = properties.drop_last();
        let last = properties.last();
        let end = properties.len() - 1;
        lemma_properties_accounted(history, shorter, primary_type, collect, limit, segment);
        lemma_sums_last(properties);
        lemma_outside_bound(last.all());
        let middle = history.with_properties(shorter, primary_type, collect, limit);
        law_every_value_is_accounted_for(middle, last.all(), limit, segment);
        if exists|p: int, i: int|
            0 <= p < shorter.len() && 0 <= i < shorter[p].all().len()
                && #[trigger] values::holds_block(shorter[p].all()[i], limit, segment) {
            let (p, i) = choose|p: int, i: int|
                0 <= p < shorter.len() && 0 <= i < shorter[p].all().len()
                    && #[trigger] values::holds_block(shorter[p].all()[i], limit, segment);
            assert(values::holds_block(properties[p].all()[i], limit, segment));
        }
        if exists|i: int|
            0 <= i < last.all().len() && #[trigger] values::holds_block(
                last.all()[i],
                limit,
                segment,
            ) {
            let i = choose|i: int|
                0 <= i < last.all().len() && #[trigger] values::holds_block(
                    last.all()[i],
                    limit,
                    segment,
                );
            assert(values::holds_block(properties[end].all()[i], limit, segment));
        }
        if exists|p: int, i: int|
            0 <= p < properties.len() && 0 <= i < properties[p].all().len()
                && #[trigger] values::holds_block(properties[p].all()[i], limit, segment) {
            let (p, i) = choose|p: int, i: int|
                0 <= p < properties.len() && 0 <= i < properties[p].all().len()
                    && #[trigger] values::holds_block(properties[p].all()[i], limit, segment);
            if p < end {
                assert(values::holds_block(shorter[p].all()[i], limit, segment));
            } else {
                assert(values::holds_block(last.all()[i], limit, segment));
            }
        }
    }
}

/// A history begins with nothing to its account: no node, no bytes, no reference, no
/// version, nothing that protects it, and no identifier.
pub proof fn law_a_history_begins_with_nothing(
    versionable: u128,
    record: RecordIdentifier,
    path: Seq<char>,
)
    ensures
        ({
            let begun = HistoryView::begun(versionable, record, path);
            &&& begun.versionable == versionable
            &&& begun.record == record
            &&& begun.path == path
            &&& begun.nodes == 0
            &&& begun.inline_binary_bytes == 0
            &&& begun.external_references == 0
            &&& begun.bulk_segments.len() == 0
            &&& begun.newest_version_created is None
            &&& !begun.freezes_a_configuration
            &&& begun.internal_identifiers.len() == 0
        }),
{
}

} // verus!
