//! Which purge candidates the references of the content keep, and whose they are.
use vstd::prelude::*;
use vstd::string::*;
use crate::content::{ChildNode, PropertyState, PropertyType, PropertyValue};
use crate::identifier::RecordIdentifier;
use crate::number;
use crate::planning::history::HistoryView;
use crate::planning::purge;
use crate::planning::references;

verus! {

/// Whether the text of a value reads as this identifier.
pub open spec fn reads_as(value: PropertyValue, identifier: u128) -> bool {
    &&& value.text() matches Some(written)
    &&& number::identifier_value(vstd::utf8::encode_utf8(written)) == Some(identifier)
}

/// Whether a value reads as an identifier inside a candidate.
pub open spec fn points_into(
    value: PropertyValue,
    owners: Map<u128, u128>,
    candidate: u128,
) -> bool {
    exists|identifier: u128| #[trigger]
        reads_as(value, identifier) && owners.contains_key(identifier) && owners[identifier]
            == candidate
}

proof fn lemma_values(values: Seq<PropertyValue>, owners: Map<u128, u128>, candidate: u128)
    ensures
        references::demoted_by_values(values, owners).contains(candidate) <==> exists|i: int|
            0 <= i < values.len() && #[trigger] points_into(values[i], owners, candidate),
    decreases values.len(),
{
    if values.len() > 0 {
        let shorter = values.drop_last();
        let last = values.last();
        let end = values.len() - 1;
        lemma_values(shorter, owners, candidate);
        assert(references::demoted_by_value(last, owners).contains(candidate) <==> points_into(
            last,
            owners,
            candidate,
        )) by {
            if references::demoted_by_value(last, owners).contains(candidate) {
                assert(reads_as(last, references::target_of(last)->0));
            }
            if points_into(last, owners, candidate) {
                let identifier = choose|identifier: u128| #[trigger]
                    reads_as(last, identifier) && owners.contains_key(identifier)
                        && owners[identifier] == candidate;
                assert(references::target_of(last) == Some(identifier));
            }
        }
        if exists|i: int|
            0 <= i < shorter.len() && #[trigger] points_into(shorter[i], owners, candidate) {
            let i = choose|i: int|
                0 <= i < shorter.len() && #[trigger] points_into(shorter[i], owners, candidate);
            assert(points_into(values[i], owners, candidate));
        }
        if exists|i: int|
            0 <= i < values.len() && #[trigger] points_into(values[i], owners, candidate) {
            let i = choose|i: int|
                0 <= i < values.len() && #[trigger] points_into(values[i], owners, candidate);
            if i < end {
                assert(points_into(shorter[i], owners, candidate));
            }
        }
        if points_into(last, owners, candidate) {
            assert(points_into(values[end], owners, candidate));
        }
    }
}

/// A candidate is demoted by a node exactly if one of the node's references, strong
/// or weak, and at whatever place among its values, reads as an identifier inside
/// the candidate.
pub proof fn law_any_reference_demotes(
    properties: Seq<PropertyState>,
    owners: Map<u128, u128>,
    candidate: u128,
)
    ensures
        references::demoted_by_properties(properties, owners).contains(candidate) <==> exists|
            p: int,
            i: int,
        |
            0 <= p < properties.len() && 0 <= i < properties[p].all().len() && (
            properties[p].property_type == PropertyType::Reference || properties[p].property_type
                == PropertyType::WeakReference) && #[trigger] points_into(
                properties[p].all()[i],
                owners,
                candidate,
            ),
    decreases properties.len(),
{
    if properties.len() > 0 {
        let shorter = properties.drop_last();
        let last = properties.last();
        let end = properties.len() - 1;
        law_any_reference_demotes(shorter, owners, candidate);
        lemma_values(last.all(), owners, candidate);
        if references::demoted_by_properties(shorter, owners).contains(candidate) {
            let (p, i) = choose|p: int, i: int|
                0 <= p < shorter.len() && 0 <= i < shorter[p].all().len() && (
                shorter[p].property_type == PropertyType::Reference || shorter[p].property_type
                    == PropertyType::WeakReference) && #[trigger] points_into(
                    shorter[p].all()[i],
                    owners,
                    candidate,
                );
            assert(properties[p] == shorter[p]);
            assert(points_into(properties[p].all()[i], owners, candidate));
        }
        if references::demoted_by_values(last.all(), owners).contains(candidate) {
            let i = choose|i: int|
                0 <= i < last.all().len() && #[trigger] points_into(
                    last.all()[i],
                    owners,
                    candidate,
                );
            assert(points_into(properties[end].all()[i], owners, candidate));
        }
        if exists|p: int, i: int|
            0 <= p < properties.len() && 0 <= i < properties[p].all().len() && (
            properties[p].property_type == PropertyType::Reference || properties[p].property_type
                == PropertyType::WeakReference) && #[trigger] points_into(
                properties[p].all()[i],
                owners,
                candidate,
            ) {
            let (p, i) = choose|p: int, i: int|
                0 <= p < properties.len() && 0 <= i < properties[p].all().len() && (
                properties[p].property_type == PropertyType::Reference
                    || properties[p].property_type == PropertyType::WeakReference)
                    && #[trigger] points_into(properties[p].all()[i], owners, candidate);
            if p < end {
                assert(shorter[p] == properties[p]);
                assert(points_into(shorter[p].all()[i], owners, candidate));
            } else {
                assert(points_into(last.all()[i], owners, candidate));
            }
        }
    }
}

/// The walk over references enters every child but the record of version storage,
/// whatever the child is called.
pub proof fn law_only_version_storage_is_left_out(
    children: Seq<ChildNode>,
    version_storage: Option<RecordIdentifier>,
    record: RecordIdentifier,
)
    ensures
        references::children_outside(children, version_storage).contains(record) <==> {
            &&& version_storage != Some(record)
            &&& exists|i: int| 0 <= i < children.len() && (#[trigger] children[i]).record == record
        },
    decreases children.len(),
{
    let entered = references::children_outside(children, version_storage);
    if children.len() == 0 {
        assert(!entered.contains(record));
    } else {
        let shorter = children.drop_last();
        let end = children.len() - 1;
        law_only_version_storage_is_left_out(shorter, version_storage, record);
        let earlier = references::children_outside(shorter, version_storage);
        assert(children[end] == children.last());
        assert(forall|i: int| 0 <= i < end ==> children[i] == shorter[i]);
        if exists|i: int| 0 <= i < shorter.len() && (#[trigger] shorter[i]).record == record {
            let i = choose|i: int|
                0 <= i < shorter.len() && (#[trigger] shorter[i]).record == record;
            assert(children[i].record == record);
        }
        if earlier.contains(record) {
            let i = choose|i: int| 0 <= i < earlier.len() && earlier[i] == record;
            assert(entered[i] == record);
        }
        if entered.contains(record) {
            let i = choose|i: int| 0 <= i < entered.len() && entered[i] == record;
            if i < earlier.len() {
                assert(earlier[i] == record);
            }
        }
        if version_storage != Some(children.last().record) {
            assert(entered[earlier.len() as int] == children.last().record);
        }
    }
}

proof fn lemma_claimed(
    owners: Map<u128, u128>,
    identifiers: Seq<u128>,
    versionable: u128,
    identifier: u128,
)
    ensures
        ({
            let after = purge::claimed(owners, identifiers, versionable);
            &&& identifiers.contains(identifier) ==> after.contains_key(identifier)
                && after[identifier] == versionable
            &&& !identifiers.contains(identifier) ==> after.contains_key(identifier)
                == owners.contains_key(identifier) && after[identifier] == owners[identifier]
        }),
    decreases identifiers.len(),
{
    if identifiers.len() > 0 {
        let shorter = identifiers.drop_last();
        let last = identifiers.last();
        lemma_claimed(owners, shorter, versionable, identifier);
        assert(identifiers.contains(identifier) <==> shorter.contains(identifier) || identifier
            == last) by {
            if identifiers.contains(identifier) {
                let i = choose|i: int|
                    0 <= i < identifiers.len() && identifiers[i] == identifier;
                if i < shorter.len() {
                    assert(shorter[i] == identifier);
                }
            }
            if shorter.contains(identifier) {
                let i = choose|i: int| 0 <= i < shorter.len() && shorter[i] == identifier;
                assert(identifiers[i] == identifier);
            }
            assert(identifiers[identifiers.len() - 1] == last);
        }
    } else {
        assert(!identifiers.contains(identifier));
    }
}

/// The references are held against every identifier inside a candidate's history
/// and against no other; each leads to a candidate that it is inside of, the last
/// one where several claim it.
pub proof fn law_every_internal_identifier_leads_to_its_candidate(
    histories: Seq<HistoryView>,
    candidates: Set<u128>,
    identifier: u128,
)
    ensures
        ({
            let owners = purge::internal_owners(histories, candidates);
            &&& owners.contains_key(identifier) <==> exists|i: int|
                0 <= i < histories.len() && candidates.contains(
                    (#[trigger] histories[i]).versionable,
                ) && histories[i].internal_identifiers.contains(identifier)
            &&& owners.contains_key(identifier) ==> exists|i: int|
                0 <= i < histories.len() && candidates.contains(
                    (#[trigger] histories[i]).versionable,
                ) && histories[i].internal_identifiers.contains(identifier)
                    && owners[identifier] == histories[i].versionable && forall|j: int|
                    i < j < histories.len() && candidates.contains(
                        (#[trigger] histories[j]).versionable,
                    ) ==> !histories[j].internal_identifiers.contains(identifier)
        }),
    decreases histories.len(),
{
    if histories.len() > 0 {
        let shorter = histories.drop_last();
        let last = histories.last();
        let end = histories.len() - 1;
        law_every_internal_identifier_leads_to_its_candidate(shorter, candidates, identifier);
        let earlier = purge::internal_owners(shorter, candidates);
        let owners = purge::internal_owners(histories, candidates);
        lemma_claimed(earlier, last.internal_identifiers, last.versionable, identifier);
        assert(histories[end] == last);
        assert(forall|i: int| 0 <= i < end ==> histories[i] == shorter[i]);
        if candidates.contains(last.versionable) && last.internal_identifiers.contains(
            identifier,
        ) {
            assert(owners[identifier] == histories[end].versionable);
        } else if earlier.contains_key(identifier) {
            let i = choose|i: int|
                0 <= i < shorter.len() && candidates.contains(
                    (#[trigger] shorter[i]).versionable,
                ) && shorter[i].internal_identifiers.contains(identifier)
                    && earlier[identifier] == shorter[i].versionable && forall|j: int|
                    i < j < shorter.len() && candidates.contains(
                        (#[trigger] shorter[j]).versionable,
                    ) ==> !shorter[j].internal_identifiers.contains(identifier);
            assert(histories[i] == shorter[i]);
            assert forall|j: int|
                i < j < histories.len() && candidates.contains(
                    (#[trigger] histories[j]).versionable,
                ) implies !histories[j].internal_identifiers.contains(identifier) by {
                if j < end {
                    assert(shorter[j] == histories[j]);
                }
            }
            assert(owners[identifier] == histories[i].versionable);
        } else {
            assert forall|i: int|
                0 <= i < histories.len() && candidates.contains(
                    (#[trigger] histories[i]).versionable,
                ) implies !histories[i].internal_identifiers.contains(identifier) by {
                if i < end {
                    assert(shorter[i] == histories[i]);
                }
            }
        }
    }
}

} // verus!
