//! Purge candidates that something outside version storage still points at.
//!
//! The store does not enforce referential integrity, so this is best-effort
//! protection for applications that store references to versions: it demotes
//! candidates, and never authorises one. The walk covers the head's content
//! and skips exactly the version-storage subtree. The skip is anchored to the
//! record of version storage and not to node names, so that a node which
//! happens to be called like it still has its references checked.
use std::collections::{HashMap, HashSet};
use vstd::prelude::*;
use vstd::std_specs::hash::*;
use vstd::string::*;
use crate::content::{ChildNode, NodeFacts, PropertyState, PropertyType, PropertyValue};
use crate::identifier::RecordIdentifier;
use crate::number;
use crate::planning::paths::parse_identifier;
use crate::reach;
use crate::trace::RecordWalk;

verus! {

/// The identifier that a value spells.
pub open spec fn target_of(value: PropertyValue) -> Option<u128> {
    match value.text() {
        Some(text) => number::identifier_value(vstd::utf8::encode_utf8(text)),
        None => None,
    }
}

/// The candidate that a value points into.
pub open spec fn demoted_by_value(value: PropertyValue, owners: Map<u128, u128>) -> Set<u128> {
    if target_of(value) is Some && owners.contains_key(target_of(value)->0) {
        set![owners[target_of(value)->0]]
    } else {
        Set::empty()
    }
}

/// The candidates that some values point into.
pub open spec fn demoted_by_values(values: Seq<PropertyValue>, owners: Map<u128, u128>) -> Set<u128>
    decreases values.len(),
{
    if values.len() == 0 {
        Set::empty()
    } else {
        demoted_by_values(values.drop_last(), owners).union(
            demoted_by_value(values.last(), owners),
        )
    }
}

/// Whether a property holds references.
pub open spec fn holds_references(property: PropertyState) -> bool {
    property.property_type == PropertyType::Reference || property.property_type
        == PropertyType::WeakReference
}

/// The candidates that the references among some properties point into.
pub open spec fn demoted_by_properties(
    properties: Seq<PropertyState>,
    owners: Map<u128, u128>,
) -> Set<u128>
    decreases properties.len(),
{
    if properties.len() == 0 {
        Set::empty()
    } else {
        let earlier = demoted_by_properties(properties.drop_last(), owners);
        if holds_references(properties.last()) {
            earlier.union(demoted_by_values(properties.last().all(), owners))
        } else {
            earlier
        }
    }
}

/// The children that the walk enters: all but version storage.
pub open spec fn children_outside(
    children: Seq<ChildNode>,
    version_storage: Option<RecordIdentifier>,
) -> Seq<RecordIdentifier>
    decreases children.len(),
{
    if children.len() == 0 {
        Seq::empty()
    } else {
        let earlier = children_outside(children.drop_last(), version_storage);
        if version_storage == Some(children.last().record) {
            earlier
        } else {
            earlier.push(children.last().record)
        }
    }
}

/// Whether some walked record demotes a candidate.
pub open spec fn demotes(found: Map<RecordIdentifier, Set<u128>>, candidate: u128) -> bool {
    exists|record: RecordIdentifier|
        found.contains_key(record) && #[trigger] found[record].contains(candidate)
}

fn collect_demoted(
    properties: &Vec<PropertyState>,
    owners: &HashMap<u128, u128>,
    demoted: &mut HashSet<u128>,
)
    ensures
        final(demoted)@ == old(demoted)@.union(demoted_by_properties(properties@, owners@)),
{
    broadcast use group_hash_axioms;

    let ghost before = demoted@;
    let mut index: usize = 0;
    assert(properties@.take(0) =~= Seq::empty());
    assert(before.union(Set::empty()) =~= before);
    while index < properties.len()
        invariant
            index <= properties@.len(),
            demoted@ == before.union(
                demoted_by_properties(properties@.take(index as int), owners@),
            ),
        decreases properties@.len() - index,
    {
        let property = &properties[index];
        let ghost earlier = demoted_by_properties(properties@.take(index as int), owners@);
        let ghost all = property.all();
        proof {
            let longer = properties@.take(index as int + 1);
            assert(longer.drop_last() =~= properties@.take(index as int));
            assert(longer.last() == *property);
        }
        let relevant = match property.property_type {
            PropertyType::Reference => true,
            PropertyType::WeakReference => true,
            _ => false,
        };
        if relevant {
            let ghost known = demoted@;
            let mut position: usize = 0;
            assert(all.take(0) =~= Seq::empty());
            assert(known.union(Set::empty()) =~= known);
            while position < property.value_count()
                invariant
                    all == property.all(),
                    position <= all.len(),
                    demoted@ == known.union(
                        demoted_by_values(all.take(position as int), owners@),
                    ),
                decreases all.len() - position,
            {
                let value = property.value_at(position);
                let ghost so_far = demoted_by_values(all.take(position as int), owners@);
                let ghost present = demoted@;
                proof {
                    let longer = all.take(position as int + 1);
                    assert(longer.drop_last() =~= all.take(position as int));
                    assert(longer.last() == *value);
                }
                if let Some(rendered) = value.as_text() {
                    if let Some(target) = parse_identifier(rendered.as_str()) {
                        if let Some(candidate) = owners.get(&target) {
                            demoted.insert(*candidate);
                        }
                    }
                }
                proof {
                    assert(demoted@ =~= present.union(demoted_by_value(*value, owners@)));
                    assert(demoted@ =~= known.union(
                        so_far.union(demoted_by_value(*value, owners@)),
                    ));
                }
                position = position + 1;
            }
            proof {
                assert(all.take(position as int) =~= all);
                assert(before.union(earlier).union(demoted_by_values(all, owners@))
                    =~= before.union(earlier.union(demoted_by_values(all, owners@))));
            }
        }
        index = index + 1;
    }
    assert(properties@.take(index as int) =~= properties@);
}

/// The pass over references in the making: a walk over the head's content.
pub struct ReferencePass {
    content_root: RecordIdentifier,
    version_storage: Option<RecordIdentifier>,
    owners: HashMap<u128, u128>,
    walk: RecordWalk,
    demoted: HashSet<u128>,
    found: Ghost<Map<RecordIdentifier, Set<u128>>>,
}

impl ReferencePass {
    /// The record that the walk started from.
    pub closed spec fn content_root(&self) -> RecordIdentifier {
        self.content_root
    }

    /// The record that the walk leaves out.
    pub closed spec fn version_storage(&self) -> Option<RecordIdentifier> {
        self.version_storage
    }

    /// Which candidate each identifier is inside of.
    pub closed spec fn owners(&self) -> Map<u128, u128> {
        self.owners@
    }

    /// What each walked record leads to.
    pub closed spec fn children(&self) -> Map<RecordIdentifier, Seq<RecordIdentifier>> {
        self.walk.children()
    }

    /// The candidates that each walked record points into.
    pub closed spec fn found(&self) -> Map<RecordIdentifier, Set<u128>> {
        self.found@
    }

    /// The record whose node is asked for.
    pub closed spec fn awaits(&self) -> Option<RecordIdentifier> {
        self.walk.awaits()
    }

    /// Whether nothing is left to walk.
    pub closed spec fn is_exhausted(&self) -> bool {
        self.walk.is_exhausted()
    }

    /// The demoted candidates are those of the records walked so far.
    pub closed spec fn well_formed(&self) -> bool {
        &&& self.walk.well_formed()
        &&& self.walk.roots() == set![self.content_root]
        &&& self.found@.dom() == self.walk.children().dom()
        &&& forall|candidate: u128|
            self.demoted@.contains(candidate) <==> #[trigger] demotes(self.found@, candidate)
    }

    /// Asks for the next node, or says that the pass is complete.
    pub fn next(&mut self) -> (wanted: Option<RecordIdentifier>)
        requires
            old(self).well_formed(),
            old(self).awaits() is None,
        ensures
            final(self).well_formed(),
            final(self).content_root() == old(self).content_root(),
            final(self).version_storage() == old(self).version_storage(),
            final(self).owners() == old(self).owners(),
            final(self).children() == old(self).children(),
            final(self).found() == old(self).found(),
            final(self).awaits() == wanted,
            wanted is None ==> final(self).is_exhausted(),
            wanted is Some ==> !old(self).children().contains_key(wanted->0),
    {
        self.walk.next()
    }

    /// Takes the node that was asked for.
    pub fn supply(&mut self, node: &NodeFacts)
        requires
            old(self).well_formed(),
            old(self).awaits() is Some,
        ensures
            final(self).well_formed(),
            final(self).content_root() == old(self).content_root(),
            final(self).version_storage() == old(self).version_storage(),
            final(self).owners() == old(self).owners(),
            final(self).children() == old(self).children().insert(
                old(self).awaits()->0,
                children_outside(node.children@, old(self).version_storage()),
            ),
            final(self).found() == old(self).found().insert(
                old(self).awaits()->0,
                demoted_by_properties(node.properties@, old(self).owners()),
            ),
            final(self).awaits() is None,
    {
        let ghost record = self.walk.awaits()->0;
        let ghost before = self.found@;
        let ghost known = self.demoted@;
        let ghost gained = demoted_by_properties(node.properties@, self.owners@);
        proof {
            self.walk.lemma_awaited_is_new();
            assert(before.dom().contains(record) == self.walk.children().dom().contains(record));
        }
        collect_demoted(&node.properties, &self.owners, &mut self.demoted);
        let mut entered: Vec<RecordIdentifier> = Vec::new();
        let mut index: usize = 0;
        assert(node.children@.take(0) =~= Seq::empty());
        while index < node.children.len()
            invariant
                index <= node.children@.len(),
                entered@ == children_outside(
                    node.children@.take(index as int),
                    self.version_storage,
                ),
            decreases node.children@.len() - index,
        {
            let child = &node.children[index];
            proof {
                let longer = node.children@.take(index as int + 1);
                assert(longer.drop_last() =~= node.children@.take(index as int));
                assert(longer.last() == *child);
            }
            let skipped = match self.version_storage {
                Some(storage) => storage == child.record,
                None => false,
            };
            if !skipped {
                entered.push(child.record);
            }
            index = index + 1;
        }
        assert(node.children@.take(index as int) =~= node.children@);
        self.walk.supply(entered);
        self.found = Ghost(before.insert(record, gained));
        proof {
            let after = self.found@;
            assert(after.dom() =~= self.walk.children().dom());
            assert forall|candidate: u128|
                self.demoted@.contains(candidate) <==> #[trigger] demotes(after, candidate) by {
                assert(known.contains(candidate) <==> demotes(before, candidate));
                if demotes(after, candidate) {
                    let owner = choose|owner: RecordIdentifier|
                        after.contains_key(owner) && #[trigger] after[owner].contains(candidate);
                    if owner != record {
                        assert(before.contains_key(owner) && before[owner].contains(candidate));
                    }
                }
                if demotes(before, candidate) {
                    let owner = choose|owner: RecordIdentifier|
                        before.contains_key(owner) && #[trigger] before[owner].contains(candidate);
                    assert(owner != record);
                    assert(after.contains_key(owner) && after[owner].contains(candidate));
                }
                if gained.contains(candidate) {
                    assert(after.contains_key(record) && after[record].contains(candidate));
                }
            }
        }
    }

    /// The candidates that the references of any record outside version
    /// storage point into, and no others.
    pub fn finish(self) -> (demoted: HashSet<u128>)
        requires
            self.well_formed(),
            self.is_exhausted(),
        ensures
            forall|record: RecordIdentifier| #[trigger]
                self.found().contains_key(record) <==> reach::reached(
                    self.children(),
                    set![self.content_root()],
                    Set::empty(),
                    record,
                ),
            forall|candidate: u128|
                demoted@.contains(candidate) <==> #[trigger] demotes(self.found(), candidate),
    {
        proof {
            self.walk.lemma_finished();
            assert forall|record: RecordIdentifier| #[trigger] self.found().contains_key(
                record,
            ) <==> reach::reached(
                self.children(),
                set![self.content_root()],
                Set::empty(),
                record,
            ) by {
                assert(self.found@.dom().contains(record) == self.walk.children().dom().contains(
                    record,
                ));
            }
        }
        self.demoted
    }
}

/// Starts the pass over the references of the head's content.
pub fn demoted_by_inbound_references(
    content_root: RecordIdentifier,
    version_storage: Option<RecordIdentifier>,
    candidate_identifiers: HashMap<u128, u128>,
) -> (pass: ReferencePass)
    ensures
        pass.well_formed(),
        pass.content_root() == content_root,
        pass.version_storage() == version_storage,
        pass.owners() == candidate_identifiers@,
        pass.children() == Map::<RecordIdentifier, Seq<RecordIdentifier>>::empty(),
        pass.found() == Map::<RecordIdentifier, Set<u128>>::empty(),
        pass.awaits() is None,
{
    broadcast use group_hash_axioms;

    let pass = ReferencePass {
        content_root,
        version_storage,
        owners: candidate_identifiers,
        walk: RecordWalk::from_root(content_root),
        demoted: HashSet::new(),
        found: Ghost(Map::empty()),
    };
    assert(pass.found@.dom() =~= pass.walk.children().dom());
    pass
}

} // verus!
