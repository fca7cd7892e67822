//! What the walk that verifies the head collects about the content beside its
//! verification.
use vstd::prelude::*;
use vstd::string::*;
use crate::content;
use crate::content::{PropertyState, PropertyValue, PropertyValues};
use crate::identifier::{SegmentIdentifier, SegmentSet};
use crate::number;
use crate::planning::external_binaries::{CensusView, ExternalBinaryCensus};
use crate::planning::paths::parse_identifier;
use crate::planning::version_storage::{StorageView, VersionStorageCensus};
use crate::shared_bulk;
use crate::shared_bulk::collect_bulk_blocks;
use crate::text::text_eq;

verus! {

/// The identifier by which a property marks its node alive.
pub open spec fn live_identifier(property: PropertyState) -> Option<u128> {
    if property.name@ == "jcr:uuid"@ {
        match property.values {
            PropertyValues::Single(PropertyValue::String(value)) => number::identifier_value(
                vstd::utf8::encode_utf8(value@),
            ),
            _ => None,
        }
    } else {
        None
    }
}

/// What a walk has collected.
#[verifier::ext_equal]
pub struct ContentView {
    /// The external binaries.
    pub external_binaries: CensusView,
    /// Version storage.
    pub version_storage: StorageView,
    /// Whether an identifier marks its node alive.
    pub match_live_identifiers: bool,
    /// Bulk segments that the content references.
    pub live_bulk: Set<SegmentIdentifier>,
}

impl ContentView {
    /// After one property.
    pub open spec fn with_property(self, property: PropertyState, medium_value_limit: u64) -> Self {
        ContentView {
            external_binaries: self.external_binaries.observing_all(property.all()),
            live_bulk: self.live_bulk.union(
                shared_bulk::values_bulk(property.all(), medium_value_limit),
            ),
            version_storage: match live_identifier(property) {
                Some(identifier) => if self.match_live_identifiers {
                    self.version_storage.marking(identifier)
                } else {
                    self.version_storage
                },
                None => self.version_storage,
            },
            ..self
        }
    }

    /// After one node.
    pub open spec fn with_node(self, properties: Seq<PropertyState>, medium_value_limit: u64) -> Self
        decreases properties.len(),
    {
        if properties.len() == 0 {
            self
        } else {
            self.with_node(properties.drop_last(), medium_value_limit).with_property(
                properties.last(),
                medium_value_limit,
            )
        }
    }
}

/// Everything the walk that verifies the head collects about the content.
pub struct PlanningContentCensus {
    /// The external binaries that the head references.
    pub external_binaries: ExternalBinaryCensus,
    /// What the scan of version storage established; live identifiers resolve
    /// it.
    pub version_storage: VersionStorageCensus,
    /// Whether a `jcr:uuid` seen now marks a versionable alive. True only
    /// during the walk over the head's content: orphans are judged against the
    /// head alone, because a checkpoint carries its own snapshot of version
    /// storage and loses nothing.
    pub match_live_identifiers: bool,
    /// Bulk segments referenced outside orphaned histories.
    pub live_bulk: SegmentSet,
}

impl View for PlanningContentCensus {
    type V = ContentView;

    open spec fn view(&self) -> ContentView {
        ContentView {
            external_binaries: self.external_binaries@,
            version_storage: self.version_storage@,
            match_live_identifiers: self.match_live_identifiers,
            live_bulk: self.live_bulk.listed().to_set(),
        }
    }
}

impl Default for PlanningContentCensus {
    fn default() -> (census: Self)
        ensures
            census.well_formed(),
            census@ == (ContentView {
                external_binaries: CensusView {
                    distinct: Set::empty(),
                    measured_bytes: 0,
                    unmeasured_references: 0,
                },
                version_storage: StorageView::nothing(),
                match_live_identifiers: false,
                live_bulk: Set::empty(),
            }),
    {
        let census = PlanningContentCensus {
            external_binaries: ExternalBinaryCensus::default(),
            version_storage: VersionStorageCensus::default(),
            match_live_identifiers: false,
            live_bulk: SegmentSet::new(),
        };
        assert(census.live_bulk.listed().to_set() =~= Set::empty());
        census
    }
}

impl PlanningContentCensus {
    /// Each part is well formed.
    pub open spec fn well_formed(&self) -> bool {
        &&& self.external_binaries.well_formed()
        &&& self.version_storage.well_formed()
        &&& self.live_bulk.well_formed()
    }

    fn add_property(&mut self, property: &PropertyState, medium_value_limit: u64)
        requires
            old(self).well_formed(),
        ensures
            final(self).well_formed(),
            final(self)@ == old(self)@.with_property(*property, medium_value_limit),
    {
        let ghost before = self@;
        let ghost all = property.all();
        self.external_binaries.observe_property(property);
        let mut position: usize = 0;
        assert(all.take(0) =~= Seq::empty());
        assert(before.live_bulk.union(Set::empty()) =~= before.live_bulk);
        while position < property.value_count()
            invariant
                all == property.all(),
                position <= all.len(),
                self.well_formed(),
                self.external_binaries@ == before.external_binaries.observing_all(all),
                self.version_storage@ == before.version_storage,
                self.match_live_identifiers == before.match_live_identifiers,
                self.live_bulk.listed().to_set() == before.live_bulk.union(
                    shared_bulk::values_bulk(all.take(position as int), medium_value_limit),
                ),
            decreases all.len() - position,
        {
            let ghost earlier = shared_bulk::values_bulk(
                all.take(position as int),
                medium_value_limit,
            );
            let value = property.value_at(position);
            collect_bulk_blocks(value, medium_value_limit, &mut self.live_bulk);
            proof {
                let longer = all.take(position as int + 1);
                assert(longer.drop_last() =~= all.take(position as int));
                assert(longer.last() == *value);
                let gained = content::bulk_of_value(*value, medium_value_limit);
                assert(before.live_bulk.union(earlier).union(gained) =~= before.live_bulk.union(
                    earlier.union(gained),
                ));
            }
            position = position + 1;
        }
        assert(all.take(position as int) =~= all);
        if self.match_live_identifiers && text_eq(property.name.as_str(), "jcr:uuid") {
            if let PropertyValues::Single(PropertyValue::String(value)) = &property.values {
                if let Some(identifier) = parse_identifier(value.as_str()) {
                    self.version_storage.mark_live(identifier);
                }
            }
        }
    }

    /// One node of the walked content.
    pub fn node_verified(&mut self, properties: &Vec<PropertyState>, medium_value_limit: u64)
        requires
            old(self).well_formed(),
        ensures
            final(self).well_formed(),
            final(self)@ == old(self)@.with_node(properties@, medium_value_limit),
    {
        let ghost before = self@;
        let mut index: usize = 0;
        assert(properties@.take(0) =~= Seq::empty());
        while index < properties.len()
            invariant
                index <= properties@.len(),
                self.well_formed(),
                self@ == before.with_node(properties@.take(index as int), medium_value_limit),
            decreases properties@.len() - index,
        {
            assert(properties@.take(index as int + 1).drop_last() =~= properties@.take(
                index as int,
            ));
            self.add_property(&properties[index], medium_value_limit);
            index = index + 1;
        }
        assert(properties@.take(index as int) =~= properties@);
    }
}

} // verus!
