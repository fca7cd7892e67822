//! What a scan of version storage learns about one version history.
use vstd::prelude::*;
use vstd::string::*;
use crate::content;
use crate::content::{first_text, single_string_property, BinaryValue, PropertyState, PropertyValue};
use crate::identifier::{RecordIdentifier, SegmentIdentifier, SegmentSet};
use crate::number;
use crate::planning::dates;
use crate::planning::dates::parse_iso8601_epoch_seconds;
use crate::planning::paths::parse_identifier;
use crate::shared_bulk::collect_bulk_blocks;
use crate::text::text_eq;

verus! {

/// Two numbers added, up to the largest that fits.
pub open spec fn saturated(left: u64, right: u64) -> u64 {
    if left + right > u64::MAX {
        u64::MAX
    } else {
        (left + right) as u64
    }
}

/// The later of two instants, where there are two.
pub open spec fn later(newest: Option<i64>, created: i64) -> Option<i64> {
    match newest {
        Some(other) => if other >= created {
            Some(other)
        } else {
            Some(created)
        },
        None => Some(created),
    }
}

/// When a version was created, as far as one of its properties says so.
pub open spec fn created_at(property: PropertyState, primary_type: Option<Seq<char>>) -> Option<
    i64,
> {
    if property.name@ == "jcr:created"@ && primary_type == Some("nt:version"@) {
        match content::leading_text(property) {
            Some(text) => match dates::epoch_seconds(vstd::utf8::encode_utf8(text)) {
                Some(seconds) => Some(seconds as i64),
                None => None,
            },
            None => None,
        }
    } else {
        None
    }
}

/// Whether a property says that a configuration was frozen.
pub open spec fn freezes_configuration(property: PropertyState) -> bool {
    property.name@ == "jcr:frozenPrimaryType"@ && content::leading_text(property) == Some(
        "nt:configuration"@,
    )
}

/// The identifier that a property gives its node.
pub open spec fn own_identifier(property: PropertyState) -> Option<u128> {
    if property.name@ == "jcr:uuid"@ {
        match content::leading_text(property) {
            Some(text) => number::identifier_value(vstd::utf8::encode_utf8(text)),
            None => None,
        }
    } else {
        None
    }
}

/// How many values some properties have.
pub open spec fn value_total(properties: Seq<PropertyState>) -> nat
    decreases properties.len(),
{
    if properties.len() == 0 {
        0
    } else {
        value_total(properties.drop_last()) + properties.last().all().len()
    }
}

/// What is known of a version history.
#[verifier::ext_equal]
pub struct HistoryView {
    /// The versionable that it is the history of.
    pub versionable: u128,
    /// The record of its node.
    pub record: RecordIdentifier,
    /// Its path below version storage.
    pub path: Seq<char>,
    /// Nodes in its subtree.
    pub nodes: u64,
    /// Bytes of binaries inside the store.
    pub inline_binary_bytes: u64,
    /// References to binaries outside the store.
    pub external_references: u64,
    /// Bulk segments that its long binaries occupy.
    pub bulk_segments: Set<SegmentIdentifier>,
    /// When its newest version was created.
    pub newest_version_created: Option<i64>,
    /// Whether a configuration was frozen in it.
    pub freezes_a_configuration: bool,
    /// The identifiers of its nodes.
    pub internal_identifiers: Seq<u128>,
}

impl HistoryView {
    /// A history of which nothing was attributed yet.
    pub open spec fn begun(versionable: u128, record: RecordIdentifier, path: Seq<char>) -> Self {
        HistoryView {
            versionable,
            record,
            path,
            nodes: 0,
            inline_binary_bytes: 0,
            external_references: 0,
            bulk_segments: Set::empty(),
            newest_version_created: None,
            freezes_a_configuration: false,
            internal_identifiers: Seq::empty(),
        }
    }

    /// The history with one more value.
    pub open spec fn with_value(self, value: PropertyValue, medium_value_limit: u64) -> Self {
        match value {
            PropertyValue::Binary(BinaryValue::Inline { length, .. }) => HistoryView {
                inline_binary_bytes: saturated(self.inline_binary_bytes, length),
                bulk_segments: self.bulk_segments.union(
                    content::bulk_of_value(value, medium_value_limit),
                ),
                ..self
            },
            PropertyValue::Binary(BinaryValue::External { .. }) => HistoryView {
                external_references: (self.external_references + 1) as u64,
                ..self
            },
            _ => self,
        }
    }

    /// The history with some more values.
    pub open spec fn with_values(self, values: Seq<PropertyValue>, medium_value_limit: u64) -> Self
        decreases values.len(),
    {
        if values.len() == 0 {
            self
        } else {
            self.with_values(values.drop_last(), medium_value_limit).with_value(
                values.last(),
                medium_value_limit,
            )
        }
    }

    /// The history with what the name of a property adds to its values.
    pub open spec fn with_meaning(
        self,
        property: PropertyState,
        primary_type: Option<Seq<char>>,
        collect_internal_identifiers: bool,
    ) -> Self {
        HistoryView {
            newest_version_created: match created_at(property, primary_type) {
                Some(created) => later(self.newest_version_created, created),
                None => self.newest_version_created,
            },
            freezes_a_configuration: self.freezes_a_configuration || freezes_configuration(
                property,
            ),
            internal_identifiers: match own_identifier(property) {
                Some(identifier) => if collect_internal_identifiers {
                    self.internal_identifiers.push(identifier)
                } else {
                    self.internal_identifiers
                },
                None => self.internal_identifiers,
            },
            ..self
        }
    }

    /// The history with some more properties.
    pub open spec fn with_properties(
        self,
        properties: Seq<PropertyState>,
        primary_type: Option<Seq<char>>,
        collect_internal_identifiers: bool,
        medium_value_limit: u64,
    ) -> Self
        decreases properties.len(),
    {
        if properties.len() == 0 {
            self
        } else {
            self.with_properties(
                properties.drop_last(),
                primary_type,
                collect_internal_identifiers,
                medium_value_limit,
            ).with_values(properties.last().all(), medium_value_limit).with_meaning(
                properties.last(),
                primary_type,
                collect_internal_identifiers,
            )
        }
    }

    /// The history with one more node of its subtree.
    pub open spec fn attributed(
        self,
        properties: Seq<PropertyState>,
        collect_internal_identifiers: bool,
        medium_value_limit: u64,
    ) -> Self {
        HistoryView { nodes: (self.nodes + 1) as u64, ..self }.with_properties(
            properties,
            content::named_text(properties, "jcr:primaryType"@),
            collect_internal_identifiers,
            medium_value_limit,
        )
    }
}

/// Everything a scan established about one version history.
#[derive(Debug)]
pub struct HistoryFacts {
    /// The versionable that it is the history of.
    pub versionable: u128,
    /// The `nt:versionHistory` node record: the subtree root a purge omits.
    pub record: RecordIdentifier,
    /// The history's path relative to the version-storage root.
    pub path: String,
    /// Nodes in the history's subtree, the history node included.
    pub nodes: u64,
    /// Inline binary bytes stored in the subtree's properties.
    pub inline_binary_bytes: u64,
    /// External binary references stored in the subtree's properties.
    pub external_references: u64,
    /// Bulk segments the subtree's long inline binaries occupy.
    pub bulk_segments: SegmentSet,
    /// The newest `jcr:created` among the subtree's `nt:version` nodes, as
    /// seconds since the Unix epoch, when one parsed.
    pub newest_version_created: Option<i64>,
    /// Whether any frozen node froze an `nt:configuration`: such histories
    /// belong to configuration versioning and are never purged.
    pub freezes_a_configuration: bool,
    /// `jcr:uuid` values inside the subtree, for the pass over references.
    pub internal_identifiers: Vec<u128>,
}

impl View for HistoryFacts {
    type V = HistoryView;

    open spec fn view(&self) -> HistoryView {
        HistoryView {
            versionable: self.versionable,
            record: self.record,
            path: self.path@,
            nodes: self.nodes,
            inline_binary_bytes: self.inline_binary_bytes,
            external_references: self.external_references,
            bulk_segments: self.bulk_segments.listed().to_set(),
            newest_version_created: self.newest_version_created,
            freezes_a_configuration: self.freezes_a_configuration,
            internal_identifiers: self.internal_identifiers@,
        }
    }
}

impl HistoryFacts {
    /// The set of bulk segments is one.
    pub open spec fn well_formed(&self) -> bool {
        self.bulk_segments.well_formed()
    }

    /// A history of which nothing was attributed yet.
    pub fn begin(versionable: u128, record: RecordIdentifier, path: &str) -> (facts: Self)
        ensures
            facts.well_formed(),
            facts@ == HistoryView::begun(versionable, record, path@),
    {
        let facts = HistoryFacts {
            versionable,
            record,
            path: path.to_owned(),
            nodes: 0,
            inline_binary_bytes: 0,
            external_references: 0,
            bulk_segments: SegmentSet::new(),
            newest_version_created: None,
            freezes_a_configuration: false,
            internal_identifiers: Vec::new(),
        };
        assert(facts@ =~= HistoryView::begun(versionable, record, path@));
        facts
    }

    fn add_value(&mut self, value: &PropertyValue, medium_value_limit: u64)
        requires
            old(self).well_formed(),
            old(self).external_references < u64::MAX,
        ensures
            final(self).well_formed(),
            final(self)@ == old(self)@.with_value(*value, medium_value_limit),
    {
        match value {
            PropertyValue::Binary(BinaryValue::Inline { length, .. }) => {
                self.inline_binary_bytes = self.inline_binary_bytes.saturating_add(*length);
                collect_bulk_blocks(value, medium_value_limit, &mut self.bulk_segments);
            },
            PropertyValue::Binary(BinaryValue::External { .. }) => {
                self.external_references = self.external_references + 1;
            },
            _ => {},
        }
    }

    fn add_values(&mut self, property: &PropertyState, medium_value_limit: u64)
        requires
            old(self).well_formed(),
            old(self).external_references + property.all().len() <= u64::MAX,
        ensures
            final(self).well_formed(),
            final(self)@ == old(self)@.with_values(property.all(), medium_value_limit),
    {
        let ghost before = self@;
        let ghost all = property.all();
        let mut position: usize = 0;
        assert(all.take(0) =~= Seq::empty());
        while position < property.value_count()
            invariant
                all == property.all(),
                position <= all.len(),
                self.well_formed(),
                before.external_references + all.len() <= u64::MAX,
                self.external_references <= before.external_references + position,
                self@ == before.with_values(all.take(position as int), medium_value_limit),
            decreases all.len() - position,
        {
            assert(all.take(position as int + 1).drop_last() =~= all.take(position as int));
            self.add_value(property.value_at(position), medium_value_limit);
            position = position + 1;
        }
        assert(all.take(position as int) =~= all);
    }

    fn add_meaning(
        &mut self,
        property: &PropertyState,
        primary_type: &Option<String>,
        collect_internal_identifiers: bool,
    )
        requires
            old(self).well_formed(),
        ensures
            final(self).well_formed(),
            final(self)@ == old(self)@.with_meaning(
                *property,
                match primary_type {
                    Some(name) => Some(name@),
                    None => None,
                },
                collect_internal_identifiers,
            ),
    {
        let ghost before = self@;
        let is_version = match primary_type {
            Some(name) => text_eq(name.as_str(), "nt:version"),
            None => false,
        };
        let name = property.name.as_str();
        if text_eq(name, "jcr:created") && is_version {
            if let Some(rendered) = first_text(property) {
                if let Some(created) = parse_iso8601_epoch_seconds(rendered.as_str()) {
                    self.newest_version_created = match self.newest_version_created {
                        Some(newest) => if newest >= created {
                            Some(newest)
                        } else {
                            Some(created)
                        },
                        None => Some(created),
                    };
                }
            }
        }
        if text_eq(name, "jcr:frozenPrimaryType") {
            if let Some(rendered) = first_text(property) {
                if text_eq(rendered.as_str(), "nt:configuration") {
                    self.freezes_a_configuration = true;
                }
            }
        }
        if collect_internal_identifiers && text_eq(name, "jcr:uuid") {
            if let Some(rendered) = first_text(property) {
                if let Some(identifier) = parse_identifier(rendered.as_str()) {
                    self.internal_identifiers.push(identifier);
                }
            }
        }
        assert(self@ =~= before.with_meaning(
            *property,
            match primary_type {
                Some(name) => Some(name@),
                None => None,
            },
            collect_internal_identifiers,
        ));
    }

    /// Attributes one node to the history.
    pub fn attribute(
        &mut self,
        properties: &Vec<PropertyState>,
        collect_internal_identifiers: bool,
        medium_value_limit: u64,
    )
        requires
            old(self).well_formed(),
            old(self).nodes < u64::MAX,
            old(self).external_references + value_total(properties@) <= u64::MAX,
        ensures
            final(self).well_formed(),
            final(self)@ == old(self)@.attributed(
                properties@,
                collect_internal_identifiers,
                medium_value_limit,
            ),
    {
        let ghost started = self@;
        self.nodes = self.nodes + 1;
        let ghost before = self@;
        let primary_type = single_string_property(properties, "jcr:primaryType");
        let ghost primary = content::named_text(properties@, "jcr:primaryType"@);
        let mut index: usize = 0;
        assert(properties@.take(0) =~= Seq::empty());
        assert(properties@.take(properties@.len() as int) =~= properties@);
        while index < properties.len()
            invariant
                index <= properties@.len(),
                self.well_formed(),
                before.external_references + value_total(properties@) <= u64::MAX,
                self.external_references <= before.external_references + value_total(
                    properties@.take(index as int),
                ),
                primary == match primary_type {
                    Some(name) => Some(name@),
                    None => None,
                },
                self@ == before.with_properties(
                    properties@.take(index as int),
                    primary,
                    collect_internal_identifiers,
                    medium_value_limit,
                ),
            decreases properties@.len() - index,
        {
            let ghost taken = properties@.take(index as int);
            let ghost next = properties@.take(index as int + 1);
            assert(next.drop_last() =~= taken);
            proof {
                lemma_value_total_grows(properties@, index as int + 1);
                lemma_values_add_at_most_their_count(
                    self@,
                    properties@[index as int].all(),
                    medium_value_limit,
                );
            }
            self.add_values(&properties[index], medium_value_limit);
            self.add_meaning(&properties[index], &primary_type, collect_internal_identifiers);
            index = index + 1;
        }
        assert(properties@.take(index as int) =~= properties@);
    }
}

/// Earlier properties have no more values than all of them.
pub proof fn lemma_value_total_grows(properties: Seq<PropertyState>, count: int)
    requires
        0 <= count <= properties.len(),
    ensures
        value_total(properties.take(count)) <= value_total(properties),
    decreases properties.len(),
{
    if count == properties.len() {
        assert(properties.take(count) =~= properties);
    } else {
        lemma_value_total_grows(properties.drop_last(), count);
        assert(properties.drop_last().take(count) =~= properties.take(count));
    }
}

proof fn lemma_values_add_at_most_their_count(
    history: HistoryView,
    values: Seq<PropertyValue>,
    medium_value_limit: u64,
)
    requires
        history.external_references + values.len() <= u64::MAX,
    ensures
        history.external_references <= history.with_values(
            values,
            medium_value_limit,
        ).external_references <= history.external_references + values.len(),
        history.with_values(values, medium_value_limit).nodes == history.nodes,
        history.with_values(values, medium_value_limit).versionable == history.versionable,
        history.with_values(values, medium_value_limit).path == history.path,
        history.with_values(values, medium_value_limit).record == history.record,
    decreases values.len(),
{
    if values.len() > 0 {
        lemma_values_add_at_most_their_count(history, values.drop_last(), medium_value_limit);
    }
}

proof fn lemma_properties_add_at_most_their_values(
    history: HistoryView,
    properties: Seq<PropertyState>,
    primary_type: Option<Seq<char>>,
    collect_internal_identifiers: bool,
    medium_value_limit: u64,
)
    requires
        history.external_references + value_total(properties) <= u64::MAX,
    ensures
        ({
            let after = history.with_properties(
                properties,
                primary_type,
                collect_internal_identifiers,
                medium_value_limit,
            );
            &&& history.external_references <= after.external_references
                <= history.external_references + value_total(properties)
            &&& after.nodes == history.nodes
            &&& after.versionable == history.versionable
            &&& after.path == history.path
            &&& after.record == history.record
        }),
    decreases properties.len(),
{
    if properties.len() > 0 {
        lemma_properties_add_at_most_their_values(
            history,
            properties.drop_last(),
            primary_type,
            collect_internal_identifiers,
            medium_value_limit,
        );
        lemma_values_add_at_most_their_count(
            history.with_properties(
                properties.drop_last(),
                primary_type,
                collect_internal_identifiers,
                medium_value_limit,
            ),
            properties.last().all(),
            medium_value_limit,
        );
    }
}

/// One more node leaves what a history is, and adds one node and at most as
/// many references as the node has values.
pub proof fn lemma_attributed(
    history: HistoryView,
    properties: Seq<PropertyState>,
    collect_internal_identifiers: bool,
    medium_value_limit: u64,
)
    requires
        history.nodes < u64::MAX,
        history.external_references + value_total(properties) <= u64::MAX,
    ensures
        ({
            let after = history.attributed(
                properties,
                collect_internal_identifiers,
                medium_value_limit,
            );
            &&& history.external_references <= after.external_references
                <= history.external_references + value_total(properties)
            &&& after.nodes == history.nodes + 1
            &&& after.versionable == history.versionable
            &&& after.path == history.path
            &&& after.record == history.record
        }),
{
    lemma_properties_add_at_most_their_values(
        HistoryView { nodes: (history.nodes + 1) as u64, ..history },
        properties,
        content::named_text(properties, "jcr:primaryType"@),
        collect_internal_identifiers,
        medium_value_limit,
    );
}

} // verus!
