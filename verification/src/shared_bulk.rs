//! Predicting which bulk segments a copy references where they lie rather
//! than re-encoding them.
//!
//! The rule, in order: only binary properties; only values in the store (an
//! external binary has no blocks); only values that are stored block by block;
//! and then only those blocks whose own segment is a bulk segment, because a
//! block in a data segment is copied. Checkpoints that the run retires are not
//! walked: their content is not copied, so it seeds nothing. A checkpoint is a
//! child of the head's own child `checkpoints`; a node of the content that is
//! named like one is copied, and walked, like any other.
use vstd::prelude::*;
use vstd::string::*;
use crate::content;
use crate::content::{
    BinaryValue, ChildNode, NodeFacts, PropertyState, PropertyType, PropertyValue,
};
use crate::error::Error;
use crate::identifier::{holds_record, RecordIdentifier, SegmentIdentifier, SegmentSet};
use crate::order::list_contains;
use crate::reach;
use crate::text;
use crate::text::text_eq;
use crate::trace::RecordWalk;

verus! {

/// The bulk segments of one value's blocks belong to the set.
pub open spec fn values_bulk(values: Seq<PropertyValue>, medium_value_limit: u64) -> Set<
    SegmentIdentifier,
>
    decreases values.len(),
{
    if values.len() == 0 {
        Set::empty()
    } else {
        values_bulk(values.drop_last(), medium_value_limit).union(
            content::bulk_of_value(values.last(), medium_value_limit),
        )
    }
}

/// The bulk segments that the binary properties of a node share.
pub open spec fn shared_by_properties(
    properties: Seq<PropertyState>,
    medium_value_limit: u64,
) -> Set<SegmentIdentifier>
    decreases properties.len(),
{
    if properties.len() == 0 {
        Set::empty()
    } else {
        let earlier = shared_by_properties(properties.drop_last(), medium_value_limit);
        if properties.last().property_type == PropertyType::Binary {
            earlier.union(values_bulk(properties.last().all(), medium_value_limit))
        } else {
            earlier
        }
    }
}

/// The name of the head's child that holds the checkpoints.
pub open spec fn checkpoints_name() -> Seq<char> {
    "checkpoints"@
}

/// The records of some children, in order.
pub open spec fn child_records(children: Seq<ChildNode>) -> Seq<RecordIdentifier> {
    children.map_values(|child: ChildNode| child.record)
}

/// What each content node leads a copy to: all of its children, whatever their
/// names are.
pub open spec fn content_children(nodes: Map<RecordIdentifier, NodeFacts>) -> Map<
    RecordIdentifier,
    Seq<RecordIdentifier>,
> {
    nodes.map_values(|node: NodeFacts| child_records(node.children@))
}

/// Whether the head has this record as its checkpoints.
pub open spec fn holds_checkpoints(head: NodeFacts, record: RecordIdentifier) -> bool {
    exists|i: int|
        0 <= i < head.children@.len() && (#[trigger] head.children@[i]).name@ == checkpoints_name()
            && head.children@[i].record == record
}

/// Whether the head has this record as a child other than its checkpoints.
pub open spec fn holds_content(head: NodeFacts, record: RecordIdentifier) -> bool {
    exists|i: int|
        0 <= i < head.children@.len() && (#[trigger] head.children@[i]).name@ != checkpoints_name()
            && head.children@[i].record == record
}

/// Whether this record is a checkpoint that stays.
pub open spec fn keeps_checkpoint(
    container: NodeFacts,
    omitted: Set<Seq<char>>,
    record: RecordIdentifier,
) -> bool {
    exists|i: int|
        0 <= i < container.children@.len() && !omitted.contains(
            (#[trigger] container.children@[i]).name@,
        ) && container.children@[i].record == record
}

/// Whether one of some containers holds this record as a checkpoint that stays.
pub open spec fn keeps_some(
    containers: Map<RecordIdentifier, NodeFacts>,
    omitted: Set<Seq<char>>,
    record: RecordIdentifier,
) -> bool {
    exists|container: RecordIdentifier|
        containers.contains_key(container) && #[trigger] keeps_checkpoint(
            containers[container],
            omitted,
            record,
        )
}

/// What a copy enters below the head: its children but for the checkpoints, and
/// the checkpoints that stay.
pub open spec fn content_roots(
    head: Option<NodeFacts>,
    containers: Map<RecordIdentifier, NodeFacts>,
    omitted: Set<Seq<char>>,
) -> Set<RecordIdentifier> {
    Set::new(
        |record: RecordIdentifier|
            (head is Some && holds_content(head->0, record)) || keeps_some(
                containers,
                omitted,
                record,
            ),
    )
}

/// Whether a node shares a segment.
pub open spec fn node_shares(
    node: NodeFacts,
    medium_value_limit: u64,
    segment: SegmentIdentifier,
) -> bool {
    shared_by_properties(node.properties@, medium_value_limit).contains(segment)
}

/// Whether one of some nodes shares a segment.
pub open spec fn some_share(
    nodes: Map<RecordIdentifier, NodeFacts>,
    medium_value_limit: u64,
    segment: SegmentIdentifier,
) -> bool {
    exists|record: RecordIdentifier|
        nodes.contains_key(record) && #[trigger] node_shares(
            nodes[record],
            medium_value_limit,
            segment,
        )
}

/// Whether a copy of these nodes shares a segment: the head, what holds its
/// checkpoints, or a node below.
pub open spec fn copy_shares(
    head: Option<NodeFacts>,
    containers: Map<RecordIdentifier, NodeFacts>,
    content: Map<RecordIdentifier, NodeFacts>,
    medium_value_limit: u64,
    segment: SegmentIdentifier,
) -> bool {
    ||| head is Some && node_shares(head->0, medium_value_limit, segment)
    ||| some_share(containers, medium_value_limit, segment)
    ||| some_share(content, medium_value_limit, segment)
}

/// Why a value that is stored block by block has no list of blocks.
pub open spec fn value_fault(value: PropertyValue, medium_value_limit: u64) -> Option<Error> {
    match value {
        PropertyValue::Binary(BinaryValue::Inline { length, blocks: Err(error), .. }) =>
            if length < medium_value_limit {
                None
            } else {
                Some(error)
            },
        _ => None,
    }
}

/// The fault of the first value that has one.
pub open spec fn values_fault(values: Seq<PropertyValue>, medium_value_limit: u64) -> Option<Error>
    decreases values.len(),
{
    if values.len() == 0 {
        None
    } else {
        match values_fault(values.drop_last(), medium_value_limit) {
            Some(error) => Some(error),
            None => value_fault(values.last(), medium_value_limit),
        }
    }
}

/// The fault of the first binary property that has one.
pub open spec fn properties_fault(
    properties: Seq<PropertyState>,
    medium_value_limit: u64,
) -> Option<Error>
    decreases properties.len(),
{
    if properties.len() == 0 {
        None
    } else {
        match properties_fault(properties.drop_last(), medium_value_limit) {
            Some(error) => Some(error),
            None => if properties.last().property_type == PropertyType::Binary {
                values_fault(properties.last().all(), medium_value_limit)
            } else {
                None
            },
        }
    }
}

/// Adds the bulk segments of a value's blocks.
pub fn collect_bulk_blocks(
    value: &PropertyValue,
    medium_value_limit: u64,
    bulk_segments: &mut SegmentSet,
)
    requires
        old(bulk_segments).well_formed(),
    ensures
        final(bulk_segments).well_formed(),
        final(bulk_segments).listed().to_set() == old(bulk_segments).listed().to_set().union(
            content::bulk_of_value(*value, medium_value_limit),
        ),
{
    let ghost before = bulk_segments.listed().to_set();
    let ghost wanted = content::bulk_of_value(*value, medium_value_limit);
    match value {
        PropertyValue::Binary(
            BinaryValue::Inline { length, blocks: Ok(blocks), .. },
        ) => {
            if *length >= medium_value_limit {
                let mut index: usize = 0;
                assert(before.union(content::bulk_among(blocks@.take(0))) =~= before);
                while index < blocks.len()
                    invariant
                        index <= blocks@.len(),
                        bulk_segments.well_formed(),
                        bulk_segments.listed().to_set() == before.union(
                            content::bulk_among(blocks@.take(index as int)),
                        ),
                    decreases blocks@.len() - index,
                {
                    let segment = blocks[index];
                    let ghost listed = bulk_segments.listed();
                    let ghost taken = blocks@.take(index as int);
                    if segment.is_bulk_segment() {
                        bulk_segments.insert(segment);
                    }
                    proof {
                        listed.lemma_push_to_set_commute(segment);
                        let next = blocks@.take(index as int + 1);
                        assert(next =~= taken.push(segment));
                        taken.lemma_push_to_set_commute(segment);
                        assert forall|other: SegmentIdentifier|
                            bulk_segments.listed().to_set().contains(other) == before.union(
                                content::bulk_among(next),
                            ).contains(other) by {
                            assert(listed.to_set().contains(other) == before.union(
                                content::bulk_among(taken),
                            ).contains(other));
                            assert(next.to_set().contains(other) == next.contains(other));
                            assert(taken.to_set().contains(other) == taken.contains(other));
                            if segment.names_bulk() && listed.contains(segment) {
                                assert(listed.to_set().contains(segment));
                            }
                        }
                        assert(bulk_segments.listed().to_set() =~= before.union(
                            content::bulk_among(next),
                        ));
                    }
                    index = index + 1;
                }
                assert(blocks@.take(index as int) =~= blocks@);
            }
        },
        _ => {},
    }
    assert(bulk_segments.listed().to_set() =~= before.union(wanted));
}

/// Adds the bulk segments that a node's binary properties share.
fn collect_shared(
    properties: &Vec<PropertyState>,
    medium_value_limit: u64,
    shared: &mut SegmentSet,
)
    requires
        old(shared).well_formed(),
    ensures
        final(shared).well_formed(),
        final(shared).listed().to_set() == old(shared).listed().to_set().union(
            shared_by_properties(properties@, medium_value_limit),
        ),
{
    let ghost before = shared.listed().to_set();
    let mut index: usize = 0;
    assert(properties@.take(0) =~= Seq::empty());
    assert(before.union(Set::empty()) =~= before);
    while index < properties.len()
        invariant
            index <= properties@.len(),
            shared.well_formed(),
            shared.listed().to_set() == before.union(
                shared_by_properties(properties@.take(index as int), medium_value_limit),
            ),
        decreases properties@.len() - index,
    {
        let property = &properties[index];
        let ghost shorter = properties@.take(index as int);
        let ghost longer = properties@.take(index as int + 1);
        proof {
            assert(longer.drop_last() =~= shorter);
            assert(longer.last() == *property);
        }
        let ghost middle = shared.listed().to_set();
        if property.property_type == PropertyType::Binary {
            let ghost all = property.all();
            let mut position: usize = 0;
            assert(all.take(0) =~= Seq::empty());
            assert(middle.union(Set::empty()) =~= middle);
            while position < property.value_count()
                invariant
                    all == property.all(),
                    position <= all.len(),
                    shared.well_formed(),
                    shared.listed().to_set() == middle.union(
                        values_bulk(all.take(position as int), medium_value_limit),
                    ),
                decreases all.len() - position,
            {
                let value = property.value_at(position);
                collect_bulk_blocks(value, medium_value_limit, shared);
                proof {
                    let taken = all.take(position as int);
                    let next = all.take(position as int + 1);
                    assert(next.drop_last() =~= taken);
                    assert(next.last() == *value);
                    assert(middle.union(values_bulk(taken, medium_value_limit)).union(
                        content::bulk_of_value(*value, medium_value_limit),
                    ) =~= middle.union(values_bulk(next, medium_value_limit)));
                }
                position = position + 1;
            }
            assert(all.take(position as int) =~= all);
        }
        proof {
            assert(shared.listed().to_set() =~= before.union(
                shared_by_properties(longer, medium_value_limit),
            ));
        }
        index = index + 1;
    }
    assert(properties@.take(index as int) =~= properties@);
}

/// Finds the first value that is stored block by block and whose list of blocks
/// does not read.
fn unreadable_blocks(properties: &Vec<PropertyState>, medium_value_limit: u64) -> (fault: Option<
    Error,
>)
    ensures
        match fault {
            Some(error) => properties_fault(properties@, medium_value_limit) is Some
                && error.is_like(properties_fault(properties@, medium_value_limit)->0),
            None => properties_fault(properties@, medium_value_limit) is None,
        },
{
    let mut index: usize = 0;
    assert(properties@.take(0) =~= Seq::empty());
    while index < properties.len()
        invariant
            index <= properties@.len(),
            properties_fault(properties@.take(index as int), medium_value_limit) is None,
        decreases properties@.len() - index,
    {
        let property = &properties[index];
        let ghost longer = properties@.take(index as int + 1);
        proof {
            assert(longer.drop_last() =~= properties@.take(index as int));
            assert(longer.last() == *property);
        }
        if property.property_type == PropertyType::Binary {
            let ghost all = property.all();
            let mut position: usize = 0;
            assert(all.take(0) =~= Seq::empty());
            while position < property.value_count()
                invariant
                    all == property.all(),
                    position <= all.len(),
                    values_fault(all.take(position as int), medium_value_limit) is None,
                    index < properties@.len(),
                    *property == properties@[index as int],
                    property.property_type == PropertyType::Binary,
                    longer == properties@.take(index as int + 1),
                    longer.last() == *property,
                    properties_fault(longer.drop_last(), medium_value_limit) is None,
                decreases all.len() - position,
            {
                let value = property.value_at(position);
                proof {
                    let next = all.take(position as int + 1);
                    assert(next.drop_last() =~= all.take(position as int));
                    assert(next.last() == *value);
                }
                match value {
                    PropertyValue::Binary(
                        BinaryValue::Inline { length, blocks: Err(error), .. },
                    ) => {
                        if *length >= medium_value_limit {
                            proof {
                                lemma_first_value_fault(
                                    all,
                                    medium_value_limit,
                                    position as int,
                                );
                                lemma_first_property_fault(
                                    properties@,
                                    medium_value_limit,
                                    index as int,
                                );
                            }
                            return Some(error.copied());
                        }
                    },
                    _ => {},
                }
                position = position + 1;
            }
            assert(all.take(position as int) =~= all);
        }
        index = index + 1;
    }
    assert(properties@.take(index as int) =~= properties@);
    None
}

proof fn lemma_first_value_fault(
    values: Seq<PropertyValue>,
    medium_value_limit: u64,
    position: int,
)
    requires
        0 <= position < values.len(),
        values_fault(values.take(position + 1), medium_value_limit) is Some,
    ensures
        values_fault(values, medium_value_limit) == values_fault(
            values.take(position + 1),
            medium_value_limit,
        ),
    decreases values.len(),
{
    if position + 1 == values.len() {
        assert(values.take(position + 1) =~= values);
    } else {
        assert(values.drop_last().take(position + 1) =~= values.take(position + 1));
        lemma_first_value_fault(values.drop_last(), medium_value_limit, position);
    }
}

proof fn lemma_first_property_fault(
    properties: Seq<PropertyState>,
    medium_value_limit: u64,
    position: int,
)
    requires
        0 <= position < properties.len(),
        properties_fault(properties.take(position + 1), medium_value_limit) is Some,
    ensures
        properties_fault(properties, medium_value_limit) == properties_fault(
            properties.take(position + 1),
            medium_value_limit,
        ),
    decreases properties.len(),
{
    if position + 1 == properties.len() {
        assert(properties.take(position + 1) =~= properties);
    } else {
        assert(properties.drop_last().take(position + 1) =~= properties.take(position + 1));
        lemma_first_property_fault(properties.drop_last(), medium_value_limit, position);
    }
}

proof fn lemma_some_share_grows(
    nodes: Map<RecordIdentifier, NodeFacts>,
    medium_value_limit: u64,
    record: RecordIdentifier,
    node: NodeFacts,
    segment: SegmentIdentifier,
)
    requires
        !nodes.contains_key(record),
    ensures
        some_share(nodes.insert(record, node), medium_value_limit, segment) <==> some_share(
            nodes,
            medium_value_limit,
            segment,
        ) || node_shares(node, medium_value_limit, segment),
{
    let more = nodes.insert(record, node);
    if some_share(nodes, medium_value_limit, segment) {
        let owner = choose|owner: RecordIdentifier|
            nodes.contains_key(owner) && #[trigger] node_shares(
                nodes[owner],
                medium_value_limit,
                segment,
            );
        assert(more.contains_key(owner) && node_shares(more[owner], medium_value_limit, segment));
    }
    if node_shares(node, medium_value_limit, segment) {
        assert(more.contains_key(record) && node_shares(more[record], medium_value_limit, segment));
    }
    if some_share(more, medium_value_limit, segment) {
        let owner = choose|owner: RecordIdentifier|
            more.contains_key(owner) && #[trigger] node_shares(
                more[owner],
                medium_value_limit,
                segment,
            );
        if owner != record {
            assert(nodes.contains_key(owner) && node_shares(
                nodes[owner],
                medium_value_limit,
                segment,
            ));
        }
    }
}

/// In which place a node is asked for. The same record may be asked for in more
/// than one: what holds the checkpoints may also be content.
#[derive(Clone, Copy, Debug, PartialEq, Eq, Structural)]
pub enum CopyPlace {
    /// As the head.
    Head,
    /// As what holds the head's checkpoints.
    Checkpoints,
    /// As content, or as a checkpoint that stays.
    Content,
}

/// The prediction in the making: the head, what holds its checkpoints, and a
/// walk over everything that the copy enters below.
pub struct SharedBulkPrediction {
    head: RecordIdentifier,
    omitted_checkpoints: Vec<String>,
    medium_value_limit: u64,
    containers: Vec<RecordIdentifier>,
    cursor: usize,
    awaited: Option<(CopyPlace, RecordIdentifier)>,
    walk: RecordWalk,
    shared: SegmentSet,
    head_taken: bool,
    head_node: Ghost<Option<NodeFacts>>,
    container_nodes: Ghost<Map<RecordIdentifier, NodeFacts>>,
    content_nodes: Ghost<Map<RecordIdentifier, NodeFacts>>,
}

impl SharedBulkPrediction {
    /// The head that the copy starts from.
    pub closed spec fn head(&self) -> RecordIdentifier {
        self.head
    }

    /// The names of the retired checkpoints.
    pub closed spec fn omitted(&self) -> Set<Seq<char>> {
        text::texts(self.omitted_checkpoints@).to_set()
    }

    /// From which length on a value is stored block by block.
    pub closed spec fn limit(&self) -> u64 {
        self.medium_value_limit
    }

    /// The node of the head, once it was taken.
    pub closed spec fn head_node(&self) -> Option<NodeFacts> {
        self.head_node@
    }

    /// The nodes that were taken as what holds the checkpoints.
    pub closed spec fn containers(&self) -> Map<RecordIdentifier, NodeFacts> {
        self.container_nodes@
    }

    /// The nodes that were taken as content.
    pub closed spec fn content(&self) -> Map<RecordIdentifier, NodeFacts> {
        self.content_nodes@
    }

    /// The node that is asked for, and in which place.
    pub closed spec fn awaits(&self) -> Option<(CopyPlace, RecordIdentifier)> {
        self.awaited
    }

    /// Whether nothing is left to walk.
    pub closed spec fn is_exhausted(&self) -> bool {
        &&& self.head_taken
        &&& self.cursor == self.containers@.len()
        &&& self.awaited is None
        &&& self.walk.is_exhausted()
    }

    /// The prediction is for the same copy.
    pub open spec fn continues(&self, earlier: &Self) -> bool {
        &&& self.head() == earlier.head()
        &&& self.omitted() == earlier.omitted()
        &&& self.limit() == earlier.limit()
    }

    /// The shared segments are those of the nodes taken so far, and the walk
    /// starts from what the copy enters below the head.
    pub closed spec fn well_formed(&self) -> bool {
        &&& self.walk.well_formed()
        &&& self.shared.well_formed()
        &&& self.cursor <= self.containers@.len()
        &&& self.containers@.no_duplicates()
        &&& self.head_taken == self.head_node@ is Some
        &&& forall|record: RecordIdentifier| #[trigger]
            self.containers@.contains(record) <==> self.head_taken && holds_checkpoints(
                self.head_node@->0,
                record,
            )
        &&& forall|record: RecordIdentifier|
            #[trigger] self.container_nodes@.contains_key(record) <==> self.containers@.take(
                self.cursor as int,
            ).contains(record)
        &&& self.walk.roots() == content_roots(
            self.head_node@,
            self.container_nodes@,
            self.omitted(),
        )
        &&& self.walk.children() == content_children(self.content_nodes@)
        &&& self.walk.awaits() == match self.awaited {
            Some((CopyPlace::Content, record)) => Some(record),
            _ => None,
        }
        &&& match self.awaited {
            Some((CopyPlace::Head, record)) => !self.head_taken && record == self.head,
            Some((CopyPlace::Checkpoints, record)) => self.head_taken && self.cursor
                < self.containers@.len() && self.containers@[self.cursor as int] == record,
            Some((CopyPlace::Content, _)) => self.head_taken && self.cursor
                == self.containers@.len(),
            None => true,
        }
        &&& forall|segment: SegmentIdentifier|
            self.shared.listed().to_set().contains(segment) <==> #[trigger] copy_shares(
                self.head_node@,
                self.container_nodes@,
                self.content_nodes@,
                self.medium_value_limit,
                segment,
            )
    }

    /// Asks for the next node, or says that the prediction is complete.
    pub fn next(&mut self) -> (wanted: Option<RecordIdentifier>)
        requires
            old(self).well_formed(),
            old(self).awaits() is None,
        ensures
            final(self).well_formed(),
            final(self).continues(old(self)),
            final(self).head_node() == old(self).head_node(),
            final(self).containers() == old(self).containers(),
            final(self).content() == old(self).content(),
            match wanted {
                Some(record) => final(self).awaits() is Some && (final(self).awaits()->0).1
                    == record && match (final(self).awaits()->0).0 {
                    CopyPlace::Head => old(self).head_node() is None && record == old(self).head(),
                    CopyPlace::Checkpoints => old(self).head_node() is Some && holds_checkpoints(
                        old(self).head_node()->0,
                        record,
                    ) && !old(self).containers().contains_key(record),
                    CopyPlace::Content => old(self).head_node() is Some && !old(
                        self,
                    ).content().contains_key(record),
                },
                None => final(self).awaits() is None && final(self).is_exhausted(),
            },
    {
        if !self.head_taken {
            self.awaited = Some((CopyPlace::Head, self.head));
            return Some(self.head);
        }
        if self.cursor < self.containers.len() {
            let record = self.containers[self.cursor];
            self.awaited = Some((CopyPlace::Checkpoints, record));
            proof {
                assert(self.containers@.contains(record));
                if self.containers@.take(self.cursor as int).contains(record) {
                    let i = choose|i: int|
                        0 <= i < self.cursor && self.containers@.take(self.cursor as int)[i]
                            == record;
                    assert(self.containers@[i] == record);
                }
            }
            return Some(record);
        }
        match self.walk.next() {
            Some(record) => {
                self.awaited = Some((CopyPlace::Content, record));
                Some(record)
            },
            None => None,
        }
    }

    /// Takes the node that was asked for. A value that is stored block by block
    /// and whose list of blocks does not read fails the prediction.
    pub fn supply(&mut self, node: &NodeFacts) -> (taken: Result<(), Error>)
        requires
            old(self).well_formed(),
            old(self).awaits() is Some,
        ensures
            final(self).well_formed(),
            final(self).continues(old(self)),
            ({
                let (place, record) = old(self).awaits()->0;
                let fault = properties_fault(node.properties@, old(self).limit());
                match taken {
                    Ok(_) => {
                        &&& fault is None
                        &&& final(self).awaits() is None
                        &&& final(self).head_node() == if place == CopyPlace::Head {
                            Some(*node)
                        } else {
                            old(self).head_node()
                        }
                        &&& final(self).containers() == if place == CopyPlace::Checkpoints {
                            old(self).containers().insert(record, *node)
                        } else {
                            old(self).containers()
                        }
                        &&& final(self).content() == if place == CopyPlace::Content {
                            old(self).content().insert(record, *node)
                        } else {
                            old(self).content()
                        }
                    },
                    Err(error) => fault is Some && error.is_like(fault->0) && *final(self) == *old(
                        self,
                    ),
                }
            }),
    {
        match unreadable_blocks(&node.properties, self.medium_value_limit) {
            Some(error) => {
                return Err(error);
            },
            None => {},
        }
        match self.awaited {
            Some((CopyPlace::Head, _)) => self.take_head(node),
            Some((CopyPlace::Checkpoints, record)) => self.take_container(record, node),
            Some((CopyPlace::Content, record)) => self.take_content(record, node),
            None => {},
        }
        Ok(())
    }

    fn take_head(&mut self, node: &NodeFacts)
        requires
            old(self).well_formed(),
            old(self).awaited is Some,
            (old(self).awaited->0).0 == CopyPlace::Head,
        ensures
            final(self).well_formed(),
            final(self).continues(old(self)),
            final(self).awaited is None,
            final(self).head_node@ == Some(*node),
            final(self).container_nodes@ == old(self).container_nodes@,
            final(self).content_nodes@ == old(self).content_nodes@,
    {
        let ghost before = *self;
        let ghost listed_before = self.shared.listed().to_set();
        collect_shared(&node.properties, self.medium_value_limit, &mut self.shared);
        self.awaited = None;
        let mut index: usize = 0;
        proof {
            assert(self.containers@.len() == 0) by {
                if self.containers@.len() > 0 {
                    assert(self.containers@.contains(self.containers@[0]));
                }
            }
        }
        while index < node.children.len()
            invariant
                index <= node.children@.len(),
                self.walk.well_formed(),
                self.walk.awaits() is None,
                self.walk.children() == before.walk.children(),
                self.containers@.no_duplicates(),
                forall|record: RecordIdentifier| #[trigger]
                    self.walk.roots().contains(record) <==> before.walk.roots().contains(record)
                        || exists|i: int|
                        0 <= i < index && (#[trigger] node.children@[i]).name@
                            != checkpoints_name() && node.children@[i].record == record,
                forall|record: RecordIdentifier| #[trigger]
                    self.containers@.contains(record) <==> exists|i: int|
                        0 <= i < index && (#[trigger] node.children@[i]).name@
                            == checkpoints_name() && node.children@[i].record == record,
                self.head == before.head,
                self.omitted_checkpoints == before.omitted_checkpoints,
                self.medium_value_limit == before.medium_value_limit,
                self.cursor == before.cursor,
                self.awaited is None,
                self.head_taken == before.head_taken,
                self.head_node@ == before.head_node@,
                self.container_nodes@ == before.container_nodes@,
                self.content_nodes@ == before.content_nodes@,
                self.shared.well_formed(),
                self.shared.listed().to_set() == listed_before.union(
                    shared_by_properties(node.properties@, self.medium_value_limit),
                ),
            decreases node.children@.len() - index,
        {
            let child = &node.children[index];
            let ghost roots = self.walk.roots();
            let ghost containers = self.containers@;
            if text_eq(child.name.as_str(), "checkpoints") {
                if !holds_record(&self.containers, child.record) {
                    self.containers.push(child.record);
                }
            } else {
                self.walk.add_root(child.record);
            }
            proof {
                assert(node.children@[index as int] == *child);
                assert forall|record: RecordIdentifier| #[trigger]
                    self.containers@.contains(record) <==> exists|i: int|
                        0 <= i < index + 1 && (#[trigger] node.children@[i]).name@
                            == checkpoints_name() && node.children@[i].record == record by {
                    assert(containers.contains(record) <==> exists|i: int|
                        0 <= i < index && (#[trigger] node.children@[i]).name@
                            == checkpoints_name() && node.children@[i].record == record);
                    if containers.contains(record) {
                        let k = choose|k: int|
                            0 <= k < containers.len() && containers[k] == record;
                        assert(self.containers@[k] == record);
                    }
                    if self.containers@ != containers {
                        assert(self.containers@ =~= containers.push(child.record));
                        assert(self.containers@.last() == child.record);
                    }
                }
            }
            index = index + 1;
        }
        self.head_taken = true;
        self.head_node = Ghost(Some(*node));
        proof {
            assert(self.omitted() == before.omitted());
            assert(self.containers@.take(0) =~= Seq::empty());
            assert(self.walk.roots() =~= content_roots(
                self.head_node@,
                self.container_nodes@,
                self.omitted(),
            ));
            assert forall|segment: SegmentIdentifier|
                self.shared.listed().to_set().contains(segment) <==> #[trigger] copy_shares(
                    self.head_node@,
                    self.container_nodes@,
                    self.content_nodes@,
                    self.medium_value_limit,
                    segment,
                ) by {
                assert(listed_before.contains(segment) <==> copy_shares(
                    before.head_node@,
                    before.container_nodes@,
                    before.content_nodes@,
                    before.medium_value_limit,
                    segment,
                ));
            }
        }
    }

    fn take_container(&mut self, record: RecordIdentifier, node: &NodeFacts)
        requires
            old(self).well_formed(),
            old(self).awaited == Some((CopyPlace::Checkpoints, record)),
        ensures
            final(self).well_formed(),
            final(self).continues(old(self)),
            final(self).awaited is None,
            final(self).head_node@ == old(self).head_node@,
            final(self).container_nodes@ == old(self).container_nodes@.insert(record, *node),
            final(self).content_nodes@ == old(self).content_nodes@,
    {
        let ghost before = *self;
        let ghost listed_before = self.shared.listed().to_set();
        let ghost omitted = self.omitted();
        collect_shared(&node.properties, self.medium_value_limit, &mut self.shared);
        self.awaited = None;
        let mut index: usize = 0;
        while index < node.children.len()
            invariant
                index <= node.children@.len(),
                omitted == text::texts(self.omitted_checkpoints@).to_set(),
                self.walk.well_formed(),
                self.walk.awaits() is None,
                self.walk.children() == before.walk.children(),
                forall|other: RecordIdentifier| #[trigger]
                    self.walk.roots().contains(other) <==> before.walk.roots().contains(other)
                        || exists|i: int|
                        0 <= i < index && !omitted.contains((#[trigger] node.children@[i]).name@)
                            && node.children@[i].record == other,
                self.head == before.head,
                self.omitted_checkpoints == before.omitted_checkpoints,
                self.medium_value_limit == before.medium_value_limit,
                self.containers == before.containers,
                self.cursor == before.cursor,
                self.awaited is None,
                self.head_taken == before.head_taken,
                self.head_node@ == before.head_node@,
                self.container_nodes@ == before.container_nodes@,
                self.content_nodes@ == before.content_nodes@,
                self.shared.well_formed(),
                self.shared.listed().to_set() == listed_before.union(
                    shared_by_properties(node.properties@, self.medium_value_limit),
                ),
            decreases node.children@.len() - index,
        {
            let child = &node.children[index];
            proof {
                assert(node.children@[index as int] == *child);
                assert(omitted.contains(child.name@) == text::texts(
                    self.omitted_checkpoints@,
                ).contains(child.name@));
            }
            if !list_contains(&self.omitted_checkpoints, &child.name) {
                self.walk.add_root(child.record);
            }
            index = index + 1;
        }
        assert(self.cursor < self.containers.len());
        self.cursor = self.cursor + 1;
        self.container_nodes = Ghost(self.container_nodes@.insert(record, *node));
        proof {
            let earlier = before.container_nodes@;
            let taken = before.containers@.take(before.cursor as int);
            let longer = before.containers@.take(before.cursor as int + 1);
            assert(longer =~= taken.push(record));
            assert(!earlier.contains_key(record)) by {
                if taken.contains(record) {
                    let i = choose|i: int| 0 <= i < taken.len() && taken[i] == record;
                    assert(before.containers@[i] == record);
                }
            }
            assert forall|other: RecordIdentifier|
                #[trigger] self.container_nodes@.contains_key(other) <==> longer.contains(
                    other,
                ) by {
                assert(earlier.contains_key(other) <==> taken.contains(other));
                if taken.contains(other) {
                    let i = choose|i: int| 0 <= i < taken.len() && taken[i] == other;
                    assert(longer[i] == other);
                }
                assert(longer.last() == record);
            }
            assert forall|other: RecordIdentifier| keeps_some(
                self.container_nodes@,
                omitted,
                other,
            ) <==> (#[trigger] keeps_some(earlier, omitted, other) || keeps_checkpoint(
                *node,
                omitted,
                other,
            )) by {
                let more = self.container_nodes@;
                if keeps_some(earlier, omitted, other) {
                    let owner = choose|owner: RecordIdentifier|
                        earlier.contains_key(owner) && #[trigger] keeps_checkpoint(
                            earlier[owner],
                            omitted,
                            other,
                        );
                    assert(more.contains_key(owner) && keeps_checkpoint(
                        more[owner],
                        omitted,
                        other,
                    ));
                }
                if keeps_checkpoint(*node, omitted, other) {
                    assert(more.contains_key(record) && keeps_checkpoint(
                        more[record],
                        omitted,
                        other,
                    ));
                }
                if keeps_some(more, omitted, other) {
                    let owner = choose|owner: RecordIdentifier|
                        more.contains_key(owner) && #[trigger] keeps_checkpoint(
                            more[owner],
                            omitted,
                            other,
                        );
                    if owner != record {
                        assert(earlier.contains_key(owner) && keeps_checkpoint(
                            earlier[owner],
                            omitted,
                            other,
                        ));
                    }
                }
            }
            assert(self.omitted() == omitted);
            assert forall|other: RecordIdentifier|
                self.walk.roots().contains(other) == content_roots(
                    self.head_node@,
                    self.container_nodes@,
                    omitted,
                ).contains(other) by {
                assert(before.walk.roots().contains(other) == content_roots(
                    before.head_node@,
                    earlier,
                    omitted,
                ).contains(other));
                assert(keeps_some(earlier, omitted, other) || !keeps_some(
                    earlier,
                    omitted,
                    other,
                ));
            }
            assert(self.walk.roots() =~= content_roots(
                self.head_node@,
                self.container_nodes@,
                omitted,
            ));
            assert forall|segment: SegmentIdentifier|
                self.shared.listed().to_set().contains(segment) <==> #[trigger] copy_shares(
                    self.head_node@,
                    self.container_nodes@,
                    self.content_nodes@,
                    self.medium_value_limit,
                    segment,
                ) by {
                lemma_some_share_grows(earlier, self.medium_value_limit, record, *node, segment);
                assert(listed_before.contains(segment) <==> copy_shares(
                    before.head_node@,
                    earlier,
                    before.content_nodes@,
                    before.medium_value_limit,
                    segment,
                ));
            }
        }
    }

    fn take_content(&mut self, record: RecordIdentifier, node: &NodeFacts)
        requires
            old(self).well_formed(),
            old(self).awaited == Some((CopyPlace::Content, record)),
        ensures
            final(self).well_formed(),
            final(self).continues(old(self)),
            final(self).awaited is None,
            final(self).head_node@ == old(self).head_node@,
            final(self).container_nodes@ == old(self).container_nodes@,
            final(self).content_nodes@ == old(self).content_nodes@.insert(record, *node),
    {
        let ghost before = *self;
        let ghost listed_before = self.shared.listed().to_set();
        collect_shared(&node.properties, self.medium_value_limit, &mut self.shared);
        let mut entered: Vec<RecordIdentifier> = Vec::new();
        let mut index: usize = 0;
        while index < node.children.len()
            invariant
                index <= node.children@.len(),
                entered@ == child_records(node.children@).take(index as int),
            decreases node.children@.len() - index,
        {
            entered.push(node.children[index].record);
            index = index + 1;
            assert(entered@ =~= child_records(node.children@).take(index as int));
        }
        assert(entered@ =~= child_records(node.children@));
        proof {
            before.walk.lemma_awaited_is_new();
            assert(!before.content_nodes@.contains_key(record)) by {
                assert(before.walk.children().contains_key(record)
                    == before.content_nodes@.contains_key(record));
            }
        }
        self.walk.supply(entered);
        self.awaited = None;
        self.content_nodes = Ghost(self.content_nodes@.insert(record, *node));
        proof {
            assert(self.omitted() == before.omitted());
            assert(self.walk.children() =~= content_children(self.content_nodes@));
            assert forall|segment: SegmentIdentifier|
                self.shared.listed().to_set().contains(segment) <==> #[trigger] copy_shares(
                    self.head_node@,
                    self.container_nodes@,
                    self.content_nodes@,
                    self.medium_value_limit,
                    segment,
                ) by {
                lemma_some_share_grows(
                    before.content_nodes@,
                    self.medium_value_limit,
                    record,
                    *node,
                    segment,
                );
                assert(listed_before.contains(segment) <==> copy_shares(
                    before.head_node@,
                    before.container_nodes@,
                    before.content_nodes@,
                    before.medium_value_limit,
                    segment,
                ));
            }
        }
    }

    /// A finished prediction has taken the head, everything that holds its
    /// checkpoints, and exactly the content that paths lead to from what the
    /// copy enters below the head.
    proof fn lemma_finished(&self)
        requires
            self.well_formed(),
            self.is_exhausted(),
        ensures
            self.head_node() is Some,
            forall|record: RecordIdentifier| #[trigger]
                self.containers().contains_key(record) <==> holds_checkpoints(
                    self.head_node()->0,
                    record,
                ),
            forall|record: RecordIdentifier| #[trigger]
                self.content().contains_key(record) <==> reach::reached(
                    content_children(self.content()),
                    content_roots(self.head_node(), self.containers(), self.omitted()),
                    Set::empty(),
                    record,
                ),
    {
        self.walk.lemma_finished();
        assert(self.containers@.take(self.cursor as int) =~= self.containers@);
        assert forall|record: RecordIdentifier| #[trigger] self.containers().contains_key(
            record,
        ) <==> holds_checkpoints(self.head_node()->0, record) by {
            assert(self.containers@.contains(record) <==> self.head_taken && holds_checkpoints(
                self.head_node@->0,
                record,
            ));
        }
        assert forall|record: RecordIdentifier| #[trigger] self.content().contains_key(
            record,
        ) <==> reach::reached(
            content_children(self.content()),
            content_roots(self.head_node(), self.containers(), self.omitted()),
            Set::empty(),
            record,
        ) by {
            assert(self.walk.children().contains_key(record) == self.content().contains_key(
                record,
            ));
        }
    }

    /// The bulk segments that the copy shares: those of the head, of what holds
    /// its checkpoints, and of everything that the copy enters below, and no
    /// others.
    pub fn finish(self) -> (shared: SegmentSet)
        requires
            self.well_formed(),
            self.is_exhausted(),
        ensures
            shared.well_formed(),
            self.head_node() is Some,
            forall|record: RecordIdentifier| #[trigger]
                self.containers().contains_key(record) <==> holds_checkpoints(
                    self.head_node()->0,
                    record,
                ),
            forall|record: RecordIdentifier| #[trigger]
                self.content().contains_key(record) <==> reach::reached(
                    content_children(self.content()),
                    content_roots(self.head_node(), self.containers(), self.omitted()),
                    Set::empty(),
                    record,
                ),
            forall|segment: SegmentIdentifier|
                shared.has(segment) <==> #[trigger] copy_shares(
                    self.head_node(),
                    self.containers(),
                    self.content(),
                    self.limit(),
                    segment,
                ),
    {
        proof {
            self.lemma_finished();
            assert forall|segment: SegmentIdentifier|
                self.shared.has(segment) <==> #[trigger] copy_shares(
                    self.head_node(),
                    self.containers(),
                    self.content(),
                    self.limit(),
                    segment,
                ) by {
                assert(self.shared.listed().to_set().contains(segment) == self.shared.has(segment));
            }
        }
        self.shared
    }
}

/// Only the checkpoints that the run retires are left unwalked: a finished
/// prediction has taken every child of the head, every checkpoint that stays,
/// and every child of a content node, whatever its name is.
pub proof fn law_only_retired_checkpoints_are_left_unwalked(prediction: &SharedBulkPrediction)
    requires
        prediction.well_formed(),
        prediction.is_exhausted(),
    ensures
        prediction.head_node() is Some,
        forall|record: RecordIdentifier| #[trigger]
            holds_checkpoints(prediction.head_node()->0, record)
                ==> prediction.containers().contains_key(record),
        forall|record: RecordIdentifier| #[trigger]
            holds_content(prediction.head_node()->0, record)
                ==> prediction.content().contains_key(record),
        forall|container: RecordIdentifier, record: RecordIdentifier|
            prediction.containers().contains_key(container) && #[trigger] keeps_checkpoint(
                prediction.containers()[container],
                prediction.omitted(),
                record,
            ) ==> prediction.content().contains_key(record),
        forall|record: RecordIdentifier, i: int|
            prediction.content().contains_key(record) && 0 <= i
                < prediction.content()[record].children@.len()
                ==> prediction.content().contains_key(
                (#[trigger] prediction.content()[record].children@[i]).record,
            ),
{
    prediction.lemma_finished();
    let children = content_children(prediction.content());
    let roots = content_roots(
        prediction.head_node(),
        prediction.containers(),
        prediction.omitted(),
    );
    assert forall|record: RecordIdentifier| #[trigger] holds_content(
        prediction.head_node()->0,
        record,
    ) implies prediction.content().contains_key(record) by {
        assert(roots.contains(record));
        reach::lemma_root_is_reached(children, roots, Set::empty(), record);
    }
    assert forall|container: RecordIdentifier, record: RecordIdentifier|
        prediction.containers().contains_key(container) && #[trigger] keeps_checkpoint(
            prediction.containers()[container],
            prediction.omitted(),
            record,
        ) implies prediction.content().contains_key(record) by {
        assert(keeps_some(prediction.containers(), prediction.omitted(), record));
        assert(roots.contains(record));
        reach::lemma_root_is_reached(children, roots, Set::empty(), record);
    }
    assert forall|record: RecordIdentifier, i: int|
        prediction.content().contains_key(record) && 0 <= i
            < prediction.content()[record].children@.len() implies prediction.content().contains_key(
        (#[trigger] prediction.content()[record].children@[i]).record,
    ) by {
        let target = prediction.content()[record].children@[i].record;
        assert(children[record] == child_records(prediction.content()[record].children@));
        assert(children[record][i] == target);
        reach::lemma_reference_is_reached(children, roots, Set::empty(), record, target);
    }
}

/// Starts predicting what a copy of this head shares.
pub fn predict_shared_bulk_segments(
    head: RecordIdentifier,
    omitted_checkpoints: Vec<String>,
    medium_value_limit: u64,
) -> (prediction: SharedBulkPrediction)
    ensures
        prediction.well_formed(),
        prediction.head() == head,
        prediction.omitted() == text::texts(omitted_checkpoints@).to_set(),
        prediction.limit() == medium_value_limit,
        prediction.head_node() is None,
        prediction.containers() == Map::<RecordIdentifier, NodeFacts>::empty(),
        prediction.content() == Map::<RecordIdentifier, NodeFacts>::empty(),
        prediction.awaits() is None,
{
    let prediction = SharedBulkPrediction {
        head,
        omitted_checkpoints,
        medium_value_limit,
        containers: Vec::new(),
        cursor: 0,
        awaited: None,
        walk: RecordWalk::new(),
        shared: SegmentSet::new(),
        head_taken: false,
        head_node: Ghost(None),
        container_nodes: Ghost(Map::empty()),
        content_nodes: Ghost(Map::empty()),
    };
    proof {
        assert(prediction.containers@.take(0) =~= Seq::empty());
        assert(prediction.walk.roots() =~= content_roots(
            prediction.head_node@,
            prediction.container_nodes@,
            prediction.omitted(),
        ));
        assert(prediction.walk.children() =~= content_children(prediction.content_nodes@));
    }
    prediction
}

} // verus!
