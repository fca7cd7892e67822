//! What a copy enters, and what it shares.
use vstd::prelude::*;
use vstd::string::*;
use crate::content::{BinaryValue, NodeFacts, PropertyState, PropertyType, PropertyValue};
use crate::identifier::{RecordIdentifier, SegmentIdentifier};
use crate::laws::content;
use crate::shared_bulk;

verus! {

/// Below the head a copy enters every child but those named `checkpoints`, and of what
/// those hold every checkpoint that is not retired; nothing else.
pub proof fn law_a_copy_enters_content_and_kept_checkpoints(
    head: NodeFacts,
    containers: Map<RecordIdentifier, NodeFacts>,
    omitted: Set<Seq<char>>,
    record: RecordIdentifier,
)
    ensures
        shared_bulk::content_roots(Some(head), containers, omitted).contains(record) <==> {
            ||| exists|i: int|
                0 <= i < head.children@.len() && (#[trigger] head.children@[i]).record == record
                    && head.children@[i].name@ != "checkpoints"@
            ||| exists|container: RecordIdentifier, i: int|
                containers.contains_key(container) && 0 <= i
                    < containers[container].children@.len() && (
                #[trigger] containers[container].children@[i]).record == record
                    && !omitted.contains(containers[container].children@[i].name@)
        },
        shared_bulk::holds_checkpoints(head, record) <==> exists|i: int|
            0 <= i < head.children@.len() && (#[trigger] head.children@[i]).record == record
                && head.children@[i].name@ == "checkpoints"@,
{
    if shared_bulk::keeps_some(containers, omitted, record) {
        let container = choose|container: RecordIdentifier|
            containers.contains_key(container) && #[trigger] shared_bulk::keeps_checkpoint(
                containers[container],
                omitted,
                record,
            );
        let i = choose|i: int|
            0 <= i < containers[container].children@.len() && !omitted.contains(
                (#[trigger] containers[container].children@[i]).name@,
            ) && containers[container].children@[i].record == record;
        assert(containers[container].children@[i].record == record);
    }
    if exists|container: RecordIdentifier, i: int|
        containers.contains_key(container) && 0 <= i < containers[container].children@.len() && (
        #[trigger] containers[container].children@[i]).record == record && !omitted.contains(
            containers[container].children@[i].name@,
        ) {
        let (container, i) = choose|container: RecordIdentifier, i: int|
            containers.contains_key(container) && 0 <= i < containers[container].children@.len()
                && (#[trigger] containers[container].children@[i]).record == record
                && !omitted.contains(containers[container].children@[i].name@);
        assert(shared_bulk::keeps_checkpoint(containers[container], omitted, record));
        assert(shared_bulk::keeps_some(containers, omitted, record));
    }
}

/// A content node leads a copy to all of its children, whatever they are called.
pub proof fn law_a_copy_follows_every_child(
    nodes: Map<RecordIdentifier, NodeFacts>,
    record: RecordIdentifier,
    child: int,
)
    requires
        nodes.contains_key(record),
        0 <= child < nodes[record].children@.len(),
    ensures
        shared_bulk::content_children(nodes).contains_key(record),
        shared_bulk::content_children(nodes)[record].len() == nodes[record].children@.len(),
        shared_bulk::content_children(nodes)[record][child] == nodes[record].children@[child].record,
{
}

/// A copy shares a bulk segment exactly if a binary property of a node that it copies
/// has it among its blocks: of the head, of what holds its checkpoints, or of a node
/// below.
pub proof fn law_a_copy_shares_what_its_nodes_hold(
    head: Option<NodeFacts>,
    containers: Map<RecordIdentifier, NodeFacts>,
    below: Map<RecordIdentifier, NodeFacts>,
    medium_value_limit: u64,
    segment: SegmentIdentifier,
)
    ensures
        shared_bulk::copy_shares(head, containers, below, medium_value_limit, segment) <==> {
            ||| head is Some && holds(head->0, medium_value_limit, segment)
            ||| exists|record: RecordIdentifier|
                containers.contains_key(record) && #[trigger] holds(
                    containers[record],
                    medium_value_limit,
                    segment,
                )
            ||| exists|record: RecordIdentifier|
                below.contains_key(record) && #[trigger] holds(
                    below[record],
                    medium_value_limit,
                    segment,
                )
        },
{
    assert forall|node: NodeFacts| #[trigger]
        holds(node, medium_value_limit, segment) == shared_bulk::node_shares(
            node,
            medium_value_limit,
            segment,
        ) by {
        content::law_a_node_shares_the_bulk_of_its_binaries(
            node.properties@,
            medium_value_limit,
            segment,
        );
    }
    if shared_bulk::some_share(containers, medium_value_limit, segment) {
        let record = choose|record: RecordIdentifier|
            containers.contains_key(record) && #[trigger] shared_bulk::node_shares(
                containers[record],
                medium_value_limit,
                segment,
            );
        assert(holds(containers[record], medium_value_limit, segment));
    }
    if shared_bulk::some_share(below, medium_value_limit, segment) {
        let record = choose|record: RecordIdentifier|
            below.contains_key(record) && #[trigger] shared_bulk::node_shares(
                below[record],
                medium_value_limit,
                segment,
            );
        assert(holds(below[record], medium_value_limit, segment));
    }
    if exists|record: RecordIdentifier|
        containers.contains_key(record) && #[trigger] holds(
            containers[record],
            medium_value_limit,
            segment,
        ) {
        let record = choose|record: RecordIdentifier|
            containers.contains_key(record) && #[trigger] holds(
                containers[record],
                medium_value_limit,
                segment,
            );
        assert(shared_bulk::node_shares(containers[record], medium_value_limit, segment));
    }
    if exists|record: RecordIdentifier|
        below.contains_key(record) && #[trigger] holds(below[record], medium_value_limit, segment) {
        let record = choose|record: RecordIdentifier|
            below.contains_key(record) && #[trigger] holds(
                below[record],
                medium_value_limit,
                segment,
            );
        assert(shared_bulk::node_shares(below[record], medium_value_limit, segment));
    }
}

/// Whether a binary property of a node has a bulk segment among its blocks.
pub open spec fn holds(
    node: NodeFacts,
    medium_value_limit: u64,
    segment: SegmentIdentifier,
) -> bool {
    exists|p: int, i: int|
        0 <= p < node.properties@.len() && node.properties@[p].property_type
            == PropertyType::Binary && 0 <= i < node.properties@[p].all().len()
            && #[trigger] content::holds_block(
            node.properties@[p].all()[i],
            medium_value_limit,
            segment,
        )
}

/// Whether a value is a binary that is stored block by block and whose list of blocks
/// does not read.
pub open spec fn is_unreadable(value: PropertyValue, medium_value_limit: u64) -> bool {
    &&& value matches PropertyValue::Binary(BinaryValue::Inline { length, blocks, .. })
    &&& length >= medium_value_limit
    &&& blocks is Err
}

proof fn lemma_values_fault(values: Seq<PropertyValue>, medium_value_limit: u64)
    ensures
        shared_bulk::values_fault(values, medium_value_limit) is Some <==> exists|i: int|
            0 <= i < values.len() && is_unreadable(#[trigger] values[i], medium_value_limit),
    decreases values.len(),
{
    if values.len() > 0 {
        let shorter = values.drop_last();
        let end = values.len() - 1;
        lemma_values_fault(shorter, medium_value_limit);
        assert(values[end] == values.last());
        assert(forall|i: int| 0 <= i < end ==> values[i] == shorter[i]);
        if exists|i: int|
            0 <= i < shorter.len() && is_unreadable(#[trigger] shorter[i], medium_value_limit) {
            let i = choose|i: int|
                0 <= i < shorter.len() && is_unreadable(#[trigger] shorter[i], medium_value_limit);
            assert(is_unreadable(values[i], medium_value_limit));
        }
    }
}

/// The prediction fails at a node exactly if the blocks of one of its binary
/// properties, stored block by block, do not read; a shorter binary and any other
/// property never fail it.
pub proof fn law_unreadable_blocks_fail_the_prediction(
    properties: Seq<PropertyState>,
    medium_value_limit: u64,
)
    ensures
        shared_bulk::properties_fault(properties, medium_value_limit) is Some <==> exists|
            p: int,
            i: int,
        |
            0 <= p < properties.len() && properties[p].property_type == PropertyType::Binary && 0
                <= i < properties[p].all().len() && is_unreadable(
                #[trigger] properties[p].all()[i],
                medium_value_limit,
            ),
    decreases properties.len(),
{
    if properties.len() > 0 {
        let shorter = properties.drop_last();
        let last = properties.last();
        let end = properties.len() - 1;
        law_unreadable_blocks_fail_the_prediction(shorter, medium_value_limit);
        lemma_values_fault(last.all(), medium_value_limit);
        assert(properties[end] == last);
        if shared_bulk::properties_fault(shorter, medium_value_limit) is Some {
            let (p, i) = choose|p: int, i: int|
                0 <= p < shorter.len() && shorter[p].property_type == PropertyType::Binary && 0
                    <= i < shorter[p].all().len() && is_unreadable(
                    #[trigger] shorter[p].all()[i],
                    medium_value_limit,
                );
            assert(properties[p] == shorter[p]);
            assert(is_unreadable(properties[p].all()[i], medium_value_limit));
        }
        if last.property_type == PropertyType::Binary && shared_bulk::values_fault(
            last.all(),
            medium_value_limit,
        ) is Some {
            let i = choose|i: int|
                0 <= i < last.all().len() && is_unreadable(
                    #[trigger] last.all()[i],
                    medium_value_limit,
                );
            assert(is_unreadable(properties[end].all()[i], medium_value_limit));
        }
        if exists|p: int, i: int|
            0 <= p < properties.len() && properties[p].property_type == PropertyType::Binary && 0
                <= i < properties[p].all().len() && is_unreadable(
                #[trigger] properties[p].all()[i],
                medium_value_limit,
            ) {
            let (p, i) = choose|p: int, i: int|
                0 <= p < properties.len() && properties[p].property_type == PropertyType::Binary
                    && 0 <= i < properties[p].all().len() && is_unreadable(
                    #[trigger] properties[p].all()[i],
                    medium_value_limit,
                );
            if p < end {
                assert(shorter[p] == properties[p]);
                assert(is_unreadable(shorter[p].all()[i], medium_value_limit));
            } else {
                assert(is_unreadable(last.all()[i], medium_value_limit));
            }
        }
    }
}

} // verus!
