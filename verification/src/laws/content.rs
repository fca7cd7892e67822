//! What is read of a property: its texts, and the bulk segments of its binaries.
use vstd::prelude::*;
use vstd::string::*;
use crate::content;
use crate::content::{BinaryValue, PropertyState, PropertyType, PropertyValue, PropertyValues};
use crate::identifier::SegmentIdentifier;
use crate::shared_bulk;
use crate::text;

verus! {

/// A property's values are its one value, or all of its many, in order.
pub proof fn law_no_value_is_left_out(property: PropertyState)
    ensures
        match property.values {
            PropertyValues::Single(value) => property.all().len() == 1 && property.all()[0]
                == value,
            PropertyValues::Multiple(values) => property.all().len() == values@.len()
                && forall|i: int| 0 <= i < values@.len() ==> property.all()[i] == values@[i],
        },
{
}

/// The leading text of a property is that of its first value: a string or a name
/// as it stands, a number in decimal, whatever another type renders as, and none
/// for a binary or for no value at all.
pub proof fn law_the_leading_text_is_the_first_values(property: PropertyState)
    ensures
        match property.values {
            PropertyValues::Single(value) => content::leading_text(property) == value.text(),
            PropertyValues::Multiple(values) => if values@.len() == 0 {
                content::leading_text(property) is None
            } else {
                content::leading_text(property) == values@[0].text()
            },
        },
        forall|value: PropertyValue| #[trigger]
            value.text() == match value {
                PropertyValue::String(string) => Some(string@),
                PropertyValue::Name(name) => Some(name@),
                PropertyValue::Long(number) => Some(text::signed_decimal(number as int)),
                PropertyValue::Binary(_) => None,
                PropertyValue::Other { text: rendered } => match rendered {
                    Some(string) => Some(string@),
                    None => None,
                },
            },
{
}

/// Looking a text up by name finds the first property of that name, and the text
/// is its one string or its one name; a property of many values, or of another
/// type, has none, and hides every later one of the same name.
pub proof fn law_the_first_of_a_name_decides(
    properties: Seq<PropertyState>,
    name: Seq<char>,
    position: int,
)
    requires
        0 <= position < properties.len(),
        properties[position].name@ == name,
        forall|i: int| 0 <= i < position ==> (#[trigger] properties[i]).name@ != name,
    ensures
        content::named_text(properties, name) == match properties[position].values {
            PropertyValues::Single(PropertyValue::String(string)) => Some(string@),
            PropertyValues::Single(PropertyValue::Name(string)) => Some(string@),
            _ => None,
        },
    decreases position,
{
    if position > 0 {
        let rest = properties.drop_first();
        assert forall|i: int| 0 <= i < position - 1 implies (#[trigger] rest[i]).name@ != name by {
            assert(rest[i] == properties[i + 1]);
        }
        law_the_first_of_a_name_decides(rest, name, position - 1);
    } else {
        assert(properties[0].name@ == name);
    }
}

/// A name that no property has leads to no text.
pub proof fn law_a_missing_name_has_no_text(properties: Seq<PropertyState>, name: Seq<char>)
    requires
        forall|i: int| 0 <= i < properties.len() ==> (#[trigger] properties[i]).name@ != name,
    ensures
        content::named_text(properties, name) is None,
    decreases properties.len(),
{
    if properties.len() > 0 {
        let rest = properties.drop_first();
        assert forall|i: int| 0 <= i < rest.len() implies (#[trigger] rest[i]).name@ != name by {
            assert(rest[i] == properties[i + 1]);
        }
        law_a_missing_name_has_no_text(rest, name);
        assert(properties[0].name@ != name);
    }
}

/// Whether a segment is a bulk segment among the blocks of a binary that is stored
/// block by block.
pub open spec fn holds_block(
    value: PropertyValue,
    medium_value_limit: u64,
    segment: SegmentIdentifier,
) -> bool {
    &&& value matches PropertyValue::Binary(BinaryValue::Inline { length, blocks, .. })
    &&& length >= medium_value_limit
    &&& blocks matches Ok(listed)
    &&& listed@.contains(segment)
    &&& segment.least_significant / 0x1000_0000_0000_0000 == 0xB
}

/// The bulk segments of some values are the bulk segments among the blocks of any
/// of them, of no shorter binary and of nothing else.
pub proof fn law_values_occupy_the_bulk_of_their_blocks(
    values: Seq<PropertyValue>,
    medium_value_limit: u64,
    segment: SegmentIdentifier,
)
    ensures
        shared_bulk::values_bulk(values, medium_value_limit).contains(segment) <==> exists|i: int|
            0 <= i < values.len() && #[trigger] holds_block(
                values[i],
                medium_value_limit,
                segment,
            ),
    decreases values.len(),
{
    if values.len() > 0 {
        let shorter = values.drop_last();
        law_values_occupy_the_bulk_of_their_blocks(shorter, medium_value_limit, segment);
        law_a_value_occupies_the_bulk_of_its_blocks(values.last(), medium_value_limit, segment);
        if shared_bulk::values_bulk(shorter, medium_value_limit).contains(segment) {
            let i = choose|i: int|
                0 <= i < shorter.len() && #[trigger] holds_block(
                    shorter[i],
                    medium_value_limit,
                    segment,
                );
            assert(holds_block(values[i], medium_value_limit, segment));
        }
        if exists|i: int|
            0 <= i < values.len() && #[trigger] holds_block(
                values[i],
                medium_value_limit,
                segment,
            ) {
            let i = choose|i: int|
                0 <= i < values.len() && #[trigger] holds_block(
                    values[i],
                    medium_value_limit,
                    segment,
                );
            if i < shorter.len() {
                assert(holds_block(shorter[i], medium_value_limit, segment));
            }
        }
        if holds_block(values.last(), medium_value_limit, segment) {
            assert(holds_block(values[values.len() - 1], medium_value_limit, segment));
        }
    }
}

/// A value occupies the bulk segments among its blocks, where it is stored block by
/// block and the list of its blocks reads.
pub proof fn law_a_value_occupies_the_bulk_of_its_blocks(
    value: PropertyValue,
    medium_value_limit: u64,
    segment: SegmentIdentifier,
)
    ensures
        content::bulk_of_value(value, medium_value_limit).contains(segment) <==> holds_block(
            value,
            medium_value_limit,
            segment,
        ),
{
}

/// A copy shares a bulk segment of a node exactly if one of the node's binary
/// properties has it among the blocks of a value, single or among many.
pub proof fn law_a_node_shares_the_bulk_of_its_binaries(
    properties: Seq<PropertyState>,
    medium_value_limit: u64,
    segment: SegmentIdentifier,
)
    ensures
        shared_bulk::shared_by_properties(properties, medium_value_limit).contains(segment)
            <==> exists|p: int, i: int|
            0 <= p < properties.len() && properties[p].property_type == PropertyType::Binary && 0
                <= i < properties[p].all().len() && #[trigger] holds_block(
                properties[p].all()[i],
                medium_value_limit,
                segment,
            ),
    decreases properties.len(),
{
    if properties.len() > 0 {
        let shorter = properties.drop_last();
        let last = properties.last();
        let end = properties.len() - 1;
        law_a_node_shares_the_bulk_of_its_binaries(shorter, medium_value_limit, segment);
        law_values_occupy_the_bulk_of_their_blocks(last.all(), medium_value_limit, segment);
        if shared_bulk::shared_by_properties(shorter, medium_value_limit).contains(segment) {
            let (p, i) = choose|p: int, i: int|
                0 <= p < shorter.len() && shorter[p].property_type == PropertyType::Binary && 0
                    <= i < shorter[p].all().len() && #[trigger] holds_block(
                    shorter[p].all()[i],
                    medium_value_limit,
                    segment,
                );
            assert(properties[p] == shorter[p]);
            assert(holds_block(properties[p].all()[i], medium_value_limit, segment));
        }
        if last.property_type == PropertyType::Binary && shared_bulk::values_bulk(
            last.all(),
            medium_value_limit,
        ).contains(segment) {
            let i = choose|i: int|
                0 <= i < last.all().len() && #[trigger] holds_block(
                    last.all()[i],
                    medium_value_limit,
                    segment,
                );
            assert(holds_block(properties[end].all()[i], medium_value_limit, segment));
        }
        if exists|p: int, i: int|
            0 <= p < properties.len() && properties[p].property_type == PropertyType::Binary && 0
                <= i < properties[p].all().len() && #[trigger] holds_block(
                properties[p].all()[i],
                medium_value_limit,
                segment,
            ) {
            let (p, i) = choose|p: int, i: int|
                0 <= p < properties.len() && properties[p].property_type == PropertyType::Binary
                    && 0 <= i < properties[p].all().len() && #[trigger] holds_block(
                    properties[p].all()[i],
                    medium_value_limit,
                    segment,
                );
            if p < end {
                assert(shorter[p] == properties[p]);
                assert(holds_block(shorter[p].all()[i], medium_value_limit, segment));
            } else {
                assert(holds_block(last.all()[i], medium_value_limit, segment));
            }
        }
    }
}

} // verus!
