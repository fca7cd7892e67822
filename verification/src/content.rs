//! Node content as plain values: what maintenance reads of properties.
use vstd::prelude::*;
use vstd::string::*;
use crate::error::Error;
use crate::identifier::{RecordIdentifier, SegmentIdentifier};
use crate::text;
use crate::text::push_signed_decimal;

verus! {

/// Where a binary's bytes are.
#[derive(Debug)]
pub enum BinaryValue {
    /// In the store.
    Inline {
        /// How many bytes.
        length: u64,
        /// The record of the value.
        record_identifier: RecordIdentifier,
        /// The segments that hold the value's blocks, or why the list of its
        /// blocks does not read.
        blocks: Result<Vec<SegmentIdentifier>, Error>,
    },
    /// In a blob store outside.
    External {
        /// The blob store's name for it.
        blob_identifier: String,
    },
}

/// One property value.
#[derive(Debug)]
pub enum PropertyValue {
    /// Plain text.
    String(String),
    /// A name.
    Name(String),
    /// A number.
    Long(i64),
    /// A binary.
    Binary(BinaryValue),
    /// A value of another type.
    Other {
        /// The value as text, where it has one.
        text: Option<String>,
    },
}

/// What maintenance tells apart about a property's type.
#[derive(Clone, Copy, Debug, PartialEq, Eq, Structural)]
pub enum PropertyType {
    /// Binaries.
    Binary,
    /// References that the store is meant to keep intact.
    Reference,
    /// References that may dangle.
    WeakReference,
    /// Anything else.
    Other,
}

/// The values of a property.
#[derive(Debug)]
pub enum PropertyValues {
    /// One value.
    Single(PropertyValue),
    /// Any number of values.
    Multiple(Vec<PropertyValue>),
}

/// One property.
#[derive(Debug)]
pub struct PropertyState {
    /// Its name.
    pub name: String,
    /// Its type.
    pub property_type: PropertyType,
    /// Its values.
    pub values: PropertyValues,
}

impl PropertyState {
    /// Every value, single or multiple.
    pub open spec fn all(self) -> Seq<PropertyValue> {
        match self.values {
            PropertyValues::Single(value) => seq![value],
            PropertyValues::Multiple(values) => values@,
        }
    }

    /// How many values the property has.
    pub fn value_count(&self) -> (count: usize)
        ensures
            count == self.all().len(),
    {
        match &self.values {
            PropertyValues::Single(_) => 1,
            PropertyValues::Multiple(values) => values.len(),
        }
    }

    /// The value at a position.
    pub fn value_at(&self, position: usize) -> (value: &PropertyValue)
        requires
            position < self.all().len(),
        ensures
            *value == self.all()[position as int],
    {
        match &self.values {
            PropertyValues::Single(value) => value,
            PropertyValues::Multiple(values) => &values[position],
        }
    }
}

impl PropertyValue {
    /// The value as text, whatever its type renders as.
    pub open spec fn text(self) -> Option<Seq<char>> {
        match self {
            PropertyValue::String(value) => Some(value@),
            PropertyValue::Name(value) => Some(value@),
            PropertyValue::Long(value) => Some(text::signed_decimal(value as int)),
            PropertyValue::Binary(_) => None,
            PropertyValue::Other { text: Some(value) } => Some(value@),
            PropertyValue::Other { text: None } => None,
        }
    }

    /// The value as text, whatever its type renders as.
    pub fn as_text(&self) -> (rendered: Option<String>)
        ensures
            match rendered {
                Some(value) => self.text() == Some(value@),
                None => self.text() is None,
            },
    {
        match self {
            PropertyValue::String(value) => Some(value.clone()),
            PropertyValue::Name(value) => Some(value.clone()),
            PropertyValue::Long(value) => {
                let mut rendered = String::new();
                if *value == i64::MIN {
                    rendered.append("-9223372036854775808");
                    proof {
                        lemma_smallest_long();
                    }
                } else {
                    push_signed_decimal(&mut rendered, *value);
                }
                assert(rendered@ =~= text::signed_decimal(*value as int));
                Some(rendered)
            },
            PropertyValue::Binary(_) => None,
            PropertyValue::Other { text: Some(value) } => Some(value.clone()),
            PropertyValue::Other { text: None } => None,
        }
    }
}

proof fn lemma_smallest_long()
    ensures
        "-9223372036854775808"@ == text::signed_decimal(i64::MIN as int),
{
    reveal_strlit("-9223372036854775808");
    reveal_with_fuel(text::decimal, 20);
    assert("-9223372036854775808"@ =~= text::signed_decimal(i64::MIN as int));
}

/// The single textual value of a property.
pub open spec fn single_text(property: PropertyState) -> Option<Seq<char>> {
    match property.values {
        PropertyValues::Single(PropertyValue::String(value)) => Some(value@),
        PropertyValues::Single(PropertyValue::Name(value)) => Some(value@),
        _ => None,
    }
}

/// The single textual value of the first property of a name.
pub open spec fn named_text(properties: Seq<PropertyState>, name: Seq<char>) -> Option<Seq<char>>
    decreases properties.len(),
{
    if properties.len() == 0 {
        None
    } else if properties[0].name@ == name {
        single_text(properties[0])
    } else {
        named_text(properties.drop_first(), name)
    }
}

/// Finds the single textual value of a named string-like property.
pub fn single_string_property(properties: &Vec<PropertyState>, name: &str) -> (value: Option<
    String,
>)
    ensures
        match value {
            Some(text) => named_text(properties@, name@) == Some(text@),
            None => named_text(properties@, name@) is None,
        },
{
    let wanted = name.to_owned();
    let mut index: usize = 0;
    assert(properties@.skip(0) =~= properties@);
    while index < properties.len()
        invariant
            index <= properties@.len(),
            wanted@ == name@,
            named_text(properties@.skip(index as int), name@) == named_text(properties@, name@),
        decreases properties@.len() - index,
    {
        let ghost rest = properties@.skip(index as int);
        assert(rest[0] == properties@[index as int]);
        assert(rest.drop_first() =~= properties@.skip(index as int + 1));
        if properties[index].name == wanted {
            return match &properties[index].values {
                PropertyValues::Single(PropertyValue::String(value)) => Some(value.clone()),
                PropertyValues::Single(PropertyValue::Name(value)) => Some(value.clone()),
                _ => None,
            };
        }
        index = index + 1;
    }
    None
}

/// The first value's text.
pub open spec fn leading_text(property: PropertyState) -> Option<Seq<char>> {
    if property.all().len() == 0 {
        None
    } else {
        property.all()[0].text()
    }
}

/// The first value's text, whatever the property's type renders as.
pub fn first_text(property: &PropertyState) -> (rendered: Option<String>)
    ensures
        match rendered {
            Some(value) => leading_text(*property) == Some(value@),
            None => leading_text(*property) is None,
        },
{
    if property.value_count() == 0 {
        None
    } else {
        property.value_at(0).as_text()
    }
}

/// A named child.
#[derive(Debug)]
pub struct ChildNode {
    /// Its name.
    pub name: String,
    /// Its record.
    pub record: RecordIdentifier,
}

/// One node, as it was read.
#[derive(Debug)]
pub struct NodeFacts {
    /// Its properties.
    pub properties: Vec<PropertyState>,
    /// Its children.
    pub children: Vec<ChildNode>,
}

/// The bulk segments among some segments.
pub open spec fn bulk_among(segments: Seq<SegmentIdentifier>) -> Set<SegmentIdentifier> {
    Set::new(|segment: SegmentIdentifier| segment.names_bulk() && segments.contains(segment))
}

/// The bulk segments among the blocks of a value that is stored block by
/// block. A shorter value lives in a data segment as a whole, and one whose
/// list of blocks does not read adds nothing.
pub open spec fn bulk_of_value(value: PropertyValue, medium_value_limit: u64) -> Set<
    SegmentIdentifier,
> {
    match value {
        PropertyValue::Binary(BinaryValue::Inline { length, blocks: Ok(blocks), .. }) =>
            if length < medium_value_limit {
                Set::empty()
            } else {
                bulk_among(blocks@)
            },
        _ => Set::empty(),
    }
}

} // verus!
