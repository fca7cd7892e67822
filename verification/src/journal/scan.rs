//! Reading a journal without interpreting it: every line's raw bytes, its
//! classification, and the record and timestamp it does or does not resolve
//! to.
use vstd::prelude::*;
use vstd::slice::*;
use crate::identifier::{RecordIdentifier, SegmentIdentifier};
use crate::number;
use crate::number::{parse_dashed_identifier, parse_signed, parse_unsigned};

verus! {

/// The line feed byte.
pub const LINE_FEED: u8 = 10;

/// The carriage return byte.
pub const CARRIAGE_RETURN: u8 = 13;

/// The space byte, which separates the fields of a line.
pub const SPACE: u8 = 32;

/// What a timestamp field amounts to.
pub enum TimestampView {
    /// No third field.
    Missing,
    /// A third field that is no `i64`.
    Malformed { raw: Seq<u8> },
    /// A millisecond timestamp.
    Milliseconds { raw: Seq<u8>, value: i64 },
}

/// What a physical line amounts to.
pub enum LineClass {
    /// No space, so no fields.
    ParserSkippedNoSpace,
    /// A first field that is no record identifier.
    InvalidRecordIdentifier { revision_text: Seq<u8> },
    /// A journal record.
    Record {
        record: RecordIdentifier,
        revision_text: Seq<u8>,
        tag: Seq<u8>,
        timestamp: TimestampView,
    },
}

/// What a physical line holds.
pub struct LineView {
    /// The whole line, terminator included.
    pub raw: Seq<u8>,
    /// How many of its bytes come before the terminator.
    pub content_length: nat,
    /// What its content amounts to.
    pub class: LineClass,
}

/// How many bytes come before the first line terminator.
pub open spec fn content_length(source: Seq<u8>) -> nat
    decreases source.len(),
{
    if source.len() == 0 || source[0] == LINE_FEED || source[0] == CARRIAGE_RETURN {
        0
    } else {
        1 + content_length(source.drop_first())
    }
}

/// How many bytes the terminator at the start of the bytes has: two for
/// `CRLF`, one for `LF` or a bare `CR`, none at the end of the bytes.
pub open spec fn terminator_length(source: Seq<u8>) -> nat {
    if source.len() == 0 {
        0
    } else if source[0] == CARRIAGE_RETURN && source.len() > 1 && source[1] == LINE_FEED {
        2
    } else {
        1
    }
}

/// How many bytes the first physical line has.
pub open spec fn line_length(source: Seq<u8>) -> nat {
    content_length(source) + terminator_length(source.skip(content_length(source) as int))
}

/// The first physical line.
pub open spec fn first_line(source: Seq<u8>) -> LineView {
    LineView {
        raw: source.take(line_length(source) as int),
        content_length: content_length(source),
        class: classified(source.take(content_length(source) as int)),
    }
}

/// The physical lines of a journal, oldest first.
pub open spec fn physical_lines(source: Seq<u8>) -> Seq<LineView>
    decreases source.len(),
{
    if source.len() == 0 {
        Seq::empty()
    } else {
        proof {
            lemma_line_length(source);
        }
        seq![first_line(source)] + physical_lines(source.skip(line_length(source) as int))
    }
}

/// The bytes of the lines, one after the other.
pub open spec fn concatenated(lines: Seq<LineView>) -> Seq<u8>
    decreases lines.len(),
{
    if lines.len() == 0 {
        Seq::empty()
    } else {
        lines[0].raw + concatenated(lines.drop_first())
    }
}

/// How many bytes come before the first space.
pub open spec fn field_length(content: Seq<u8>) -> nat
    decreases content.len(),
{
    if content.len() == 0 || content[0] == SPACE {
        0
    } else {
        1 + field_length(content.drop_first())
    }
}

/// The bytes before the first space.
pub open spec fn first_field(content: Seq<u8>) -> Seq<u8> {
    content.take(field_length(content) as int)
}

/// The bytes after the first space, when there is one.
pub open spec fn later_fields(content: Seq<u8>) -> Option<Seq<u8>> {
    if field_length(content) < content.len() {
        Some(content.skip(field_length(content) as int + 1))
    } else {
        None
    }
}

/// The record that a dashed identifier, a colon and a record number name.
pub open spec fn record_named(text: Seq<u8>) -> Option<RecordIdentifier> {
    if text.len() > 37 && text[36] == 58 {
        match (number::identifier_value(text.take(36)), number::unsigned_value(text.skip(37))) {
            (Some(segment), Some(record_number)) => if record_number <= u32::MAX {
                Some(
                    RecordIdentifier {
                        segment: SegmentIdentifier {
                            most_significant: (segment / 0x1_0000_0000_0000_0000) as u64,
                            least_significant: (segment % 0x1_0000_0000_0000_0000) as u64,
                        },
                        record_number: record_number as u32,
                    },
                )
            } else {
                None
            },
            _ => None,
        }
    } else {
        None
    }
}

/// What a third field amounts to.
pub open spec fn timestamp_of(field: Option<Seq<u8>>) -> TimestampView {
    match field {
        None => TimestampView::Missing,
        Some(rest) => match number::signed_value(first_field(rest)) {
            Some(value) => TimestampView::Milliseconds { raw: first_field(rest), value },
            None => TimestampView::Malformed { raw: first_field(rest) },
        },
    }
}

/// What a line's content amounts to.
pub open spec fn classified(content: Seq<u8>) -> LineClass {
    match later_fields(content) {
        None => LineClass::ParserSkippedNoSpace,
        Some(rest) => match record_named(first_field(content)) {
            None => LineClass::InvalidRecordIdentifier { revision_text: first_field(content) },
            Some(record) => LineClass::Record {
                record,
                revision_text: first_field(content),
                tag: first_field(rest),
                timestamp: timestamp_of(later_fields(rest)),
            },
        },
    }
}

/// Timestamp parsing that keeps absent and bad apart.
#[derive(Clone, Debug, PartialEq, Eq)]
pub enum RawJournalTimestamp {
    /// The line has no third space-separated field.
    Missing,
    /// A third field exists but is not an `i64` timestamp.
    Malformed {
        /// The exact third-field bytes.
        raw: Vec<u8>,
    },
    /// The third field is a valid millisecond timestamp.
    Milliseconds {
        /// The exact third-field bytes, before numeric parsing.
        raw: Vec<u8>,
        /// The parsed signed millisecond value.
        value: i64,
    },
}

impl View for RawJournalTimestamp {
    type V = TimestampView;

    open spec fn view(&self) -> TimestampView {
        match self {
            RawJournalTimestamp::Missing => TimestampView::Missing,
            RawJournalTimestamp::Malformed { raw } => TimestampView::Malformed { raw: raw@ },
            RawJournalTimestamp::Milliseconds { raw, value } => TimestampView::Milliseconds {
                raw: raw@,
                value: *value,
            },
        }
    }
}

/// The fields that cleanup needs, while the enclosing line keeps the bytes.
#[derive(Clone, Debug, PartialEq, Eq)]
pub struct RawJournalRecord {
    /// The validated record identifier from the first field.
    pub record_identifier: RecordIdentifier,
    /// The exact bytes of the first field.
    pub revision_text: Vec<u8>,
    /// The exact bytes of the second (historical tag) field.
    pub tag: Vec<u8>,
    /// The third-field timestamp classification.
    pub timestamp: RawJournalTimestamp,
}

/// Why the ordinary journal reader would retain or ignore a physical line.
#[derive(Clone, Debug, PartialEq, Eq)]
pub enum RawJournalLineClassification {
    /// The line contains no ASCII space and is skipped before field parsing.
    ParserSkippedNoSpace,
    /// The line has fields, but its first field is not a record identifier.
    InvalidRecordIdentifier {
        /// The exact, possibly non-UTF-8 first field.
        revision_text: Vec<u8>,
    },
    /// The line is a syntactic journal record, even if its timestamp is bad.
    Record(RawJournalRecord),
}

impl View for RawJournalLineClassification {
    type V = LineClass;

    open spec fn view(&self) -> LineClass {
        match self {
            RawJournalLineClassification::ParserSkippedNoSpace => LineClass::ParserSkippedNoSpace,
            RawJournalLineClassification::InvalidRecordIdentifier { revision_text } =>
                LineClass::InvalidRecordIdentifier { revision_text: revision_text@ },
            RawJournalLineClassification::Record(record) => LineClass::Record {
                record: record.record_identifier,
                revision_text: record.revision_text@,
                tag: record.tag@,
                timestamp: record.timestamp@,
            },
        }
    }
}

/// One physical journal line, its original terminator included.
#[derive(Clone, Debug, PartialEq, Eq)]
pub struct RawJournalLine {
    raw_bytes: Vec<u8>,
    content_length: usize,
    classification: RawJournalLineClassification,
}

impl View for RawJournalLine {
    type V = LineView;

    closed spec fn view(&self) -> LineView {
        LineView {
            raw: self.raw_bytes@,
            content_length: self.content_length as nat,
            class: self.classification@,
        }
    }
}

impl RawJournalLine {
    /// The complete line, including `LF`, `CRLF`, or bare `CR`.
    pub fn raw_bytes(&self) -> (bytes: &[u8])
        ensures
            bytes@ == self@.raw,
    {
        self.raw_bytes.as_slice()
    }

    /// The line without its terminator.
    pub fn content_bytes(&self) -> (bytes: &[u8])
        requires
            self@.content_length <= self@.raw.len(),
        ensures
            bytes@ == self@.raw.take(self@.content_length as int),
    {
        slice_subrange(self.raw_bytes.as_slice(), 0, self.content_length)
    }

    /// The reader-compatible classification of this line.
    pub fn classification(&self) -> (classification: &RawJournalLineClassification)
        ensures
            classification@ == self@.class,
    {
        &self.classification
    }
}

/// What a list of lines holds.
pub open spec fn line_views(lines: Seq<RawJournalLine>) -> Seq<LineView> {
    lines.map_values(|line: RawJournalLine| line@)
}

/// A byte-exact snapshot of a journal.
#[derive(Debug)]
pub struct RawJournal {
    source_bytes: Vec<u8>,
    lines: Vec<RawJournalLine>,
}

impl RawJournal {
    /// Every source byte, in order.
    pub closed spec fn source(&self) -> Seq<u8> {
        self.source_bytes@
    }

    /// The physical lines, oldest first.
    pub closed spec fn listed(&self) -> Seq<LineView> {
        line_views(self.lines@)
    }

    /// The lines are those of the source bytes.
    pub open spec fn well_formed(&self) -> bool {
        self.listed() == physical_lines(self.source())
    }

    /// The snapshot of these bytes.
    pub fn of_bytes(source_bytes: Vec<u8>) -> (journal: Self)
        ensures
            journal.well_formed(),
            journal.source() == source_bytes@,
    {
        let lines = split_and_classify_lines(source_bytes.as_slice());
        RawJournal { source_bytes, lines }
    }

    /// The physical lines in their original, oldest-first order.
    pub fn lines(&self) -> (lines: &Vec<RawJournalLine>)
        ensures
            line_views(lines@) == self.listed(),
    {
        &self.lines
    }

    /// Every source byte exactly as it was read.
    pub fn source_bytes(&self) -> (bytes: &[u8])
        ensures
            bytes@ == self.source(),
    {
        self.source_bytes.as_slice()
    }
}

/// Reads a record identifier: a dashed identifier, a colon and a decimal
/// record number.
pub fn parse_record_identifier_text(text: &[u8]) -> (parsed: Option<RecordIdentifier>)
    ensures
        parsed == record_named(text@),
{
    if text.len() <= 37 || text[36] != 58 {
        return None;
    }
    assert(text@.subrange(0, 36) =~= text@.take(36));
    assert(text@.subrange(37, text@.len() as int) =~= text@.skip(37));
    match parse_dashed_identifier(slice_subrange(text, 0, 36)) {
        Some(segment) => match parse_unsigned(slice_subrange(text, 37, text.len())) {
            Some(record_number) => {
                if record_number > u32::MAX as u64 {
                    None
                } else {
                    Some(
                        RecordIdentifier {
                            segment: SegmentIdentifier::from_number(segment),
                            record_number: record_number as u32,
                        },
                    )
                }
            },
            None => None,
        },
        None => None,
    }
}

proof fn lemma_field_length_reached(content: Seq<u8>, count: int)
    requires
        0 <= count <= content.len(),
        forall|i: int| 0 <= i < count ==> content[i] != SPACE,
        count == content.len() || content[count] == SPACE,
    ensures
        field_length(content) == count,
    decreases count,
{
    if count > 0 {
        assert(content[0] != SPACE);
        lemma_field_length_reached(content.drop_first(), count - 1);
    }
}

/// How many bytes from `start` come before the next space.
fn measure_field(content: &[u8], start: usize) -> (end: usize)
    requires
        start <= content@.len(),
    ensures
        start <= end <= content@.len(),
        end - start == field_length(content@.skip(start as int)),
{
    let mut end: usize = start;
    while end < content.len() && content[end] != SPACE
        invariant
            start <= end <= content@.len(),
            forall|i: int| start <= i < end ==> content@[i] != SPACE,
        decreases content@.len() - end,
    {
        end = end + 1;
    }
    proof {
        lemma_field_length_reached(content@.skip(start as int), end - start);
    }
    end
}

/// Decides how the journal reader sees a line's content.
pub fn classify_line(content: &[u8]) -> (classification: RawJournalLineClassification)
    ensures
        classification@ == classified(content@),
{
    assert(content@.skip(0) =~= content@);
    let first_end = measure_field(content, 0);
    if first_end == content.len() {
        return RawJournalLineClassification::ParserSkippedNoSpace;
    }
    assert(content@.subrange(0, first_end as int) =~= first_field(content@));
    let revision = slice_subrange(content, 0, first_end);
    let revision_text = slice_to_vec(revision);
    let record_identifier = match parse_record_identifier_text(revision) {
        Some(record) => record,
        None => {
            return RawJournalLineClassification::InvalidRecordIdentifier { revision_text };
        },
    };
    let ghost rest = content@.skip(first_end as int + 1);
    let second_end = measure_field(content, first_end + 1);
    assert(content@.subrange(first_end as int + 1, second_end as int) =~= first_field(rest));
    let tag = slice_to_vec(slice_subrange(content, first_end + 1, second_end));
    let timestamp = if second_end == content.len() {
        RawJournalTimestamp::Missing
    } else {
        let third_end = measure_field(content, second_end + 1);
        let ghost third = content@.skip(second_end as int + 1);
        assert(rest.skip(field_length(rest) as int + 1) =~= third);
        assert(content@.subrange(second_end as int + 1, third_end as int) =~= first_field(third));
        let raw = slice_subrange(content, second_end + 1, third_end);
        match parse_signed(raw) {
            Some(value) => RawJournalTimestamp::Milliseconds { raw: slice_to_vec(raw), value },
            None => RawJournalTimestamp::Malformed { raw: slice_to_vec(raw) },
        }
    };
    RawJournalLineClassification::Record(
        RawJournalRecord { record_identifier, revision_text, tag, timestamp },
    )
}

/// Keeps a line's bytes beside what its content amounts to.
pub fn make_line(raw: &[u8], content_length: usize) -> (line: RawJournalLine)
    requires
        content_length <= raw@.len(),
    ensures
        line@ == (LineView {
            raw: raw@,
            content_length: content_length as nat,
            class: classified(raw@.take(content_length as int)),
        }),
{
    assert(raw@.subrange(0, content_length as int) =~= raw@.take(content_length as int));
    let classification = classify_line(slice_subrange(raw, 0, content_length));
    RawJournalLine { raw_bytes: slice_to_vec(raw), content_length, classification }
}

proof fn lemma_content_length_reached(source: Seq<u8>, count: int)
    requires
        0 <= count <= source.len(),
        forall|i: int| 0 <= i < count ==> source[i] != LINE_FEED && source[i] != CARRIAGE_RETURN,
        count == source.len() || source[count] == LINE_FEED || source[count] == CARRIAGE_RETURN,
    ensures
        content_length(source) == count,
    decreases count,
{
    if count > 0 {
        assert(source[0] != LINE_FEED && source[0] != CARRIAGE_RETURN);
        lemma_content_length_reached(source.drop_first(), count - 1);
    }
}

/// A line has at least one byte and lies within the source; its content holds
/// no terminator byte.
pub proof fn lemma_line_length(source: Seq<u8>)
    ensures
        content_length(source) <= line_length(source) <= source.len(),
        source.len() > 0 ==> line_length(source) > 0,
        forall|i: int|
            0 <= i < content_length(source) ==> source[i] != LINE_FEED && source[i]
                != CARRIAGE_RETURN,
        content_length(source) < source.len() ==> source[content_length(source) as int]
            == LINE_FEED || source[content_length(source) as int] == CARRIAGE_RETURN,
    decreases source.len(),
{
    if source.len() > 0 && source[0] != LINE_FEED && source[0] != CARRIAGE_RETURN {
        let rest = source.drop_first();
        lemma_line_length(rest);
        let count = content_length(rest);
        assert(rest.skip(count as int) =~= source.skip(count as int + 1));
        assert forall|i: int| 0 <= i < content_length(source) implies source[i] != LINE_FEED
            && source[i] != CARRIAGE_RETURN by {
            if i > 0 {
                assert(rest[i - 1] == source[i]);
            }
        }
    }
}

/// The lines of a journal, one after the other, are its bytes: the scan drops
/// and changes none of them.
pub proof fn law_lines_hold_every_byte(source: Seq<u8>)
    ensures
        concatenated(physical_lines(source)) == source,
    decreases source.len(),
{
    if source.len() > 0 {
        lemma_line_length(source);
        let length = line_length(source) as int;
        law_lines_hold_every_byte(source.skip(length));
        assert(physical_lines(source).drop_first() =~= physical_lines(source.skip(length)));
        assert(source.take(length) + source.skip(length) =~= source);
    } else {
        assert(source =~= Seq::empty());
    }
}

/// Every line ends where its terminator ends: its content holds no terminator
/// byte, what follows the content is the terminator, and only the last line
/// can lack one.
pub proof fn law_line_shape(source: Seq<u8>, index: int)
    requires
        0 <= index < physical_lines(source).len(),
    ensures
        ({
            let line = physical_lines(source)[index];
            &&& line.content_length <= line.raw.len()
            &&& line.raw.len() > 0
            &&& line.class == classified(line.raw.take(line.content_length as int))
            &&& forall|i: int|
                0 <= i < line.content_length ==> line.raw[i] != LINE_FEED && line.raw[i]
                    != CARRIAGE_RETURN
            &&& line.content_length == line.raw.len() ==> index == physical_lines(source).len() - 1
            &&& line.content_length < line.raw.len() ==> ({
                let terminator = line.raw.skip(line.content_length as int);
                ||| terminator == seq![LINE_FEED]
                ||| terminator == seq![CARRIAGE_RETURN]
                ||| terminator == seq![CARRIAGE_RETURN, LINE_FEED]
            })
        }),
    decreases source.len(),
{
    lemma_line_length(source);
    let length = line_length(source) as int;
    let content = content_length(source) as int;
    let rest = source.skip(length);
    assert(physical_lines(source) =~= seq![first_line(source)] + physical_lines(rest));
    if index == 0 {
        let line = first_line(source);
        assert(line.raw.take(content) =~= source.take(content));
        assert forall|i: int| 0 <= i < line.content_length implies line.raw[i] != LINE_FEED
            && line.raw[i] != CARRIAGE_RETURN by {
            assert(line.raw[i] == source[i]);
        }
        if content < source.len() {
            let terminator = line.raw.skip(content);
            let after = source.skip(content);
            if terminator_length(after) == 2 {
                assert(terminator =~= seq![CARRIAGE_RETURN, LINE_FEED]);
            } else if after[0] == LINE_FEED {
                assert(terminator =~= seq![LINE_FEED]);
            } else {
                assert(terminator =~= seq![CARRIAGE_RETURN]);
            }
        } else {
            assert(rest =~= Seq::empty());
        }
    } else {
        law_line_shape(rest, index - 1);
        assert(physical_lines(source)[index] == physical_lines(rest)[index - 1]);
    }
}

/// Splits a journal into its physical lines and classifies each of them.
pub fn split_and_classify_lines(source: &[u8]) -> (lines: Vec<RawJournalLine>)
    ensures
        line_views(lines@) == physical_lines(source@),
{
    let mut lines: Vec<RawJournalLine> = Vec::new();
    let mut start: usize = 0;
    assert(source@.skip(0) =~= source@);
    assert(line_views(lines@) =~= Seq::<LineView>::empty());
    assert(line_views(lines@) + physical_lines(source@) =~= physical_lines(source@));
    while start < source.len()
        invariant
            start <= source@.len(),
            line_views(lines@) + physical_lines(source@.skip(start as int)) == physical_lines(
                source@,
            ),
        decreases source@.len() - start,
    {
        let ghost rest = source@.skip(start as int);
        let mut cursor: usize = start;
        while cursor < source.len() && source[cursor] != LINE_FEED && source[cursor]
            != CARRIAGE_RETURN
            invariant
                start <= cursor <= source@.len(),
                forall|i: int|
                    start <= i < cursor ==> source@[i] != LINE_FEED && source@[i]
                        != CARRIAGE_RETURN,
            decreases source@.len() - cursor,
        {
            cursor = cursor + 1;
        }
        proof {
            lemma_content_length_reached(rest, cursor - start);
            lemma_line_length(rest);
            assert(rest.skip(cursor - start) =~= source@.skip(cursor as int));
        }
        let end: usize = if cursor == source.len() {
            cursor
        } else if source[cursor] == CARRIAGE_RETURN && cursor + 1 < source.len() && source[cursor
            + 1] == LINE_FEED {
            cursor + 2
        } else {
            cursor + 1
        };
        assert(end - start == line_length(rest));
        let raw = slice_subrange(source, start, end);
        assert(raw@ =~= rest.take(line_length(rest) as int));
        assert(raw@.take(cursor - start) =~= rest.take(cursor - start));
        let ghost before = line_views(lines@);
        lines.push(make_line(raw, cursor - start));
        proof {
            assert(line_views(lines@) =~= before.push(first_line(rest)));
            assert(rest.skip(line_length(rest) as int) =~= source@.skip(end as int));
            assert(before + physical_lines(rest) =~= before.push(first_line(rest))
                + physical_lines(source@.skip(end as int)));
        }
        start = end;
    }
    assert(source@.skip(start as int) =~= Seq::<u8>::empty());
    assert(line_views(lines@) + Seq::<LineView>::empty() =~= line_views(lines@));
    lines
}

} // verus!
