//! What becomes of each line of a journal, in terms of its bytes and of what the
//! store holds.
use vstd::prelude::*;
use vstd::string::*;
use crate::identifier::{RecordIdentifier, SegmentIdentifier};
use crate::journal::analysis;
use crate::journal::analysis::LineFate;
use crate::journal::proofs;
use crate::journal::rewrite;
use crate::journal::scan;
use crate::journal::scan::{LineClass, LineView, TimestampView};
use crate::number;
use crate::plan::JournalRemovalReason;

verus! {

/// Whether a line names a revision that the store holds and that is known to read.
pub open spec fn reads(
    lines: Seq<LineView>,
    segments: Set<SegmentIdentifier>,
    verdicts: Seq<Option<bool>>,
    index: int,
) -> bool {
    &&& 0 <= index < lines.len()
    &&& lines[index].class matches LineClass::Record { record, .. }
    &&& segments.contains(record.segment)
    &&& verdicts[index] == Some(true)
}

/// The lines behind another that name such a revision.
pub open spec fn readable_behind(
    lines: Seq<LineView>,
    segments: Set<SegmentIdentifier>,
    verdicts: Seq<Option<bool>>,
    index: int,
) -> Set<int> {
    Set::new(|i: int| i > index && reads(lines, segments, verdicts, i))
}

proof fn lemma_readable_behind(
    lines: Seq<LineView>,
    segments: Set<SegmentIdentifier>,
    verdicts: Seq<Option<bool>>,
    index: int,
)
    requires
        -1 <= index < lines.len(),
    ensures
        readable_behind(lines, segments, verdicts, index).finite(),
        readable_behind(lines, segments, verdicts, index).len() == analysis::readable_from(
            lines,
            segments,
            verdicts,
            index + 1,
        ),
    decreases lines.len() - index,
{
    let behind = readable_behind(lines, segments, verdicts, index);
    if index + 1 >= lines.len() {
        assert(behind =~= Set::empty());
    } else {
        lemma_readable_behind(lines, segments, verdicts, index + 1);
        let further = readable_behind(lines, segments, verdicts, index + 1);
        assert(analysis::is_readable(lines, segments, verdicts, index + 1) <==> reads(
            lines,
            segments,
            verdicts,
            index + 1,
        ));
        if reads(lines, segments, verdicts, index + 1) {
            assert(behind =~= further.insert(index + 1));
        } else {
            assert(behind =~= further);
        }
    }
}

/// Without a bound a line stays exactly if it names a revision that the store holds
/// and that reads.
pub proof fn law_every_readable_revision_stays(
    lines: Seq<LineView>,
    segments: Set<SegmentIdentifier>,
    verdicts: Seq<Option<bool>>,
    index: int,
)
    requires
        0 <= index < lines.len(),
    ensures
        analysis::fates(lines, segments, verdicts, None)[index] is Retained <==> reads(
            lines,
            segments,
            verdicts,
            index,
        ),
{
}

proof fn lemma_readable_shrinks(
    lines: Seq<LineView>,
    segments: Set<SegmentIdentifier>,
    verdicts: Seq<Option<bool>>,
    start: int,
    later: int,
)
    requires
        0 <= start <= later <= lines.len(),
    ensures
        analysis::readable_from(lines, segments, verdicts, later) <= analysis::readable_from(
            lines,
            segments,
            verdicts,
            start,
        ),
    decreases later - start,
{
    if start < later {
        lemma_readable_shrinks(lines, segments, verdicts, start + 1, later);
    }
}

/// A bound keeps the newest revisions that read, as many as it says: a line stays
/// exactly if it names one and fewer than the bound come behind it.
pub proof fn law_the_newest_readable_revisions_stay(
    lines: Seq<LineView>,
    segments: Set<SegmentIdentifier>,
    verdicts: Seq<Option<bool>>,
    retention: nat,
    boundary: Option<int>,
    index: int,
)
    requires
        retention > 0,
        analysis::is_boundary(lines, segments, verdicts, retention, boundary),
        0 <= index < lines.len(),
    ensures
        analysis::fates(lines, segments, verdicts, boundary)[index] is Retained <==> reads(
            lines,
            segments,
            verdicts,
            index,
        ) && readable_behind(lines, segments, verdicts, index).len() < retention,
{
    lemma_readable_behind(lines, segments, verdicts, index);
    match boundary {
        Some(first) => {
            if index < first {
                lemma_readable_shrinks(lines, segments, verdicts, index + 1, first);
            } else {
                lemma_readable_shrinks(lines, segments, verdicts, first + 1, index + 1);
                assert(analysis::is_readable(lines, segments, verdicts, first));
                assert(analysis::readable_from(lines, segments, verdicts, first)
                    == analysis::readable_from(lines, segments, verdicts, first + 1) + 1);
            }
        },
        None => {
            lemma_readable_shrinks(lines, segments, verdicts, 0, index + 1);
        },
    }
}

/// A line goes for the first thing that is wrong with it: it has no fields, its first
/// field is no record, the store lacks the segment, the bound leaves it out, or its
/// revision does not read. The report names the record where there is one.
pub proof fn law_a_line_goes_for_the_first_fault(
    lines: Seq<LineView>,
    segments: Set<SegmentIdentifier>,
    verdicts: Seq<Option<bool>>,
    boundary: Option<int>,
    index: int,
)
    requires
        0 <= index < lines.len(),
    ensures
        ({
            let fate = analysis::fates(lines, segments, verdicts, boundary)[index];
            match lines[index].class {
                LineClass::ParserSkippedNoSpace => fate == (LineFate::Removed {
                    reason: JournalRemovalReason::ParserSkippedNoSpace,
                    record: None,
                }),
                LineClass::InvalidRecordIdentifier { .. } => fate == (LineFate::Removed {
                    reason: JournalRemovalReason::InvalidRecordIdentifier,
                    record: None,
                }),
                LineClass::Record { record, .. } => {
                    &&& !segments.contains(record.segment) ==> fate == (LineFate::Removed {
                        reason: JournalRemovalReason::MissingSegment,
                        record: Some(record),
                    })
                    &&& segments.contains(record.segment) && boundary is Some && index
                        < boundary->0 ==> fate == (LineFate::Removed {
                        reason: JournalRemovalReason::BeyondRetention,
                        record: Some(record),
                    })
                    &&& segments.contains(record.segment) && (boundary is None || index
                        >= boundary->0) ==> {
                        &&& verdicts[index] == Some(true) ==> fate == (LineFate::Retained {
                            record,
                        })
                        &&& verdicts[index] == Some(false) ==> fate == (LineFate::Removed {
                            reason: JournalRemovalReason::UnreadableRevision,
                            record: Some(record),
                        })
                        &&& verdicts[index] is None ==> fate == (LineFate::Open { record })
                    }
                },
            }
        }),
{
}

/// Where some lines go for one reason.
pub open spec fn gone_for(fates: Seq<LineFate>, wanted: JournalRemovalReason) -> Set<int> {
    Set::new(
        |i: int|
            0 <= i < fates.len() && (fates[i] matches LineFate::Removed { reason, .. } && reason
                == wanted),
    )
}

proof fn lemma_gone_for(fates: Seq<LineFate>, wanted: JournalRemovalReason)
    ensures
        gone_for(fates, wanted).finite(),
        analysis::removed_for(fates, wanted, wanted) == gone_for(fates, wanted).len(),
    decreases fates.len(),
{
    if fates.len() == 0 {
        assert(gone_for(fates, wanted) =~= Set::empty());
    } else {
        let shorter = fates.drop_last();
        let end = fates.len() - 1;
        lemma_gone_for(shorter, wanted);
        if fates[end] matches LineFate::Removed { reason, .. } && reason == wanted {
            assert(gone_for(fates, wanted) =~= gone_for(shorter, wanted).insert(end));
        } else {
            assert(gone_for(fates, wanted) =~= gone_for(shorter, wanted));
        }
    }
}

proof fn lemma_two_reasons(
    fates: Seq<LineFate>,
    first: JournalRemovalReason,
    second: JournalRemovalReason,
)
    requires
        first != second,
    ensures
        analysis::removed_for(fates, first, second) == analysis::removed_for(fates, first, first)
            + analysis::removed_for(fates, second, second),
    decreases fates.len(),
{
    if fates.len() > 0 {
        lemma_two_reasons(fates.drop_last(), first, second);
    }
}

/// A plan counts each line that goes under its own reason; the two kinds of lines
/// that the reader skips count together.
pub proof fn law_removed_lines_count_by_their_reason(
    plan: analysis::JournalPlan,
    lines: Seq<LineView>,
    fates: Seq<LineFate>,
)
    requires
        plan.describes(lines, fates),
    ensures
        plan.parser_ignored == gone_for(fates, JournalRemovalReason::ParserSkippedNoSpace).len()
            + gone_for(fates, JournalRemovalReason::InvalidRecordIdentifier).len(),
        plan.missing_segments == gone_for(fates, JournalRemovalReason::MissingSegment).len(),
        plan.unreadable_revisions == gone_for(
            fates,
            JournalRemovalReason::UnreadableRevision,
        ).len(),
        plan.beyond_retention == gone_for(fates, JournalRemovalReason::BeyondRetention).len(),
        plan.removed_lines == plan.parser_ignored + plan.missing_segments
            + plan.unreadable_revisions + plan.beyond_retention,
{
    lemma_gone_for(fates, JournalRemovalReason::ParserSkippedNoSpace);
    lemma_gone_for(fates, JournalRemovalReason::InvalidRecordIdentifier);
    lemma_gone_for(fates, JournalRemovalReason::MissingSegment);
    lemma_gone_for(fates, JournalRemovalReason::UnreadableRevision);
    lemma_gone_for(fates, JournalRemovalReason::BeyondRetention);
    lemma_two_reasons(
        fates,
        JournalRemovalReason::ParserSkippedNoSpace,
        JournalRemovalReason::InvalidRecordIdentifier,
    );
    lemma_removals(lines, fates);
}

proof fn lemma_removals(lines: Seq<LineView>, fates: Seq<LineFate>)
    ensures
        analysis::removals(lines, fates).len() == analysis::removed_for(
            fates,
            JournalRemovalReason::ParserSkippedNoSpace,
            JournalRemovalReason::InvalidRecordIdentifier,
        ) + analysis::removed_for(
            fates,
            JournalRemovalReason::MissingSegment,
            JournalRemovalReason::MissingSegment,
        ) + analysis::removed_for(
            fates,
            JournalRemovalReason::UnreadableRevision,
            JournalRemovalReason::UnreadableRevision,
        ) + analysis::removed_for(
            fates,
            JournalRemovalReason::BeyondRetention,
            JournalRemovalReason::BeyondRetention,
        ),
    decreases fates.len(),
{
    if fates.len() > 0 {
        lemma_removals(lines, fates.drop_last());
    }
}

/// What is reported of a line that goes is that line: its number counted from one,
/// its reason and its record, and the first bytes of its content as they stand, no
/// more than one hundred and sixty, with a word on whether there are others.
pub proof fn law_a_removed_line_is_reported_as_it_is(
    lines: Seq<LineView>,
    fates: Seq<LineFate>,
    place: int,
)
    requires
        fates.len() <= lines.len(),
        forall|i: int|
            0 <= i < lines.len() ==> (#[trigger] lines[i]).content_length <= lines[i].raw.len(),
        0 <= place < analysis::removals(lines, fates).len(),
    ensures
        ({
            let reported = analysis::removals(lines, fates)[place];
            let index = reported.line_number - 1;
            &&& 0 <= index < fates.len()
            &&& fates[index] == (LineFate::Removed {
                reason: reported.reason,
                record: reported.record_identifier,
            })
            &&& reported.preview.len() <= 160
            &&& reported.preview.len() <= lines[index].content_length
            &&& forall|k: int|
                0 <= k < reported.preview.len() ==> reported.preview[k] == lines[index].raw[k]
            &&& reported.preview_truncated <==> lines[index].content_length > 160
            &&& lines[index].content_length <= 160 ==> reported.preview.len()
                == lines[index].content_length
            &&& lines[index].content_length > 160 ==> reported.preview.len() == 160
        }),
    decreases fates.len(),
{
    let shorter = fates.drop_last();
    let earlier = analysis::removals(lines, shorter);
    if place < earlier.len() {
        law_a_removed_line_is_reported_as_it_is(lines, shorter, place);
        let index = earlier[place].line_number - 1;
        assert(fates[index] == shorter[index]);
    } else {
        let index = fates.len() - 1;
        assert(lines[index].content_length <= lines[index].raw.len());
    }
}

/// The newest line whose segment the store holds is the head of the raw journal.
pub proof fn law_the_newest_resolvable_line_is_the_head(
    lines: Seq<LineView>,
    segments: Set<SegmentIdentifier>,
    index: int,
)
    requires
        0 <= index < lines.len(),
        lines[index].class is Record,
        segments.contains(lines[index].class->record.segment),
        forall|i: int|
            index < i < lines.len() && (#[trigger] lines[i]).class is Record ==> !segments.contains(
                lines[i].class->record.segment,
            ),
    ensures
        analysis::newest_resolved(lines, segments, lines.len()) == Some(
            lines[index].class->record,
        ),
{
    lemma_newest(lines, segments, index, lines.len());
}

proof fn lemma_newest(
    lines: Seq<LineView>,
    segments: Set<SegmentIdentifier>,
    index: int,
    count: nat,
)
    requires
        0 <= index < count <= lines.len(),
        lines[index].class is Record,
        segments.contains(lines[index].class->record.segment),
        forall|i: int|
            index < i < lines.len() && (#[trigger] lines[i]).class is Record ==> !segments.contains(
                lines[i].class->record.segment,
            ),
    ensures
        analysis::newest_resolved(lines, segments, count) == Some(lines[index].class->record),
    decreases count,
{
    if count > index + 1 {
        assert(lines[count - 1].class is Record ==> !segments.contains(
            lines[count - 1].class->record.segment,
        ));
        lemma_newest(lines, segments, index, (count - 1) as nat);
    }
}

/// A journal none of whose lines the store can resolve has no head.
pub proof fn law_an_unresolvable_journal_has_no_head(
    lines: Seq<LineView>,
    segments: Set<SegmentIdentifier>,
    count: nat,
)
    requires
        count <= lines.len(),
        forall|i: int|
            0 <= i < count && (#[trigger] lines[i]).class is Record ==> !segments.contains(
                lines[i].class->record.segment,
            ),
    ensures
        analysis::newest_resolved(lines, segments, count) is None,
    decreases count,
{
    if count > 0 {
        assert(lines[count - 1].class is Record ==> !segments.contains(
            lines[count - 1].class->record.segment,
        ));
        law_an_unresolvable_journal_has_no_head(lines, segments, (count - 1) as nat);
    }
}

/// Whether a line names this record.
pub open spec fn names(line: LineView, wanted: RecordIdentifier) -> bool {
    line.class matches LineClass::Record { record, .. } && record == wanted
}

/// A journal is what a completed copy leaves exactly if it has one line and that
/// line names the head.
pub proof fn law_one_line_naming_the_head_converges(lines: Seq<LineView>, head: RecordIdentifier)
    ensures
        proofs::converges(lines, head) <==> lines.len() == 1 && names(lines[0], head),
{
}

/// How many lines name a record is how many places do.
pub proof fn law_lines_naming_a_record_are_counted(
    lines: Seq<LineView>,
    record: RecordIdentifier,
)
    ensures
        ({
            let places = Set::new(|i: int| 0 <= i < lines.len() && names(lines[i], record));
            &&& places.finite()
            &&& proofs::lines_naming(lines, record) == places.len()
        }),
    decreases lines.len(),
{
    let places = Set::new(|i: int| 0 <= i < lines.len() && names(lines[i], record));
    if lines.len() == 0 {
        assert(places =~= Set::empty());
    } else {
        let shorter = lines.drop_last();
        let end = lines.len() - 1;
        law_lines_naming_a_record_are_counted(shorter, record);
        let earlier = Set::new(|i: int| 0 <= i < shorter.len() && names(shorter[i], record));
        if names(lines[end], record) {
            assert(places =~= earlier.insert(end));
        } else {
            assert(places =~= earlier);
        }
    }
}

proof fn lemma_occurrences_of_part(
    records: Seq<RecordIdentifier>,
    count: int,
    record: RecordIdentifier,
)
    requires
        0 <= count <= records.len(),
    ensures
        proofs::occurrences(records.take(count), record) <= proofs::occurrences(records, record),
    decreases records.len(),
{
    if count < records.len() {
        lemma_occurrences_of_part(records.drop_last(), count, record);
        assert(records.drop_last().take(count) =~= records.take(count));
    } else {
        assert(records.take(count) =~= records);
    }
}

/// A record occurs as often as it has places.
pub proof fn law_occurrences_are_places(
    records: Seq<RecordIdentifier>,
    record: RecordIdentifier,
)
    ensures
        ({
            let places = Set::new(|i: int| 0 <= i < records.len() && records[i] == record);
            &&& places.finite()
            &&& proofs::occurrences(records, record) == places.len()
        }),
    decreases records.len(),
{
    let places = Set::new(|i: int| 0 <= i < records.len() && records[i] == record);
    if records.len() == 0 {
        assert(places =~= Set::empty());
    } else {
        let shorter = records.drop_last();
        let end = records.len() - 1;
        law_occurrences_are_places(shorter, record);
        let earlier = Set::new(|i: int| 0 <= i < shorter.len() && shorter[i] == record);
        if records[end] == record {
            assert(places =~= earlier.insert(end));
        } else {
            assert(places =~= earlier);
        }
    }
}

proof fn lemma_last_occurrence(
    expected: Seq<RecordIdentifier>,
    record: RecordIdentifier,
) -> (position: int)
    requires
        proofs::occurrences(expected, record) > 0,
    ensures
        0 <= position < expected.len(),
        expected[position] == record,
        proofs::occurrences(expected.take(position + 1), record) == proofs::occurrences(
            expected,
            record,
        ),
    decreases expected.len(),
{
    let end = expected.len() - 1;
    if expected.last() == record {
        assert(expected.take(end + 1) =~= expected);
        end
    } else {
        let position = lemma_last_occurrence(expected.drop_last(), record);
        assert(expected.drop_last().take(position + 1) =~= expected.take(position + 1));
        position
    }
}

/// No root is lost exactly if every root is still there as often as it was expected.
pub proof fn law_no_root_is_lost_exactly_if_all_occur_as_often(
    expected: Seq<RecordIdentifier>,
    actual: Seq<RecordIdentifier>,
)
    ensures
        (forall|i: int|
            0 <= i < expected.len() ==> !#[trigger] proofs::root_is_lost(expected, actual, i))
            <==> (forall|record: RecordIdentifier| #[trigger]
            proofs::occurrences(expected, record) <= proofs::occurrences(actual, record)),
{
    if forall|i: int|
        0 <= i < expected.len() ==> !#[trigger] proofs::root_is_lost(expected, actual, i) {
        assert forall|record: RecordIdentifier| #[trigger]
            proofs::occurrences(expected, record) <= proofs::occurrences(actual, record) by {
            if proofs::occurrences(expected, record) > 0 {
                let position = lemma_last_occurrence(expected, record);
                assert(!proofs::root_is_lost(expected, actual, position));
            }
        }
    }
    if forall|record: RecordIdentifier| #[trigger]
        proofs::occurrences(expected, record) <= proofs::occurrences(actual, record) {
        assert forall|i: int| 0 <= i < expected.len() implies !#[trigger] proofs::root_is_lost(
            expected,
            actual,
            i,
        ) by {
            lemma_occurrences_of_part(expected, i + 1, expected[i]);
            assert(proofs::occurrences(expected, expected[i]) <= proofs::occurrences(
                actual,
                expected[i],
            ));
        }
    }
}

/// A line counts as the expected one exactly if it has the same bytes, but for one
/// line feed more where the expected one ended in neither a line feed nor a carriage
/// return.
pub proof fn law_one_line_feed_may_be_added(expected: Seq<u8>, actual: Seq<u8>)
    ensures
        proofs::line_matches(expected, actual) <==> {
            ||| actual == expected
            ||| (expected.len() == 0 || expected.last() != 10 && expected.last() != 13) && actual
                == expected + seq![10u8]
        },
{
    assert(expected.push(10u8) =~= expected + seq![10u8]);
}

/// A selection of lines is sound exactly if each index is one of the journal's, of a
/// record, and given once.
pub proof fn law_a_sound_selection_names_records_once(lines: Seq<LineView>, indexes: Seq<usize>)
    ensures
        (forall|i: int|
            0 <= i < indexes.len() ==> #[trigger] rewrite::fault_at(lines, indexes, i) is None)
            <==> {
            &&& forall|i: int|
                0 <= i < indexes.len() ==> (#[trigger] indexes[i]) < lines.len()
                    && lines[indexes[i] as int].class is Record
            &&& forall|i: int, j: int|
                0 <= i < j < indexes.len() ==> #[trigger] indexes[i] != #[trigger] indexes[j]
        },
{
    if forall|i: int|
        0 <= i < indexes.len() ==> #[trigger] rewrite::fault_at(lines, indexes, i) is None {
        assert forall|i: int| 0 <= i < indexes.len() implies (#[trigger] indexes[i]) < lines.len()
            && lines[indexes[i] as int].class is Record by {
            assert(rewrite::fault_at(lines, indexes, i) is None);
        }
        assert forall|i: int, j: int|
            0 <= i < j < indexes.len() implies #[trigger] indexes[i] != #[trigger] indexes[j] by {
            assert(rewrite::fault_at(lines, indexes, j) is None);
            assert(indexes.take(j)[i] == indexes[i]);
        }
    }
    if (forall|i: int|
        0 <= i < indexes.len() ==> (#[trigger] indexes[i]) < lines.len()
            && lines[indexes[i] as int].class is Record) && (forall|i: int, j: int|
        0 <= i < j < indexes.len() ==> #[trigger] indexes[i] != #[trigger] indexes[j]) {
        assert forall|i: int|
            0 <= i < indexes.len() implies #[trigger] rewrite::fault_at(
            lines,
            indexes,
            i,
        ) is None by {
            assert(indexes[i] < lines.len());
            if indexes.take(i).contains(indexes[i]) {
                let j = choose|j: int| 0 <= j < i && indexes.take(i)[j] == indexes[i];
                assert(indexes[j] == indexes[i]);
            }
        }
    }
}

proof fn lemma_field(content: Seq<u8>, length: int)
    requires
        0 <= length <= content.len(),
        forall|i: int| 0 <= i < length ==> content[i] != 32,
        length == content.len() || content[length] == 32,
    ensures
        scan::field_length(content) == length,
    decreases length,
{
    if length > 0 {
        assert(content[0] != 32);
        lemma_field(content.drop_first(), length - 1);
    }
}

/// A line without a space has no fields, and is skipped.
pub proof fn law_a_line_without_a_space_is_skipped(content: Seq<u8>)
    requires
        forall|i: int| 0 <= i < content.len() ==> content[i] != 32,
    ensures
        scan::classified(content) == LineClass::ParserSkippedNoSpace,
{
    lemma_field(content, content.len() as int);
}

/// What comes before the first space is the revision; where it names no record the
/// line is no record either.
pub proof fn law_the_revision_comes_before_the_first_space(content: Seq<u8>, space: int)
    requires
        0 <= space < content.len(),
        content[space] == 32,
        forall|i: int| 0 <= i < space ==> content[i] != 32,
    ensures
        match scan::record_named(content.take(space)) {
            None => scan::classified(content) == (LineClass::InvalidRecordIdentifier {
                revision_text: content.take(space),
            }),
            Some(named) => scan::classified(content) matches LineClass::Record {
                record,
                revision_text,
                ..
            } && record == named && revision_text == content.take(space),
        },
{
    lemma_field(content, space);
}

/// A record line with one space has a tag and no timestamp.
pub proof fn law_the_tag_comes_behind_the_first_space(content: Seq<u8>, space: int)
    requires
        0 <= space < content.len(),
        content[space] == 32,
        forall|i: int| 0 <= i < content.len() && i != space ==> content[i] != 32,
        scan::record_named(content.take(space)) is Some,
    ensures
        scan::classified(content) matches LineClass::Record { tag, timestamp, .. } && tag
            == content.skip(space + 1) && timestamp == TimestampView::Missing,
{
    lemma_field(content, space);
    let rest = content.skip(space + 1);
    assert forall|i: int| 0 <= i < rest.len() implies rest[i] != 32 by {
        assert(rest[i] == content[space + 1 + i]);
    }
    lemma_field(rest, rest.len() as int);
    assert(rest.take(rest.len() as int) =~= rest);
}

/// The third field of a record line, up to the next space or to its end, is its
/// timestamp: a signed number, or malformed.
pub proof fn law_the_third_field_is_the_timestamp(
    content: Seq<u8>,
    first: int,
    second: int,
    end: int,
)
    requires
        0 <= first < second < end <= content.len(),
        content[first] == 32,
        content[second] == 32,
        end == content.len() || content[end] == 32,
        forall|i: int| 0 <= i < end && i != first && i != second ==> content[i] != 32,
        scan::record_named(content.take(first)) is Some,
    ensures
        scan::classified(content) matches LineClass::Record { tag, timestamp, .. } && tag
            == content.subrange(first + 1, second) && timestamp == match number::signed_value(
            content.subrange(second + 1, end),
        ) {
            Some(value) => TimestampView::Milliseconds {
                raw: content.subrange(second + 1, end),
                value,
            },
            None => TimestampView::Malformed { raw: content.subrange(second + 1, end) },
        },
{
    lemma_field(content, first);
    let rest = content.skip(first + 1);
    let length = second - first - 1;
    assert forall|i: int| 0 <= i < length implies rest[i] != 32 by {
        assert(rest[i] == content[first + 1 + i]);
    }
    assert(rest[length] == content[second]);
    lemma_field(rest, length);
    assert(rest.take(length) =~= content.subrange(first + 1, second));
    let last = rest.skip(length + 1);
    let width = end - second - 1;
    assert forall|i: int| 0 <= i < width implies last[i] != 32 by {
        assert(last[i] == content[second + 1 + i]);
    }
    if end < content.len() {
        assert(last[width] == content[end]);
    } else {
        assert(last.len() == width);
    }
    lemma_field(last, width);
    assert(last.take(width) =~= content.subrange(second + 1, end));
}

/// A carriage return and the line feed behind it end one line: no line starts with
/// a line feed that such a carriage return left over.
pub proof fn law_a_carriage_return_takes_its_line_feed(source: Seq<u8>, index: int)
    requires
        0 <= index,
        index + 1 < scan::physical_lines(source).len(),
        scan::physical_lines(source)[index].raw.last() == 13,
    ensures
        scan::physical_lines(source)[index + 1].raw[0] != 10,
    decreases source.len(),
{
    scan::lemma_line_length(source);
    let length = scan::line_length(source) as int;
    let rest = source.skip(length);
    let lines = scan::physical_lines(source);
    let others = scan::physical_lines(rest);
    assert(lines =~= seq![scan::first_line(source)] + others);
    if index == 0 {
        assert(lines[1] == others[0]);
        scan::lemma_line_length(rest);
        assert(others[0] == scan::first_line(rest));
        assert(others[0].raw[0] == rest[0]);
        let start = scan::content_length(source) as int;
        let tail = source.skip(start);
        assert(lines[0].raw.last() == source[length - 1]);
        if rest[0] == 10 {
            assert(source[length] == 10);
            assert(tail[0] == source[start]);
            if start + 1 < source.len() {
                assert(tail[1] == source[start + 1]);
            }
        }
    } else {
        assert(lines[index] == others[index - 1]);
        assert(lines[index + 1] == others[index]);
        law_a_carriage_return_takes_its_line_feed(rest, index - 1);
    }
}

} // verus!
