//! Classifying journal lines: which resolve, which are stale, and where the
//! retention boundary falls.
//!
//! Whether a revision's tree reads is established outside, one revision at a
//! time: an analysis that needs a verdict it has not been given names the
//! revision and stops, and is repeated once the verdict is recorded.
use vstd::prelude::*;
use vstd::slice::*;
use vstd::string::*;
use crate::error::{refusal, Error};
use crate::identifier::{holds_record, RecordIdentifier, SegmentIdentifier, SegmentSet};
use crate::journal::scan;
use crate::journal::scan::{
    LineClass, LineView, RawJournal, RawJournalLine, RawJournalLineClassification,
};
use crate::plan;
use crate::plan::{JournalLineRemoval, JournalRemovalReason, RemovalView};

verus! {

/// How many bytes of a removed line a plan shows.
pub const JOURNAL_LINE_PREVIEW_LIMIT: usize = 160;

/// What becomes of one physical line.
#[allow(inconsistent_fields)]
pub enum LineFate {
    /// It leaves the journal.
    Removed { reason: JournalRemovalReason, record: Option<RecordIdentifier> },
    /// It stays, byte for byte.
    Retained { record: RecordIdentifier },
    /// It names a revision whose verdict is still open.
    Open { record: RecordIdentifier },
}

/// The record that a line names.
pub open spec fn named_record(line: LineView) -> Option<RecordIdentifier> {
    match line.class {
        LineClass::Record { record, .. } => Some(record),
        _ => None,
    }
}

/// The record that a line names, when its segment exists.
pub open spec fn resolved_record(
    line: LineView,
    segments: Set<SegmentIdentifier>,
) -> Option<RecordIdentifier> {
    match named_record(line) {
        Some(record) => if segments.contains(record.segment) {
            Some(record)
        } else {
            None
        },
        None => None,
    }
}

/// The newest record among the first `count` lines whose segment exists.
pub open spec fn newest_resolved(
    lines: Seq<LineView>,
    segments: Set<SegmentIdentifier>,
    count: nat,
) -> Option<RecordIdentifier>
    decreases count,
{
    if count == 0 {
        None
    } else {
        match resolved_record(lines[count - 1], segments) {
            Some(record) => Some(record),
            None => newest_resolved(lines, segments, (count - 1) as nat),
        }
    }
}

/// Whether a line names a revision that is known to read.
pub open spec fn is_readable(
    lines: Seq<LineView>,
    segments: Set<SegmentIdentifier>,
    verdicts: Seq<Option<bool>>,
    index: int,
) -> bool {
    resolved_record(lines[index], segments) is Some && verdicts[index] == Some(true)
}

/// How many lines from `start` on name a revision that is known to read.
pub open spec fn readable_from(
    lines: Seq<LineView>,
    segments: Set<SegmentIdentifier>,
    verdicts: Seq<Option<bool>>,
    start: int,
) -> nat
    decreases lines.len() - start,
{
    if start >= lines.len() || start < 0 {
        0
    } else {
        readable_from(lines, segments, verdicts, start + 1) + if is_readable(
            lines,
            segments,
            verdicts,
            start,
        ) {
            1nat
        } else {
            0nat
        }
    }
}

/// Whether a line's revision resolves but has no verdict yet.
pub open spec fn is_open(
    lines: Seq<LineView>,
    segments: Set<SegmentIdentifier>,
    verdicts: Seq<Option<bool>>,
    index: int,
) -> bool {
    resolved_record(lines[index], segments) is Some && verdicts[index] is None
}

/// Where the retention boundary falls: the line with which the newest
/// `retention` readable revisions are complete.
pub open spec fn is_boundary(
    lines: Seq<LineView>,
    segments: Set<SegmentIdentifier>,
    verdicts: Seq<Option<bool>>,
    retention: nat,
    boundary: Option<int>,
) -> bool {
    match boundary {
        Some(index) => {
            &&& 0 <= index < lines.len()
            &&& is_readable(lines, segments, verdicts, index)
            &&& readable_from(lines, segments, verdicts, index) == retention
            &&& forall|i: int|
                index <= i < lines.len() ==> !#[trigger] is_open(lines, segments, verdicts, i)
        },
        None => {
            &&& readable_from(lines, segments, verdicts, 0) < retention
            &&& forall|i: int|
                0 <= i < lines.len() ==> !#[trigger] is_open(lines, segments, verdicts, i)
        },
    }
}

/// Where a search for the boundary stops for want of an answer: at the newest
/// open line, with fewer readable revisions after it than the bound asks for.
pub open spec fn stops_at(
    lines: Seq<LineView>,
    segments: Set<SegmentIdentifier>,
    verdicts: Seq<Option<bool>>,
    retention: nat,
    index: int,
) -> bool {
    &&& 0 <= index < lines.len()
    &&& is_open(lines, segments, verdicts, index)
    &&& readable_from(lines, segments, verdicts, index) < retention
    &&& forall|i: int|
        index < i < lines.len() ==> !#[trigger] is_open(lines, segments, verdicts, i)
}

/// What becomes of a line, given where the retention boundary falls.
pub open spec fn fate(
    line: LineView,
    segments: Set<SegmentIdentifier>,
    verdict: Option<bool>,
    before_boundary: bool,
) -> LineFate {
    match line.class {
        LineClass::ParserSkippedNoSpace => LineFate::Removed {
            reason: JournalRemovalReason::ParserSkippedNoSpace,
            record: None,
        },
        LineClass::InvalidRecordIdentifier { .. } => LineFate::Removed {
            reason: JournalRemovalReason::InvalidRecordIdentifier,
            record: None,
        },
        LineClass::Record { record, .. } => if !segments.contains(record.segment) {
            LineFate::Removed {
                reason: JournalRemovalReason::MissingSegment,
                record: Some(record),
            }
        } else if before_boundary {
            LineFate::Removed {
                reason: JournalRemovalReason::BeyondRetention,
                record: Some(record),
            }
        } else {
            match verdict {
                Some(true) => LineFate::Retained { record },
                Some(false) => LineFate::Removed {
                    reason: JournalRemovalReason::UnreadableRevision,
                    record: Some(record),
                },
                None => LineFate::Open { record },
            }
        },
    }
}

/// What becomes of each line.
pub open spec fn fates(
    lines: Seq<LineView>,
    segments: Set<SegmentIdentifier>,
    verdicts: Seq<Option<bool>>,
    boundary: Option<int>,
) -> Seq<LineFate> {
    Seq::new(
        lines.len(),
        |index: int|
            fate(
                lines[index],
                segments,
                verdicts[index],
                boundary is Some && index < boundary->0,
            ),
    )
}

/// The indexes of the retained lines, in file order.
pub open spec fn retained_indexes(fates: Seq<LineFate>) -> Seq<usize>
    decreases fates.len(),
{
    if fates.len() == 0 {
        Seq::empty()
    } else {
        let earlier = retained_indexes(fates.drop_last());
        if fates.last() is Retained {
            earlier.push((fates.len() - 1) as usize)
        } else {
            earlier
        }
    }
}

/// The records that the retained lines name, in file order.
pub open spec fn retained_records(fates: Seq<LineFate>) -> Seq<RecordIdentifier>
    decreases fates.len(),
{
    if fates.len() == 0 {
        Seq::empty()
    } else {
        let earlier = retained_records(fates.drop_last());
        match fates.last() {
            LineFate::Retained { record } => earlier.push(record),
            _ => earlier,
        }
    }
}

/// The bytes of the retained lines, in file order.
pub open spec fn retained_lines(lines: Seq<LineView>, fates: Seq<LineFate>) -> Seq<Seq<u8>>
    decreases fates.len(),
{
    if fates.len() == 0 {
        Seq::empty()
    } else {
        let earlier = retained_lines(lines, fates.drop_last());
        if fates.last() is Retained {
            earlier.push(lines[fates.len() - 1].raw)
        } else {
            earlier
        }
    }
}

/// How the removal of a line is reported.
pub open spec fn removal(
    index: int,
    line: LineView,
    record: Option<RecordIdentifier>,
    reason: JournalRemovalReason,
) -> RemovalView {
    let content = line.raw.take(line.content_length as int);
    let shown = if content.len() < JOURNAL_LINE_PREVIEW_LIMIT {
        content.len() as int
    } else {
        JOURNAL_LINE_PREVIEW_LIMIT as int
    };
    RemovalView {
        line_number: (index + 1) as nat,
        record_identifier: record,
        reason,
        preview: content.take(shown),
        preview_truncated: content.len() > JOURNAL_LINE_PREVIEW_LIMIT,
    }
}

/// How the removals are reported, in file order.
pub open spec fn removals(lines: Seq<LineView>, fates: Seq<LineFate>) -> Seq<RemovalView>
    decreases fates.len(),
{
    if fates.len() == 0 {
        Seq::empty()
    } else {
        let earlier = removals(lines, fates.drop_last());
        match fates.last() {
            LineFate::Removed { reason, record } => earlier.push(
                removal(fates.len() - 1, lines[fates.len() - 1], record, reason),
            ),
            _ => earlier,
        }
    }
}

/// How many lines leave for one of two reasons.
pub open spec fn removed_for(
    fates: Seq<LineFate>,
    first: JournalRemovalReason,
    second: JournalRemovalReason,
) -> nat
    decreases fates.len(),
{
    if fates.len() == 0 {
        0
    } else {
        removed_for(fates.drop_last(), first, second) + match fates.last() {
            LineFate::Removed { reason, .. } => if reason == first || reason == second {
                1nat
            } else {
                0nat
            },
            _ => 0nat,
        }
    }
}

/// Whether the index names the oldest line that is still open.
pub open spec fn is_first_open(fates: Seq<LineFate>, index: int) -> bool {
    &&& 0 <= index < fates.len()
    &&& fates[index] is Open
    &&& forall|i: int| 0 <= i < index ==> !(#[trigger] fates[i] is Open)
}

/// Whether a pass over the lines waits for the verdict on a record: the oldest
/// open line names it.
pub open spec fn pass_awaits(fates: Seq<LineFate>, record: RecordIdentifier) -> bool {
    exists|index: int| #[trigger]
        is_first_open(fates, index) && fates[index] == (LineFate::Open { record })
}

/// Whether a search for the boundary waits for the verdict on a record.
pub open spec fn search_awaits(
    lines: Seq<LineView>,
    segments: Set<SegmentIdentifier>,
    verdicts: Seq<Option<bool>>,
    retention: nat,
    record: RecordIdentifier,
) -> bool {
    exists|index: int| #[trigger]
        stops_at(lines, segments, verdicts, retention, index) && named_record(lines[index])
            == Some(record)
}

/// A line index as a position.
pub open spec fn position(index: Option<usize>) -> Option<int> {
    match index {
        Some(index) => Some(index as int),
        None => None,
    }
}

/// A retention bound as a count.
pub open spec fn bound(retention: Option<usize>) -> Option<nat> {
    match retention {
        Some(revisions) => Some(revisions as nat),
        None => None,
    }
}

/// Whether no line is still open.
pub open spec fn all_decided(fates: Seq<LineFate>) -> bool {
    forall|i: int| 0 <= i < fates.len() ==> !(#[trigger] fates[i] is Open)
}

/// What is known of the revisions that a journal's lines name: one verdict per
/// physical line, the same for all lines that name the same revision.
#[derive(Debug)]
pub struct RevisionVerdicts {
    slots: Vec<Option<bool>>,
}

impl RevisionVerdicts {
    /// The verdict of each line.
    pub closed spec fn listed(&self) -> Seq<Option<bool>> {
        self.slots@
    }

    /// There is one slot per line, and lines that name the same revision have
    /// the same verdict.
    pub open spec fn well_formed(&self, lines: Seq<LineView>) -> bool {
        &&& self.listed().len() == lines.len()
        &&& forall|i: int, j: int|
            0 <= i < lines.len() && 0 <= j < lines.len() && named_record(#[trigger] lines[i])
                is Some && named_record(lines[i]) == named_record(#[trigger] lines[j])
                ==> self.listed()[i] == self.listed()[j]
    }

    /// The verdicts before any revision was walked: only the current head, whose
    /// tree was verified before, is known to read.
    pub fn for_journal(raw: &RawJournal, current_head: RecordIdentifier) -> (verdicts: Self)
        ensures
            verdicts.well_formed(raw.listed()),
            forall|i: int|
                0 <= i < raw.listed().len() ==> #[trigger] verdicts.listed()[i] == if named_record(
                    raw.listed()[i],
                ) == Some(current_head) {
                    Some(true)
                } else {
                    None::<bool>
                },
    {
        let lines = raw.lines();
        let ghost views = raw.listed();
        let mut slots: Vec<Option<bool>> = Vec::new();
        let mut index: usize = 0;
        while index < lines.len()
            invariant
                index <= lines@.len(),
                views == scan::line_views(lines@),
                slots@.len() == index,
                forall|i: int|
                    0 <= i < index ==> #[trigger] slots@[i] == if named_record(views[i]) == Some(
                        current_head,
                    ) {
                        Some(true)
                    } else {
                        None::<bool>
                    },
            decreases lines@.len() - index,
        {
            assert(views[index as int] == lines@[index as int]@);
            if names_record(&lines[index], current_head) {
                slots.push(Some(true));
            } else {
                slots.push(None);
            }
            index = index + 1;
        }
        RevisionVerdicts { slots }
    }

    /// Records whether a revision's whole tree reads.
    pub fn record(&mut self, raw: &RawJournal, revision: RecordIdentifier, readable: bool)
        requires
            old(self).well_formed(raw.listed()),
        ensures
            final(self).well_formed(raw.listed()),
            forall|i: int|
                0 <= i < raw.listed().len() ==> #[trigger] final(self).listed()[i]
                    == if named_record(raw.listed()[i]) == Some(revision) {
                    Some(readable)
                } else {
                    old(self).listed()[i]
                },
    {
        let lines = raw.lines();
        let ghost views = raw.listed();
        let ghost before = self.slots@;
        let mut index: usize = 0;
        while index < lines.len()
            invariant
                index <= lines@.len(),
                views == scan::line_views(lines@),
                self.slots@.len() == views.len(),
                before.len() == views.len(),
                forall|i: int|
                    0 <= i < views.len() ==> #[trigger] self.slots@[i] == if i < index
                        && named_record(views[i]) == Some(revision) {
                        Some(readable)
                    } else {
                        before[i]
                    },
            decreases lines@.len() - index,
        {
            assert(views[index as int] == lines@[index as int]@);
            if names_record(&lines[index], revision) {
                self.slots.set(index, Some(readable));
            }
            index = index + 1;
        }
        assert forall|i: int, j: int|
            0 <= i < views.len() && 0 <= j < views.len() && named_record(#[trigger] views[i])
                is Some && named_record(views[i]) == named_record(
                #[trigger] views[j],
            ) implies self.listed()[i] == self.listed()[j] by {
            assert(before[i] == before[j]);
            assert(self.slots@[i] == self.slots@[j]);
        }
    }
}

fn names_record(line: &RawJournalLine, record: RecordIdentifier) -> (names: bool)
    ensures
        names == (named_record(line@) == Some(record)),
{
    match line.classification() {
        RawJournalLineClassification::Record(named) => named.record_identifier == record,
        _ => false,
    }
}

fn record_of(line: &RawJournalLine) -> (record: Option<RecordIdentifier>)
    ensures
        record == named_record(line@),
{
    match line.classification() {
        RawJournalLineClassification::Record(named) => Some(named.record_identifier),
        _ => None,
    }
}

/// What a run learned from one pass over the journal: which lines survive,
/// which go, and why each one goes.
#[derive(Debug)]
pub struct JournalTally {
    /// Lines that the tolerant reader already skips.
    pub parser_ignored: usize,
    /// Record lines whose segment is absent.
    pub missing_segments: usize,
    /// Record lines whose revision does not fully traverse.
    pub unreadable_revisions: usize,
    /// Record lines older than the retention bound.
    pub beyond_retention: usize,
    /// The removed lines, in file order.
    pub removals: Vec<JournalLineRemoval>,
    /// The indexes of the retained lines, in file order.
    pub retained_indexes: Vec<usize>,
    /// The records that the retained lines name, in file order.
    pub retained_record_ids: Vec<RecordIdentifier>,
}

impl JournalTally {
    /// Whether the tally is that of these fates.
    pub open spec fn counts(&self, lines: Seq<LineView>, fates: Seq<LineFate>) -> bool {
        &&& self.parser_ignored == removed_for(
            fates,
            JournalRemovalReason::ParserSkippedNoSpace,
            JournalRemovalReason::InvalidRecordIdentifier,
        )
        &&& self.missing_segments == removed_for(
            fates,
            JournalRemovalReason::MissingSegment,
            JournalRemovalReason::MissingSegment,
        )
        &&& self.unreadable_revisions == removed_for(
            fates,
            JournalRemovalReason::UnreadableRevision,
            JournalRemovalReason::UnreadableRevision,
        )
        &&& self.beyond_retention == removed_for(
            fates,
            JournalRemovalReason::BeyondRetention,
            JournalRemovalReason::BeyondRetention,
        )
        &&& plan::removal_views(self.removals@) == removals(lines, fates)
        &&& self.retained_indexes@ == retained_indexes(fates)
        &&& self.retained_record_ids@ == retained_records(fates)
    }
}

/// What a run keeps and removes of the journal.
#[derive(Debug)]
pub struct JournalPlan {
    /// The records that the retained lines name, in file order.
    pub retained_record_ids: Vec<RecordIdentifier>,
    /// The retained lines, byte for byte, in file order.
    pub retained_raw_lines: Vec<Vec<u8>>,
    /// The removed lines, in file order.
    pub removals: Vec<JournalLineRemoval>,
    /// How many lines go.
    pub removed_lines: usize,
    /// Lines that the tolerant reader already skips.
    pub parser_ignored: usize,
    /// Record lines whose segment is absent.
    pub missing_segments: usize,
    /// Record lines whose revision does not fully traverse.
    pub unreadable_revisions: usize,
    /// Record lines older than the retention bound.
    pub beyond_retention: usize,
}

/// The bytes of each item of a list.
pub open spec fn byte_views(lines: Seq<Vec<u8>>) -> Seq<Seq<u8>> {
    lines.map_values(|line: Vec<u8>| line@)
}

impl JournalPlan {
    /// Whether the plan is that of these fates.
    pub open spec fn describes(&self, lines: Seq<LineView>, fates: Seq<LineFate>) -> bool {
        &&& self.retained_record_ids@ == retained_records(fates)
        &&& byte_views(self.retained_raw_lines@) == retained_lines(lines, fates)
        &&& plan::removal_views(self.removals@) == removals(lines, fates)
        &&& self.removed_lines == removals(lines, fates).len()
        &&& self.parser_ignored == removed_for(
            fates,
            JournalRemovalReason::ParserSkippedNoSpace,
            JournalRemovalReason::InvalidRecordIdentifier,
        )
        &&& self.missing_segments == removed_for(
            fates,
            JournalRemovalReason::MissingSegment,
            JournalRemovalReason::MissingSegment,
        )
        &&& self.unreadable_revisions == removed_for(
            fates,
            JournalRemovalReason::UnreadableRevision,
            JournalRemovalReason::UnreadableRevision,
        )
        &&& self.beyond_retention == removed_for(
            fates,
            JournalRemovalReason::BeyondRetention,
            JournalRemovalReason::BeyondRetention,
        )
    }
}

/// A plan of the journal, with the lines it keeps.
#[derive(Debug)]
pub struct JournalAnalysis {
    /// What the run keeps and removes.
    pub plan: JournalPlan,
    /// The indexes of the retained lines, in file order.
    pub retained_indexes: Vec<usize>,
    /// The records that the retained lines name, in file order.
    pub retained_record_ids: Vec<RecordIdentifier>,
}

impl JournalAnalysis {
    /// Whether the analysis is that of these fates.
    pub open spec fn describes(&self, lines: Seq<LineView>, fates: Seq<LineFate>) -> bool {
        &&& self.plan.describes(lines, fates)
        &&& self.retained_indexes@ == retained_indexes(fates)
        &&& self.retained_record_ids@ == retained_records(fates)
    }
}

/// What a search for the retention boundary came to.
#[derive(Debug)]
pub enum BoundarySearch {
    /// The verdict on this revision is needed first.
    NeedsVerdict(RecordIdentifier),
    /// The first line index within the newest revisions that the bound keeps,
    /// when there are as many.
    Boundary(Option<usize>),
}

/// What a pass over the lines came to.
#[derive(Debug)]
pub enum Classification {
    /// The verdict on this revision is needed first.
    NeedsVerdict(RecordIdentifier),
    /// Every line is decided.
    Tally(JournalTally),
}

/// What an analysis came to.
#[derive(Debug)]
pub enum AnalysisStep {
    /// The verdict on this revision is needed first.
    NeedsVerdict(RecordIdentifier),
    /// Every line is decided.
    Complete(JournalAnalysis),
}

/// Reports the removal of one line.
pub fn journal_line_removal(
    index: usize,
    line: &RawJournalLine,
    record_identifier: Option<RecordIdentifier>,
    reason: JournalRemovalReason,
) -> (reported: JournalLineRemoval)
    requires
        index < usize::MAX,
        line@.content_length <= line@.raw.len(),
    ensures
        reported@ == removal(index as int, line@, record_identifier, reason),
{
    let content = line.content_bytes();
    let preview_length = if content.len() < JOURNAL_LINE_PREVIEW_LIMIT {
        content.len()
    } else {
        JOURNAL_LINE_PREVIEW_LIMIT
    };
    assert(content@.subrange(0, preview_length as int) =~= content@.take(preview_length as int));
    let preview = slice_to_vec(slice_subrange(content, 0, preview_length));
    JournalLineRemoval::new(
        index + 1,
        record_identifier,
        reason,
        preview,
        preview_length != content.len(),
    )
}

/// What an operator reads when the journal and the repository reader disagree.
pub open spec fn disagreement_text(
    selected: RecordIdentifier,
    current_head: RecordIdentifier,
) -> Seq<char> {
    "raw journal selected "@ + selected.text() + ", but the repository reader selected "@
        + current_head.text()
}

/// The raw journal's own newest resolvable record must be the head that the
/// repository reader selected; disagreement means one of the two is reading a
/// store the other is not.
pub fn reject_head_disagreement(
    raw: &RawJournal,
    segments: &SegmentSet,
    current_head: RecordIdentifier,
) -> (checked: Result<(), Error>)
    requires
        segments.well_formed(),
    ensures
        match newest_resolved(raw.listed(), segments.listed().to_set(), raw.listed().len()) {
            None => checked matches Err(error) && error.refuses(
                "no raw journal record references an existing segment"@,
            ),
            Some(selected) => if selected == current_head {
                checked is Ok
            } else {
                checked matches Err(error) && error.refuses(
                    disagreement_text(selected, current_head),
                )
            },
        },
{
    let lines = raw.lines();
    let ghost views = raw.listed();
    let ghost known = segments.listed().to_set();
    let mut count: usize = lines.len();
    while count > 0
        invariant
            count <= lines@.len(),
            views == scan::line_views(lines@),
            segments.well_formed(),
            known == segments.listed().to_set(),
            newest_resolved(views, known, count as nat) == newest_resolved(
                views,
                known,
                views.len(),
            ),
            views == raw.listed(),
        decreases count,
    {
        assert(views[count - 1] == lines@[count - 1]@);
        match record_of(&lines[count - 1]) {
            Some(record) => {
                if segments.contains(record.segment) {
                    if record == current_head {
                        return Ok(());
                    }
                    let mut details = String::from_str("raw journal selected ");
                    record.push_text(&mut details);
                    details.append(", but the repository reader selected ");
                    current_head.push_text(&mut details);
                    assert(details@ =~= disagreement_text(record, current_head));
                    return Err(Error::InvalidFormat { details });
                }
            },
            None => {},
        }
        count = count - 1;
    }
    Err(refusal("no raw journal record references an existing segment"))
}

/// Finds the first line index within the newest `retention` readable
/// revisions.
///
/// Only revisions that actually read fill a slot. A line older than the bound
/// is never asked about: it goes whether or not its tree reads.
pub fn journal_retention_boundary(
    raw: &RawJournal,
    segments: &SegmentSet,
    verdicts: &RevisionVerdicts,
    retention: usize,
) -> (search: BoundarySearch)
    requires
        segments.well_formed(),
        verdicts.well_formed(raw.listed()),
        retention > 0,
    ensures
        match search {
            BoundarySearch::NeedsVerdict(record) => search_awaits(
                raw.listed(),
                segments.listed().to_set(),
                verdicts.listed(),
                retention as nat,
                record,
            ),
            BoundarySearch::Boundary(boundary) => is_boundary(
                raw.listed(),
                segments.listed().to_set(),
                verdicts.listed(),
                retention as nat,
                position(boundary),
            ),
        },
{
    let lines = raw.lines();
    let ghost views = raw.listed();
    let ghost known = segments.listed().to_set();
    let ghost slots = verdicts.listed();
    let mut remaining: usize = retention;
    let mut start: usize = lines.len();
    while start > 0
        invariant
            start <= lines@.len(),
            views == scan::line_views(lines@),
            views == raw.listed(),
            segments.well_formed(),
            known == segments.listed().to_set(),
            slots == verdicts.listed(),
            slots.len() == views.len(),
            0 < remaining <= retention,
            readable_from(views, known, slots, start as int) == retention - remaining,
            forall|i: int| start <= i < views.len() ==> !#[trigger] is_open(views, known, slots, i),
        decreases start,
    {
        let index = start - 1;
        assert(views[index as int] == lines@[index as int]@);
        match record_of(&lines[index]) {
            Some(record) => {
                if segments.contains(record.segment) {
                    match verdicts.slots[index] {
                        None => {
                            assert(stops_at(views, known, slots, retention as nat, index as int));
                            return BoundarySearch::NeedsVerdict(record);
                        },
                        Some(readable) => {
                            if readable {
                                assert(is_readable(views, known, slots, index as int));
                                if remaining == 1 {
                                    assert(readable_from(views, known, slots, index as int)
                                        == retention);
                                    return BoundarySearch::Boundary(Some(index));
                                }
                                remaining = remaining - 1;
                            }
                        },
                    }
                }
            },
            None => {},
        }
        start = index;
    }
    BoundarySearch::Boundary(None)
}

proof fn lemma_counts_fit(lines: Seq<LineView>, fates: Seq<LineFate>)
    ensures
        removed_for(
            fates,
            JournalRemovalReason::ParserSkippedNoSpace,
            JournalRemovalReason::InvalidRecordIdentifier,
        ) + removed_for(
            fates,
            JournalRemovalReason::MissingSegment,
            JournalRemovalReason::MissingSegment,
        ) + removed_for(
            fates,
            JournalRemovalReason::UnreadableRevision,
            JournalRemovalReason::UnreadableRevision,
        ) + removed_for(
            fates,
            JournalRemovalReason::BeyondRetention,
            JournalRemovalReason::BeyondRetention,
        ) == removals(lines, fates).len(),
        removals(lines, fates).len() + retained_records(fates).len() <= fates.len(),
        all_decided(fates) ==> removals(lines, fates).len() + retained_records(fates).len()
            == fates.len(),
        retained_indexes(fates).len() == retained_records(fates).len(),
        retained_lines(lines, fates).len() == retained_records(fates).len(),
    decreases fates.len(),
{
    if fates.len() > 0 {
        lemma_counts_fit(lines, fates.drop_last());
        if all_decided(fates) {
            assert forall|i: int| 0 <= i < fates.drop_last().len() implies !(
            #[trigger] fates.drop_last()[i] is Open) by {
                assert(!(fates[i] is Open));
            }
            assert(!(fates[fates.len() - 1] is Open));
        }
    }
}

/// The fates of one line more extend what is counted by that line.
proof fn lemma_one_more(lines: Seq<LineView>, fates: Seq<LineFate>, count: int)
    requires
        0 <= count < fates.len(),
    ensures
        fates.take(count + 1).drop_last() == fates.take(count),
        fates.take(count + 1).last() == fates[count],
{
    assert(fates.take(count + 1).drop_last() =~= fates.take(count));
}

/// Sorts every line into retained or removed.
pub fn classify_journal_lines(
    raw: &RawJournal,
    segments: &SegmentSet,
    verdicts: &RevisionVerdicts,
    retention_boundary: Option<usize>,
) -> (classification: Classification)
    requires
        raw.well_formed(),
        segments.well_formed(),
        verdicts.well_formed(raw.listed()),
    ensures
        ({
            let decided = fates(
                raw.listed(),
                segments.listed().to_set(),
                verdicts.listed(),
                position(retention_boundary),
            );
            match classification {
                Classification::NeedsVerdict(record) => pass_awaits(decided, record),
                Classification::Tally(tally) => all_decided(decided) && tally.counts(
                    raw.listed(),
                    decided,
                ),
            }
        }),
{
    let lines = raw.lines();
    let ghost views = raw.listed();
    let ghost known = segments.listed().to_set();
    let ghost slots = verdicts.listed();
    let ghost boundary = position(retention_boundary);
    let ghost decided = fates(views, known, slots, boundary);
    let mut tally = JournalTally {
        parser_ignored: 0,
        missing_segments: 0,
        unreadable_revisions: 0,
        beyond_retention: 0,
        removals: Vec::new(),
        retained_indexes: Vec::new(),
        retained_record_ids: Vec::new(),
    };
    let mut index: usize = 0;
    assert(decided.take(0) =~= Seq::empty());
    assert(plan::removal_views(tally.removals@) =~= Seq::empty());
    while index < lines.len()
        invariant
            index <= lines@.len(),
            raw.well_formed(),
            views == raw.listed(),
            views == scan::line_views(lines@),
            segments.well_formed(),
            known == segments.listed().to_set(),
            slots == verdicts.listed(),
            slots.len() == views.len(),
            boundary == position(retention_boundary),
            decided == fates(views, known, slots, boundary),
            tally.counts(views, decided.take(index as int)),
            forall|i: int| 0 <= i < index ==> !(#[trigger] decided[i] is Open),
        decreases lines@.len() - index,
    {
        let line = &lines[index];
        let ghost earlier = decided.take(index as int);
        let ghost removed_before = plan::removal_views(tally.removals@);
        proof {
            assert(views[index as int] == line@);
            scan::law_line_shape(raw.source(), index as int);
            lemma_one_more(views, decided, index as int);
            lemma_counts_fit(views, earlier);
            lemma_counts_fit(views, decided.take(index as int + 1));
        }
        match record_of(line) {
            None => {
                tally.parser_ignored = tally.parser_ignored + 1;
                let reason = match line.classification() {
                    RawJournalLineClassification::ParserSkippedNoSpace =>
                        JournalRemovalReason::ParserSkippedNoSpace,
                    _ => JournalRemovalReason::InvalidRecordIdentifier,
                };
                tally.removals.push(journal_line_removal(index, line, None, reason));
            },
            Some(record) => {
                let before_boundary = match retention_boundary {
                    Some(boundary_index) => index < boundary_index,
                    None => false,
                };
                if !segments.contains(record.segment) {
                    tally.missing_segments = tally.missing_segments + 1;
                    tally.removals.push(
                        journal_line_removal(
                            index,
                            line,
                            Some(record),
                            JournalRemovalReason::MissingSegment,
                        ),
                    );
                } else if before_boundary {
                    tally.beyond_retention = tally.beyond_retention + 1;
                    tally.removals.push(
                        journal_line_removal(
                            index,
                            line,
                            Some(record),
                            JournalRemovalReason::BeyondRetention,
                        ),
                    );
                } else {
                    match verdicts.slots[index] {
                        Some(readable) => {
                            if readable {
                                tally.retained_indexes.push(index);
                                tally.retained_record_ids.push(record);
                            } else {
                                tally.unreadable_revisions = tally.unreadable_revisions + 1;
                                tally.removals.push(
                                    journal_line_removal(
                                        index,
                                        line,
                                        Some(record),
                                        JournalRemovalReason::UnreadableRevision,
                                    ),
                                );
                            }
                        },
                        None => {
                            assert(is_first_open(decided, index as int));
                            return Classification::NeedsVerdict(record);
                        },
                    }
                }
            },
        }
        proof {
            let later = decided.take(index as int + 1);
            match decided[index as int] {
                LineFate::Removed { reason, record } => {
                    assert(plan::removal_views(tally.removals@) =~= removed_before.push(
                        removal(index as int, views[index as int], record, reason),
                    ));
                },
                _ => {},
            }
            assert(tally.counts(views, later));
        }
        index = index + 1;
    }
    assert(decided.take(index as int) =~= decided);
    Classification::Tally(tally)
}

/// The retained lines, byte for byte.
fn copy_retained_lines(raw: &RawJournal, retained: &Vec<usize>, Ghost(decided): Ghost<
    Seq<LineFate>,
>) -> (copied: Vec<Vec<u8>>)
    requires
        decided.len() == raw.listed().len(),
        retained@ == retained_indexes(decided),
    ensures
        byte_views(copied@) == retained_lines(raw.listed(), decided),
{
    let lines = raw.lines();
    let ghost views = raw.listed();
    let mut copied: Vec<Vec<u8>> = Vec::new();
    let mut index: usize = 0;
    let count: usize = lines.len();
    proof {
        assert(views.len() == count);
        lemma_retained_at(views, decided);
        assert(byte_views(copied@) =~= retained_lines(views, decided).take(0));
    }
    while index < retained.len()
        invariant
            index <= retained@.len(),
            views == raw.listed(),
            views == scan::line_views(lines@),
            decided.len() == views.len(),
            retained@ == retained_indexes(decided),
            retained_lines(views, decided).len() == retained@.len(),
            forall|i: int|
                0 <= i < retained@.len() ==> (#[trigger] retained@[i]) < views.len()
                    && retained_lines(views, decided)[i] == views[retained@[i] as int].raw,
            byte_views(copied@) == retained_lines(views, decided).take(index as int),
        decreases retained@.len() - index,
    {
        let line_index = retained[index];
        assert(views[line_index as int] == lines@[line_index as int]@);
        let ghost before = byte_views(copied@);
        copied.push(slice_to_vec(lines[line_index].raw_bytes()));
        proof {
            assert(byte_views(copied@) =~= before.push(views[line_index as int].raw));
            assert(retained_lines(views, decided).take(index as int + 1) =~= before.push(
                retained_lines(views, decided)[index as int],
            ));
        }
        index = index + 1;
    }
    assert(retained_lines(views, decided).take(index as int) =~= retained_lines(views, decided));
    copied
}

/// Each retained index lies within the journal, and the retained bytes and
/// records are those of that line.
proof fn lemma_retained_at(lines: Seq<LineView>, fates: Seq<LineFate>)
    requires
        fates.len() <= lines.len(),
        fates.len() <= usize::MAX,
    ensures
        retained_lines(lines, fates).len() == retained_indexes(fates).len(),
        retained_records(fates).len() == retained_indexes(fates).len(),
        forall|i: int|
            0 <= i < retained_indexes(fates).len() ==> {
                let index = #[trigger] retained_indexes(fates)[i] as int;
                &&& index < fates.len()
                &&& retained_lines(lines, fates)[i] == lines[index].raw
                &&& fates[index] == (LineFate::Retained { record: retained_records(fates)[i] })
            },
    decreases fates.len(),
{
    if fates.len() > 0 {
        lemma_retained_at(lines, fates.drop_last());
    }
}

/// The journal pass: what a run keeps and removes of the journal, or the
/// revision whose verdict it needs first.
pub fn analyze_journal_lines(
    raw: &RawJournal,
    segments: &SegmentSet,
    verdicts: &RevisionVerdicts,
    current_head: RecordIdentifier,
    retention: Option<usize>,
) -> (analyzed: Result<AnalysisStep, Error>)
    requires
        raw.well_formed(),
        segments.well_formed(),
        verdicts.well_formed(raw.listed()),
        retention is Some ==> retention->0 > 0,
    ensures
        analysis_result(
            raw.listed(),
            segments.listed().to_set(),
            verdicts.listed(),
            current_head,
            bound(retention),
            analyzed,
        ),
{
    reject_head_disagreement(raw, segments, current_head)?;
    let ghost views = raw.listed();
    let ghost known = segments.listed().to_set();
    let ghost slots = verdicts.listed();
    let retention_boundary = match retention {
        Some(revisions) => match journal_retention_boundary(raw, segments, verdicts, revisions) {
            BoundarySearch::NeedsVerdict(record) => {
                return Ok(AnalysisStep::NeedsVerdict(record));
            },
            BoundarySearch::Boundary(boundary) => boundary,
        },
        None => None,
    };
    let ghost boundary = position(retention_boundary);
    let ghost decided = fates(views, known, slots, boundary);
    let tally = match classify_journal_lines(raw, segments, verdicts, retention_boundary) {
        Classification::NeedsVerdict(record) => {
            assert(bounded_by(views, known, slots, bound(retention), boundary));
            return Ok(AnalysisStep::NeedsVerdict(record));
        },
        Classification::Tally(tally) => tally,
    };
    proof {
        lemma_counts_fit(views, decided);
        assert(bounded_by(views, known, slots, bound(retention), boundary));
    }
    if !holds_record(&tally.retained_record_ids, current_head) {
        return Err(refusal("journal analysis would not retain the exact current head"));
    }
    let line_count: usize = raw.lines().len();
    assert(decided.len() == line_count);
    let removed_lines = tally.parser_ignored + tally.missing_segments
        + tally.unreadable_revisions + tally.beyond_retention;
    let retained_raw_lines = copy_retained_lines(raw, &tally.retained_indexes, Ghost(decided));
    let retained_record_ids = tally.retained_record_ids.clone();
    assert(retained_record_ids@ =~= tally.retained_record_ids@);
    Ok(
        AnalysisStep::Complete(
            JournalAnalysis {
                plan: JournalPlan {
                    retained_record_ids,
                    retained_raw_lines,
                    removals: tally.removals,
                    removed_lines,
                    parser_ignored: tally.parser_ignored,
                    missing_segments: tally.missing_segments,
                    unreadable_revisions: tally.unreadable_revisions,
                    beyond_retention: tally.beyond_retention,
                },
                retained_indexes: tally.retained_indexes,
                retained_record_ids: tally.retained_record_ids,
            },
        ),
    )
}

/// What an analysis comes to, for each journal and each state of knowledge.
pub open spec fn analysis_result(
    lines: Seq<LineView>,
    segments: Set<SegmentIdentifier>,
    verdicts: Seq<Option<bool>>,
    current_head: RecordIdentifier,
    retention: Option<nat>,
    analyzed: Result<AnalysisStep, Error>,
) -> bool {
    match newest_resolved(lines, segments, lines.len()) {
        None => analyzed matches Err(error) && error.refuses(
            "no raw journal record references an existing segment"@,
        ),
        Some(selected) => if selected != current_head {
            analyzed matches Err(error) && error.refuses(disagreement_text(selected, current_head))
        } else {
            ||| analyzed matches Ok(AnalysisStep::NeedsVerdict(record)) && retention is Some
                && search_awaits(lines, segments, verdicts, retention->0, record)
            ||| exists|boundary: Option<int>| #[trigger]
                bounded_by(lines, segments, verdicts, retention, boundary) && {
                    let decided = fates(lines, segments, verdicts, boundary);
                    match analyzed {
                        Ok(AnalysisStep::NeedsVerdict(record)) => pass_awaits(decided, record),
                        Ok(AnalysisStep::Complete(analysis)) => {
                            &&& all_decided(decided)
                            &&& retained_records(decided).contains(current_head)
                            &&& analysis.describes(lines, decided)
                        },
                        Err(error) => {
                            &&& all_decided(decided)
                            &&& !retained_records(decided).contains(current_head)
                            &&& error.refuses(
                                "journal analysis would not retain the exact current head"@,
                            )
                        },
                    }
                }
        },
    }
}

/// Where the boundary falls: nowhere without a bound.
pub open spec fn bounded_by(
    lines: Seq<LineView>,
    segments: Set<SegmentIdentifier>,
    verdicts: Seq<Option<bool>>,
    retention: Option<nat>,
    boundary: Option<int>,
) -> bool {
    match retention {
        Some(revisions) => is_boundary(lines, segments, verdicts, revisions, boundary),
        None => boundary is None,
    }
}

} // verus!
