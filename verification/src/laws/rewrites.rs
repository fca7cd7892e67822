//! What an analysis of the journal keeps, and what a rewrite leaves of it.
use vstd::prelude::*;
use vstd::string::*;
use crate::error::Error;
use crate::identifier::{RecordIdentifier, SegmentIdentifier};
use crate::journal::analysis;
use crate::journal::analysis::{AnalysisStep, JournalAnalysis, JournalPlan, LineFate};
use crate::journal::laws as kept_lines;
use crate::journal::proofs;
use crate::journal::proofs::JournalRewriteDecision;
use crate::journal::rewrite;
use crate::journal::rewrite::JournalRewriteOutcome;
use crate::journal::scan::{LineClass, LineView, RawJournal};
use crate::laws::journal;
use crate::plan;
use crate::text;

verus! {

/// Whether what is kept of a journal is kept line by line: at each place a line of the
/// journal, in order, with the record it names and all of its bytes, and every line of
/// some kind.
pub open spec fn keeps_lines(
    lines: Seq<LineView>,
    indexes: Seq<usize>,
    records: Seq<RecordIdentifier>,
    contents: Seq<Seq<u8>>,
) -> bool {
    &&& records.len() == indexes.len()
    &&& contents.len() == indexes.len()
    &&& forall|k: int|
        0 <= k < indexes.len() ==> (#[trigger] indexes[k]) < lines.len() && (
        lines[indexes[k] as int].class matches LineClass::Record { record, .. } && record
            == records[k]) && contents[k] == lines[indexes[k] as int].raw
    &&& forall|k: int, l: int|
        0 <= k < l < indexes.len() ==> (#[trigger] indexes[k]) < (#[trigger] indexes[l])
}

proof fn lemma_kept(
    lines: Seq<LineView>,
    segments: Set<SegmentIdentifier>,
    verdicts: Seq<Option<bool>>,
    boundary: Option<int>,
    count: nat,
)
    requires
        count <= lines.len(),
        lines.len() <= usize::MAX,
    ensures
        ({
            let fates = analysis::fates(lines, segments, verdicts, boundary).take(count as int);
            &&& keeps_lines(
                lines,
                analysis::retained_indexes(fates),
                analysis::retained_records(fates),
                analysis::retained_lines(lines, fates),
            )
            &&& forall|i: int|
                0 <= i < count ==> (analysis::retained_indexes(fates).contains(i as usize)
                    <==> #[trigger] fates[i] is Retained)
            &&& forall|k: int|
                0 <= k < analysis::retained_indexes(fates).len() ==> (
                #[trigger] analysis::retained_indexes(fates)[k]) < count
        }),
    decreases count,
{
    let all = analysis::fates(lines, segments, verdicts, boundary);
    let fates = all.take(count as int);
    if count > 0 {
        let last = (count - 1) as nat;
        lemma_kept(lines, segments, verdicts, boundary, last);
        assert(fates.drop_last() =~= all.take(last as int));
        let earlier = analysis::retained_indexes(all.take(last as int));
        let kept = analysis::retained_indexes(fates);
        assert forall|i: int| 0 <= i < count implies (kept.contains(i as usize)
            <==> #[trigger] fates[i] is Retained) by {
            if i < last {
                assert(all.take(last as int)[i] == fates[i]);
                if earlier.contains(i as usize) {
                    let k = choose|k: int| 0 <= k < earlier.len() && earlier[k] == i as usize;
                    assert(kept[k] == i as usize);
                }
                if kept.contains(i as usize) {
                    let k = choose|k: int| 0 <= k < kept.len() && kept[k] == i as usize;
                    assert(earlier[k] == i as usize);
                }
            } else {
                if fates[i] is Retained {
                    assert(kept[kept.len() - 1] == i as usize);
                }
                if kept.contains(i as usize) && !(fates[i] is Retained) {
                    let k = choose|k: int| 0 <= k < kept.len() && kept[k] == i as usize;
                    assert(earlier[k] < last);
                }
            }
        }
    }
}

/// A completed analysis keeps exactly the lines that read, of which, where there is a
/// bound, only the newest so many; it keeps each with its record and all its bytes, in
/// order; and the head that the repository reads is the newest line that resolves, and
/// is among what is kept.
pub proof fn law_a_completed_analysis_keeps_what_reads(
    lines: Seq<LineView>,
    segments: Set<SegmentIdentifier>,
    verdicts: Seq<Option<bool>>,
    current_head: RecordIdentifier,
    retention: Option<nat>,
    kept: JournalAnalysis,
    index: int,
)
    requires
        lines.len() <= usize::MAX,
        retention is Some ==> retention->0 > 0,
        analysis::analysis_result(
            lines,
            segments,
            verdicts,
            current_head,
            retention,
            Ok(AnalysisStep::Complete(kept)),
        ),
        0 <= index < lines.len(),
    ensures
        kept.retained_indexes@.contains(index as usize) <==> {
            &&& journal::reads(lines, segments, verdicts, index)
            &&& retention is Some ==> journal::readable_behind(
                lines,
                segments,
                verdicts,
                index,
            ).len() < retention->0
        },
        keeps_lines(
            lines,
            kept.retained_indexes@,
            kept.retained_record_ids@,
            analysis::byte_views(kept.plan.retained_raw_lines@),
        ),
        kept.plan.retained_record_ids@ == kept.retained_record_ids@,
        kept.retained_record_ids@.contains(current_head),
        analysis::newest_resolved(lines, segments, lines.len()) == Some(current_head),
{
    let boundary = choose|boundary: Option<int>| #[trigger]
        analysis::bounded_by(lines, segments, verdicts, retention, boundary) && {
            let decided = analysis::fates(lines, segments, verdicts, boundary);
            &&& analysis::all_decided(decided)
            &&& analysis::retained_records(decided).contains(current_head)
            &&& kept.describes(lines, decided)
        };
    let fates = analysis::fates(lines, segments, verdicts, boundary);
    lemma_kept(lines, segments, verdicts, boundary, lines.len());
    assert(fates.take(lines.len() as int) =~= fates);
    assert(fates[index] is Retained <==> kept.retained_indexes@.contains(index as usize));
    if retention is Some {
        journal::law_the_newest_readable_revisions_stay(
            lines,
            segments,
            verdicts,
            retention->0,
            boundary,
            index,
        );
    } else {
        journal::law_every_readable_revision_stays(lines, segments, verdicts, index);
    }
}

/// An analysis asks for a revision only where a line names it, its segment is there,
/// and nobody has said yet whether it reads.
pub proof fn law_an_analysis_asks_for_open_revisions(
    lines: Seq<LineView>,
    segments: Set<SegmentIdentifier>,
    verdicts: Seq<Option<bool>>,
    current_head: RecordIdentifier,
    retention: Option<nat>,
    asked: RecordIdentifier,
)
    requires
        analysis::analysis_result(
            lines,
            segments,
            verdicts,
            current_head,
            retention,
            Ok(AnalysisStep::NeedsVerdict(asked)),
        ),
    ensures
        exists|index: int|
            0 <= index < lines.len() && ((#[trigger] lines[index]).class matches LineClass::Record {
                record,
                ..
            } && record == asked) && segments.contains(asked.segment) && verdicts[index] is None,
{
    if retention is Some && analysis::search_awaits(
        lines,
        segments,
        verdicts,
        retention->0,
        asked,
    ) {
        let index = choose|index: int| #[trigger]
            analysis::stops_at(lines, segments, verdicts, retention->0, index)
                && analysis::named_record(lines[index]) == Some(asked);
        assert(0 <= index < lines.len());
        assert(lines[index].class is Record);
    } else {
        let boundary = choose|boundary: Option<int>| #[trigger]
            analysis::bounded_by(lines, segments, verdicts, retention, boundary)
                && analysis::pass_awaits(
                analysis::fates(lines, segments, verdicts, boundary),
                asked,
            );
        let fates = analysis::fates(lines, segments, verdicts, boundary);
        let index = choose|index: int| #[trigger]
            analysis::is_first_open(fates, index) && fates[index] == (LineFate::Open {
                record: asked,
            });
        assert(lines[index].class is Record);
    }
}

/// Where the newest line that resolves is not the head that the repository reads, and
/// where none resolves, the analysis is refused.
pub proof fn law_a_journal_that_disagrees_is_refused(
    lines: Seq<LineView>,
    segments: Set<SegmentIdentifier>,
    verdicts: Seq<Option<bool>>,
    current_head: RecordIdentifier,
    retention: Option<nat>,
    analyzed: Result<AnalysisStep, Error>,
)
    requires
        analysis::analysis_result(
            lines,
            segments,
            verdicts,
            current_head,
            retention,
            analyzed,
        ),
        analysis::newest_resolved(lines, segments, lines.len()) != Some(current_head),
    ensures
        analyzed is Err,
        analysis::newest_resolved(lines, segments, lines.len()) matches Some(selected)
            ==> analyzed->Err_0.message() == "invalid segment-tar data: "@ + (
        "raw journal selected "@ + selected.text() + ", but the repository reader selected "@
            + current_head.text()),
        analysis::newest_resolved(lines, segments, lines.len()) is None
            ==> analyzed->Err_0.message() == "invalid segment-tar data: "@
            + "no raw journal record references an existing segment"@,
{
}

/// Whether lines are there, in order, each as it was or with one line feed added.
pub open spec fn are_there(lines: Seq<LineView>, expected: Seq<Seq<u8>>) -> bool {
    exists|positions: Seq<int>|
        positions.len() == expected.len() && (forall|i: int|
            0 <= i < positions.len() ==> 0 <= #[trigger] positions[i] < lines.len() && (
            lines[positions[i]].raw == expected[i] || lines[positions[i]].raw
                == expected[i] + seq![10u8])) && (forall|i: int, j: int|
            0 <= i < j < positions.len() ==> #[trigger] positions[i] < #[trigger] positions[j])
}

proof fn lemma_are_there(lines: Seq<LineView>, expected: Seq<Seq<u8>>)
    requires
        proofs::holds_lines(lines, expected),
    ensures
        are_there(lines, expected),
{
    let positions = choose|positions: Seq<int>| #[trigger]
        proofs::leads(expected, lines, positions);
    assert forall|i: int| 0 <= i < positions.len() implies 0 <= #[trigger] positions[i]
        < lines.len() && (lines[positions[i]].raw == expected[i] || lines[positions[i]].raw
        == expected[i] + seq![10u8]) by {
        journal::law_one_line_feed_may_be_added(expected[i], lines[positions[i]].raw);
    }
    assert(positions.len() == expected.len());
}

/// A pruning that is not refused loses nothing that the plan keeps: every planned root
/// is as often as planned among what a fresh analysis keeps, and every planned line is
/// there, in order. It rewrites the journal exactly if the fresh analysis has something
/// to remove, and then keeps what that analysis keeps.
pub proof fn law_a_pruning_loses_nothing_planned(
    raw: RawJournal,
    planned: JournalPlan,
    fresh: JournalAnalysis,
    decision: JournalRewriteDecision,
)
    requires
        proofs::prunes_history(raw, planned, fresh, decision),
    ensures
        forall|record: RecordIdentifier| #[trigger]
            proofs::occurrences(planned.retained_record_ids@, record) <= proofs::occurrences(
                fresh.retained_record_ids@,
                record,
            ),
        are_there(raw.listed(), analysis::byte_views(planned.retained_raw_lines@)),
        decision is Rewrite <==> fresh.plan.removed_lines != 0,
        decision matches JournalRewriteDecision::Rewrite { retained_indexes }
            ==> retained_indexes@ == fresh.retained_indexes@,
        decision matches JournalRewriteDecision::Unchanged(outcome) ==> {
            &&& !outcome.changed
            &&& outcome.removed_line_count == 0
            &&& outcome.retained_record_count == fresh.retained_indexes@.len()
            &&& outcome.bytes_written == raw.source().len()
            &&& outcome.backup_path is None
        },
{
    journal::law_no_root_is_lost_exactly_if_all_occur_as_often(
        planned.retained_record_ids@,
        fresh.retained_record_ids@,
    );
    lemma_are_there(raw.listed(), analysis::byte_views(planned.retained_raw_lines@));
}

/// A retirement that is not refused keeps the one line that names the copied head, and
/// no other; a journal of that line alone is left as it is.
pub proof fn law_a_retirement_keeps_the_line_of_the_head(
    raw: RawJournal,
    head_after: RecordIdentifier,
    decision: JournalRewriteDecision,
)
    requires
        raw.listed().len() <= usize::MAX,
        proofs::retires_history(raw, head_after, decision),
    ensures
        proofs::lines_naming(raw.listed(), head_after) == 1,
        decision is Rewrite <==> raw.listed().len() != 1,
        decision matches JournalRewriteDecision::Rewrite { retained_indexes } ==> {
            &&& retained_indexes@.len() == 1
            &&& retained_indexes@[0] < raw.listed().len()
            &&& raw.listed()[retained_indexes@[0] as int].class matches LineClass::Record {
                record,
                ..
            }
            &&& record == head_after
        },
        decision matches JournalRewriteDecision::Unchanged(outcome) ==> {
            &&& !outcome.changed
            &&& outcome.removed_line_count == 0
            &&& outcome.retained_record_count == 1
            &&& outcome.bytes_written == raw.source().len()
            &&& outcome.backup_path is None
        },
{
    let lines = raw.listed();
    let index = choose|index: int|
        0 <= index < lines.len() && analysis::named_record(#[trigger] lines[index]) == Some(
            head_after,
        ) && proofs::holds_lines(lines, seq![proofs::head_content(lines, index)]) && if lines.len()
            == 1 {
            proofs::is_unchanged(decision, 1, raw.source().len())
        } else {
            decision matches JournalRewriteDecision::Rewrite { retained_indexes }
                && retained_indexes@ == seq![index as usize]
        };
    assert(lines[index].class is Record);
}

/// A retirement is refused where no line or more than one names the copied head, and
/// says how many there are.
pub proof fn law_a_retirement_needs_one_line_of_the_head(
    raw: RawJournal,
    head_after: RecordIdentifier,
    error: Error,
)
    requires
        proofs::refuses_retiring(raw, head_after, error),
    ensures
        proofs::lines_naming(raw.listed(), head_after) == 0 ==> error.message()
            == "invalid segment-tar data: "@ + (
        "the journal holds no line naming the compacted head "@ + head_after.text()),
        proofs::lines_naming(raw.listed(), head_after) > 1 ==> error.message()
            == "invalid segment-tar data: "@ + ("the journal holds "@ + text::decimal(
            proofs::lines_naming(raw.listed(), head_after),
        ) + " lines naming the compacted head "@ + head_after.text()
            + "; refusing to choose one"@),
{
}

/// A pruning is refused only where something planned is gone: a root that is no longer
/// there as often, or a line that is no longer there.
pub proof fn law_a_refused_pruning_has_lost_something(
    raw: RawJournal,
    planned: JournalPlan,
    fresh: JournalAnalysis,
    error: Error,
)
    requires
        proofs::refuses_pruning(raw, planned, fresh, error),
    ensures
        (exists|record: RecordIdentifier| #[trigger]
            proofs::occurrences(planned.retained_record_ids@, record) > proofs::occurrences(
                fresh.retained_record_ids@,
                record,
            )) || !proofs::holds_lines(
            raw.listed(),
            analysis::byte_views(planned.retained_raw_lines@),
        ),
{
    journal::law_no_root_is_lost_exactly_if_all_occur_as_often(
        planned.retained_record_ids@,
        fresh.retained_record_ids@,
    );
    if exists|position: int| #[trigger]
        proofs::is_first_loss(
            planned.retained_record_ids@,
            fresh.retained_record_ids@,
            position,
        ) {
        let position = choose|position: int| #[trigger]
            proofs::is_first_loss(
                planned.retained_record_ids@,
                fresh.retained_record_ids@,
                position,
            );
        assert(proofs::root_is_lost(
            planned.retained_record_ids@,
            fresh.retained_record_ids@,
            position,
        ));
    }
}

/// A completed analysis reports every line that it does not keep, by its number and in
/// order, and counts them; and without a bound it leaves no revision undecided.
pub proof fn law_a_completed_analysis_accounts_for_every_line(
    lines: Seq<LineView>,
    segments: Set<SegmentIdentifier>,
    verdicts: Seq<Option<bool>>,
    current_head: RecordIdentifier,
    retention: Option<nat>,
    kept: JournalAnalysis,
    index: int,
)
    requires
        lines.len() <= usize::MAX,
        analysis::analysis_result(
            lines,
            segments,
            verdicts,
            current_head,
            retention,
            Ok(AnalysisStep::Complete(kept)),
        ),
        0 <= index < lines.len(),
    ensures
        ({
            let reported = plan::removal_views(kept.plan.removals@);
            &&& reported.len() == kept.plan.removed_lines
            &&& kept.plan.removed_lines + kept.retained_indexes@.len() == lines.len()
            &&& kept.retained_indexes@.contains(index as usize) <==> !(exists|k: int|
                0 <= k < reported.len() && (#[trigger] reported[k]).line_number == index + 1)
            &&& forall|k: int, l: int|
                0 <= k < l < reported.len() ==> (#[trigger] reported[k]).line_number < (
                #[trigger] reported[l]).line_number
        }),
        retention is None && lines[index].class is Record && segments.contains(
            lines[index].class->record.segment,
        ) ==> verdicts[index] is Some,
{
    let boundary = choose|boundary: Option<int>| #[trigger]
        analysis::bounded_by(lines, segments, verdicts, retention, boundary) && {
            let decided = analysis::fates(lines, segments, verdicts, boundary);
            &&& analysis::all_decided(decided)
            &&& analysis::retained_records(decided).contains(current_head)
            &&& kept.describes(lines, decided)
        };
    let fates = analysis::fates(lines, segments, verdicts, boundary);
    kept_lines::law_every_line_is_kept_or_removed(lines, fates);
    assert(!(fates[index] is Open));
}

/// A selection marks exactly the lines that it names.
pub proof fn law_a_selection_marks_the_lines_it_names(
    lines: Seq<LineView>,
    indexes: Seq<usize>,
    kept: Seq<bool>,
    index: usize,
)
    requires
        rewrite::marks(lines, indexes, kept),
        index < lines.len(),
    ensures
        kept.len() == lines.len(),
        kept[index as int] <==> exists|k: int| 0 <= k < indexes.len() && indexes[k] == index,
{
    assert(kept[index as int] == indexes.contains(index));
}

/// What is reported of a rewrite is what was decided: that the journal changed and has a
/// backup, and how many lines stayed and went; or that nothing was done.
pub proof fn law_an_outcome_tells_what_was_decided(
    outcome: JournalRewriteOutcome,
    decision: JournalRewriteDecision,
    lines: nat,
)
    requires
        proofs::is_outcome_of(outcome, decision, lines),
    ensures
        decision matches JournalRewriteDecision::Rewrite { retained_indexes } ==> {
            &&& outcome.changed
            &&& outcome.backup_path is Some
            &&& outcome.retained_record_count == retained_indexes@.len()
            &&& outcome.removed_line_count == lines - retained_indexes@.len()
        },
        decision matches JournalRewriteDecision::Unchanged(known) ==> {
            &&& outcome.changed == known.changed
            &&& (outcome.backup_path is Some) == (known.backup_path is Some)
            &&& outcome.retained_record_count == known.retained_record_count
            &&& outcome.removed_line_count == known.removed_line_count
            &&& outcome.bytes_written == known.bytes_written
        },
{
}

} // verus!
