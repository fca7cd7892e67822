//! What holds of every journal analysis.
use vstd::prelude::*;
use crate::identifier::{RecordIdentifier, SegmentIdentifier};
use crate::journal::analysis;
use crate::journal::analysis::LineFate;
use crate::journal::proofs;
use crate::journal::rewrite;
use crate::journal::scan::LineView;

verus! {

/// Every line is kept or removed, and only one of the two: a line's index is
/// among the retained ones exactly if its fate is to stay, its line number is
/// among the removals exactly if its fate is to go, both lists follow the
/// file's order, and together they have as many entries as the journal has
/// lines.
pub proof fn law_every_line_is_kept_or_removed(lines: Seq<LineView>, fates: Seq<LineFate>)
    requires
        fates.len() <= lines.len(),
        fates.len() <= usize::MAX,
        analysis::all_decided(fates),
    ensures
        forall|i: int|
            0 <= i < fates.len() ==> (analysis::retained_indexes(fates).contains(i as usize)
                <==> #[trigger] fates[i] is Retained),
        forall|i: int|
            0 <= i < fates.len() ==> ((exists|j: int|
                0 <= j < analysis::removals(lines, fates).len() && (
                #[trigger] analysis::removals(lines, fates)[j]).line_number == i + 1)
                <==> #[trigger] fates[i] is Removed),
        forall|i: int, j: int|
            0 <= i < j < analysis::retained_indexes(fates).len()
                ==> #[trigger] analysis::retained_indexes(fates)[i]
                < #[trigger] analysis::retained_indexes(fates)[j],
        forall|i: int, j: int|
            0 <= i < j < analysis::removals(lines, fates).len() ==> (
            #[trigger] analysis::removals(lines, fates)[i]).line_number < (
            #[trigger] analysis::removals(lines, fates)[j]).line_number,
        forall|j: int|
            0 <= j < analysis::removals(lines, fates).len() ==> 0 < (
            #[trigger] analysis::removals(lines, fates)[j]).line_number <= fates.len(),
        forall|j: int|
            0 <= j < analysis::retained_indexes(fates).len() ==> (
            #[trigger] analysis::retained_indexes(fates)[j]) < fates.len(),
        analysis::removals(lines, fates).len() + analysis::retained_indexes(fates).len()
            == fates.len(),
    decreases fates.len(),
{
    if fates.len() > 0 {
        let shorter = fates.drop_last();
        assert forall|i: int| 0 <= i < shorter.len() implies !(#[trigger] shorter[i] is Open) by {
            assert(!(fates[i] is Open));
        }
        law_every_line_is_kept_or_removed(lines, shorter);
        let last = fates.len() - 1;
        assert(!(fates[last] is Open));
        let kept = analysis::retained_indexes(fates);
        let kept_before = analysis::retained_indexes(shorter);
        let gone = analysis::removals(lines, fates);
        let gone_before = analysis::removals(lines, shorter);
        assert forall|i: int| 0 <= i < fates.len() implies (kept.contains(i as usize)
            <==> #[trigger] fates[i] is Retained) by {
            if i < last {
                assert(shorter[i] == fates[i]);
                if kept.contains(i as usize) {
                    let k = choose|k: int| 0 <= k < kept.len() && kept[k] == i as usize;
                    assert(k < kept_before.len());
                    assert(kept_before[k] == i as usize);
                }
                if kept_before.contains(i as usize) {
                    let k = choose|k: int| 0 <= k < kept_before.len() && kept_before[k] == i as usize;
                    assert(kept[k] == i as usize);
                }
            } else {
                if fates[last] is Retained {
                    assert(kept[kept_before.len() as int] == last as usize);
                } else if kept.contains(last as usize) {
                    let k = choose|k: int| 0 <= k < kept.len() && kept[k] == last as usize;
                    assert(kept_before[k] < shorter.len());
                }
            }
        }
        assert forall|i: int| 0 <= i < fates.len() implies ((exists|j: int|
            0 <= j < gone.len() && (#[trigger] gone[j]).line_number == i + 1)
            <==> #[trigger] fates[i] is Removed) by {
            if i < last {
                assert(shorter[i] == fates[i]);
                if exists|j: int| 0 <= j < gone.len() && (#[trigger] gone[j]).line_number == i + 1 {
                    let j = choose|j: int|
                        0 <= j < gone.len() && (#[trigger] gone[j]).line_number == i + 1;
                    assert(j < gone_before.len());
                    assert(gone_before[j].line_number == i + 1);
                }
                if shorter[i] is Removed {
                    let j = choose|j: int|
                        0 <= j < gone_before.len() && (#[trigger] gone_before[j]).line_number == i + 1;
                    assert(gone[j].line_number == i + 1);
                }
            } else {
                if fates[last] is Removed {
                    assert(gone[gone_before.len() as int].line_number == last + 1);
                } else if exists|j: int|
                    0 <= j < gone.len() && (#[trigger] gone[j]).line_number == last + 1 {
                    let j = choose|j: int|
                        0 <= j < gone.len() && (#[trigger] gone[j]).line_number == last + 1;
                    assert(gone_before[j].line_number <= shorter.len());
                }
            }
        }
    }
}

/// How many lines of a decided journal stay, counted from a line on.
spec fn kept_from(fates: Seq<LineFate>, start: int) -> nat
    decreases fates.len() - start,
{
    if start >= fates.len() || start < 0 {
        0
    } else {
        kept_from(fates, start + 1) + if fates[start] is Retained {
            1nat
        } else {
            0nat
        }
    }
}

proof fn lemma_kept_split(fates: Seq<LineFate>, start: int)
    requires
        0 <= start <= fates.len(),
    ensures
        kept_from(fates, 0) == analysis::retained_records(fates.take(start)).len() + kept_from(
            fates,
            start,
        ),
    decreases start,
{
    if start == 0 {
        assert(fates.take(0) =~= Seq::empty());
    } else {
        lemma_kept_split(fates, start - 1);
        assert(fates.take(start).drop_last() =~= fates.take(start - 1));
    }
}

proof fn lemma_kept_are_readable(
    lines: Seq<LineView>,
    segments: Set<SegmentIdentifier>,
    verdicts: Seq<Option<bool>>,
    boundary: Option<int>,
    start: int,
)
    requires
        0 <= start <= lines.len(),
        boundary is Some ==> boundary->0 <= start,
    ensures
        kept_from(analysis::fates(lines, segments, verdicts, boundary), start)
            == analysis::readable_from(lines, segments, verdicts, start),
    decreases lines.len() - start,
{
    if start < lines.len() {
        lemma_kept_are_readable(lines, segments, verdicts, boundary, start + 1);
    }
}

proof fn lemma_none_kept_before(
    lines: Seq<LineView>,
    segments: Set<SegmentIdentifier>,
    verdicts: Seq<Option<bool>>,
    boundary: int,
    start: int,
)
    requires
        0 <= start <= boundary <= lines.len(),
    ensures
        kept_from(analysis::fates(lines, segments, verdicts, Some(boundary)), start) == kept_from(
            analysis::fates(lines, segments, verdicts, Some(boundary)),
            boundary,
        ),
    decreases boundary - start,
{
    if start < boundary {
        lemma_none_kept_before(lines, segments, verdicts, boundary, start + 1);
    }
}

/// A bound keeps as many revisions as it says, counting only those that read:
/// all of them when there are no more, and exactly the bound otherwise.
/// Without a bound every readable revision stays.
pub proof fn law_bound_counts_readable_revisions(
    lines: Seq<LineView>,
    segments: Set<SegmentIdentifier>,
    verdicts: Seq<Option<bool>>,
    retention: Option<nat>,
    boundary: Option<int>,
)
    requires
        analysis::bounded_by(lines, segments, verdicts, retention, boundary),
    ensures
        analysis::retained_records(analysis::fates(lines, segments, verdicts, boundary)).len()
            == match (retention, boundary) {
            (Some(revisions), Some(_)) => revisions,
            _ => analysis::readable_from(lines, segments, verdicts, 0),
        },
{
    let fates = analysis::fates(lines, segments, verdicts, boundary);
    lemma_kept_split(fates, fates.len() as int);
    assert(fates.take(fates.len() as int) =~= fates);
    match boundary {
        Some(index) => {
            lemma_kept_are_readable(lines, segments, verdicts, boundary, index);
            lemma_none_kept_before(lines, segments, verdicts, index, 0);
        },
        None => {
            lemma_kept_are_readable(lines, segments, verdicts, boundary, 0);
        },
    }
}

proof fn lemma_readable_grows(
    lines: Seq<LineView>,
    segments: Set<SegmentIdentifier>,
    verdicts: Seq<Option<bool>>,
    start: int,
    later: int,
)
    requires
        0 <= start <= later <= lines.len(),
    ensures
        analysis::readable_from(lines, segments, verdicts, later) <= analysis::readable_from(
            lines,
            segments,
            verdicts,
            start,
        ),
        start < later && analysis::is_readable(lines, segments, verdicts, start)
            ==> analysis::readable_from(lines, segments, verdicts, later)
            < analysis::readable_from(lines, segments, verdicts, start),
    decreases later - start,
{
    if start < later {
        lemma_readable_grows(lines, segments, verdicts, start + 1, later);
    }
}

/// A journal has one boundary for a bound.
pub proof fn law_boundary_is_unique(
    lines: Seq<LineView>,
    segments: Set<SegmentIdentifier>,
    verdicts: Seq<Option<bool>>,
    retention: nat,
    first: Option<int>,
    second: Option<int>,
)
    requires
        retention > 0,
        analysis::is_boundary(lines, segments, verdicts, retention, first),
        analysis::is_boundary(lines, segments, verdicts, retention, second),
    ensures
        first == second,
{
    match (first, second) {
        (Some(left), Some(right)) => {
            if left < right {
                lemma_readable_grows(lines, segments, verdicts, left, right);
            }
            if right < left {
                lemma_readable_grows(lines, segments, verdicts, right, left);
            }
        },
        (Some(left), None) => {
            lemma_readable_grows(lines, segments, verdicts, 0, left);
        },
        (None, Some(right)) => {
            lemma_readable_grows(lines, segments, verdicts, 0, right);
        },
        (None, None) => {},
    }
}

/// An analysis asks only about a revision that has no verdict yet, so each
/// distinct revision is walked at most once, however many lines name it.
pub proof fn law_no_revision_is_walked_twice(
    lines: Seq<LineView>,
    segments: Set<SegmentIdentifier>,
    verdicts: analysis::RevisionVerdicts,
    retention: nat,
    boundary: Option<int>,
    record: RecordIdentifier,
)
    requires
        verdicts.well_formed(lines),
        analysis::search_awaits(lines, segments, verdicts.listed(), retention, record)
            || analysis::pass_awaits(
            analysis::fates(lines, segments, verdicts.listed(), boundary),
            record,
        ),
    ensures
        forall|i: int|
            0 <= i < lines.len() && analysis::named_record(#[trigger] lines[i]) == Some(record)
                ==> verdicts.listed()[i] is None,
{
    let slots = verdicts.listed();
    let fates = analysis::fates(lines, segments, slots, boundary);
    let index = if analysis::search_awaits(lines, segments, slots, retention, record) {
        choose|index: int| #[trigger]
            analysis::stops_at(lines, segments, slots, retention, index)
                && analysis::named_record(lines[index]) == Some(record)
    } else {
        choose|index: int| #[trigger]
            analysis::is_first_open(fates, index) && fates[index] == (LineFate::Open { record })
    };
    assert(analysis::named_record(lines[index]) == Some(record) && slots[index] is None);
}

/// Once the boundary of a bound is known no further verdict is asked for: the
/// lines older than the bound are never walked.
pub proof fn law_lines_beyond_the_bound_are_never_walked(
    lines: Seq<LineView>,
    segments: Set<SegmentIdentifier>,
    verdicts: Seq<Option<bool>>,
    retention: nat,
    boundary: Option<int>,
)
    requires
        analysis::is_boundary(lines, segments, verdicts, retention, boundary),
    ensures
        analysis::all_decided(analysis::fates(lines, segments, verdicts, boundary)),
{
    let fates = analysis::fates(lines, segments, verdicts, boundary);
    assert forall|i: int| 0 <= i < fates.len() implies !(#[trigger] fates[i] is Open) by {
        if fates[i] is Open {
            assert(analysis::is_open(lines, segments, verdicts, i));
        }
    }
}

proof fn lemma_newest_is_somewhere(
    lines: Seq<LineView>,
    segments: Set<SegmentIdentifier>,
    count: nat,
    head: RecordIdentifier,
) -> (index: int)
    requires
        count <= lines.len(),
        analysis::newest_resolved(lines, segments, count) == Some(head),
    ensures
        0 <= index < count,
        analysis::resolved_record(lines[index], segments) == Some(head),
        forall|i: int|
            index < i < count ==> analysis::resolved_record(#[trigger] lines[i], segments) is None,
    decreases count,
{
    match analysis::resolved_record(lines[count - 1], segments) {
        Some(_) => count - 1,
        None => lemma_newest_is_somewhere(lines, segments, (count - 1) as nat, head),
    }
}

proof fn lemma_retained_contains(fates: Seq<LineFate>, index: int)
    requires
        0 <= index < fates.len(),
        fates[index] is Retained,
    ensures
        fates[index] matches LineFate::Retained { record } && analysis::retained_records(
            fates,
        ).contains(record),
    decreases fates.len(),
{
    let all = analysis::retained_records(fates);
    let earlier = analysis::retained_records(fates.drop_last());
    let record = match fates[index] {
        LineFate::Retained { record } => record,
        _ => arbitrary(),
    };
    if index == fates.len() - 1 {
        assert(all[earlier.len() as int] == record);
    } else {
        lemma_retained_contains(fates.drop_last(), index);
        let k = choose|k: int| 0 <= k < earlier.len() && earlier[k] == record;
        assert(all[k] == record);
    }
}

/// The current head always stays: where the newest resolvable line names it and
/// its tree is known to read, no bound and no verdict on another revision
/// removes that line.
pub proof fn law_current_head_is_retained(
    lines: Seq<LineView>,
    segments: Set<SegmentIdentifier>,
    verdicts: Seq<Option<bool>>,
    head: RecordIdentifier,
    retention: Option<nat>,
    boundary: Option<int>,
)
    requires
        analysis::newest_resolved(lines, segments, lines.len()) == Some(head),
        forall|i: int|
            0 <= i < lines.len() && analysis::named_record(#[trigger] lines[i]) == Some(head)
                ==> verdicts[i] == Some(true),
        retention is Some ==> retention->0 > 0,
        analysis::bounded_by(lines, segments, verdicts, retention, boundary),
    ensures
        analysis::retained_records(
            analysis::fates(lines, segments, verdicts, boundary),
        ).contains(head),
{
    let fates = analysis::fates(lines, segments, verdicts, boundary);
    let index = lemma_newest_is_somewhere(lines, segments, lines.len(), head);
    assert(analysis::named_record(lines[index]) == Some(head));
    assert(verdicts[index] == Some(true));
    match boundary {
        Some(first_kept) => {
            if index < first_kept {
                assert(analysis::resolved_record(lines[first_kept], segments) is None);
                assert(false);
            }
        },
        None => {},
    }
    assert(fates[index] == (LineFate::Retained { record: head }));
    lemma_retained_contains(fates, index);
}

/// The verdict on each line, when every revision is known to read or not.
pub open spec fn verdicts_of(
    lines: Seq<LineView>,
    reads: spec_fn(RecordIdentifier) -> bool,
) -> Seq<Option<bool>> {
    Seq::new(
        lines.len(),
        |i: int|
            match analysis::named_record(lines[i]) {
                Some(record) => Some(reads(record)),
                None => None,
            },
    )
}

/// Counts, among the first lines, those that are marked.
spec fn marked(kept: Seq<bool>, start: int, end: int) -> nat
    decreases end - start,
{
    if start >= end || end <= 0 {
        0
    } else {
        marked(kept, start, end - 1) + if kept[end - 1] {
            1nat
        } else {
            0nat
        }
    }
}

proof fn lemma_kept_count(lines: Seq<LineView>, kept: Seq<bool>)
    requires
        lines.len() <= kept.len(),
    ensures
        rewrite::kept_lines(lines, kept).len() == marked(kept, 0, lines.len() as int),
    decreases lines.len(),
{
    if lines.len() > 0 {
        lemma_kept_count(lines.drop_last(), kept);
    }
}

proof fn lemma_marked_splits(kept: Seq<bool>, middle: int, end: int)
    requires
        0 <= middle <= end <= kept.len(),
    ensures
        marked(kept, 0, end) == marked(kept, 0, middle) + marked(kept, middle, end),
    decreases end - middle,
{
    if middle < end {
        lemma_marked_splits(kept, middle, end - 1);
    }
}

proof fn lemma_marked_from_the_front(kept: Seq<bool>, start: int, end: int)
    requires
        0 <= start < end <= kept.len(),
    ensures
        marked(kept, start, end) == marked(kept, start + 1, end) + if kept[start] {
            1nat
        } else {
            0nat
        },
    decreases end - start,
{
    if start + 1 < end {
        lemma_marked_from_the_front(kept, start, end - 1);
    } else {
        assert(marked(kept, start, end - 1) == 0);
        assert(marked(kept, start + 1, end) == 0);
    }
}

/// From the boundary on, the lines that stay are the readable ones.
proof fn lemma_readable_lines_are_marked(
    lines: Seq<LineView>,
    segments: Set<SegmentIdentifier>,
    verdicts: Seq<Option<bool>>,
    kept: Seq<bool>,
    start: int,
)
    requires
        0 <= start <= lines.len(),
        kept.len() == lines.len(),
        forall|i: int|
            start <= i < lines.len() ==> #[trigger] kept[i] == analysis::is_readable(
                lines,
                segments,
                verdicts,
                i,
            ),
    ensures
        analysis::readable_from(lines, segments, verdicts, start) == marked(
            kept,
            start,
            lines.len() as int,
        ),
    decreases lines.len() - start,
{
    if start < lines.len() {
        lemma_readable_lines_are_marked(lines, segments, verdicts, kept, start + 1);
        lemma_marked_from_the_front(kept, start, lines.len() as int);
        assert(kept[start] == analysis::is_readable(lines, segments, verdicts, start));
    }
}

proof fn lemma_nothing_marked(kept: Seq<bool>, end: int)
    requires
        0 <= end <= kept.len(),
        forall|i: int| 0 <= i < end ==> !#[trigger] kept[i],
    ensures
        marked(kept, 0, end) == 0,
    decreases end,
{
    if end > 0 {
        lemma_nothing_marked(kept, end - 1);
        assert(!kept[end - 1]);
    }
}

proof fn lemma_all_readable(
    lines: Seq<LineView>,
    segments: Set<SegmentIdentifier>,
    verdicts: Seq<Option<bool>>,
    start: int,
)
    requires
        0 <= start <= lines.len(),
        forall|i: int|
            0 <= i < lines.len() ==> #[trigger] analysis::is_readable(lines, segments, verdicts, i),
    ensures
        analysis::readable_from(lines, segments, verdicts, start) == lines.len() - start,
    decreases lines.len() - start,
{
    if start < lines.len() {
        lemma_all_readable(lines, segments, verdicts, start + 1);
        assert(analysis::is_readable(lines, segments, verdicts, start));
    }
}

/// Every kept line is one of the lines, and one that was marked.
proof fn lemma_kept_lines_were_marked(lines: Seq<LineView>, kept: Seq<bool>, index: int)
    requires
        lines.len() <= kept.len(),
        0 <= index < rewrite::kept_lines(lines, kept).len(),
    ensures
        exists|i: int|
            0 <= i < lines.len() && #[trigger] kept[i] && rewrite::kept_lines(lines, kept)[index]
                == lines[i],
    decreases lines.len(),
{
    let rest = lines.drop_last();
    let earlier = rewrite::kept_lines(rest, kept);
    if index < earlier.len() {
        lemma_kept_lines_were_marked(rest, kept, index);
        let i = choose|i: int|
            0 <= i < rest.len() && #[trigger] kept[i] && earlier[index] == rest[i];
        assert(kept[i] && rewrite::kept_lines(lines, kept)[index] == lines[i]);
    } else {
        assert(kept[lines.len() - 1]);
    }
}

/// Pruning leaves nothing to prune: when the lines that an analysis retains are
/// installed and analysed again, with the same store and the same bound, every
/// one of them is retained.
pub proof fn law_pruning_leaves_nothing_to_prune(
    lines: Seq<LineView>,
    segments: Set<SegmentIdentifier>,
    reads: spec_fn(RecordIdentifier) -> bool,
    retention: Option<nat>,
    boundary: Option<int>,
    kept: Seq<bool>,
    again: Option<int>,
)
    requires
        analysis::bounded_by(lines, segments, verdicts_of(lines, reads), retention, boundary),
        kept.len() == lines.len(),
        forall|i: int|
            0 <= i < lines.len() ==> #[trigger] kept[i] == (analysis::fates(
                lines,
                segments,
                verdicts_of(lines, reads),
                boundary,
            )[i] is Retained),
        analysis::bounded_by(
            rewrite::installed_lines(lines, kept),
            segments,
            verdicts_of(rewrite::installed_lines(lines, kept), reads),
            retention,
            again,
        ),
    ensures
        forall|i: int|
            0 <= i < rewrite::installed_lines(lines, kept).len() ==> #[trigger] analysis::fates(
                rewrite::installed_lines(lines, kept),
                segments,
                verdicts_of(rewrite::installed_lines(lines, kept), reads),
                again,
            )[i] is Retained,
{
    let verdicts = verdicts_of(lines, reads);
    let chosen = rewrite::kept_lines(lines, kept);
    let installed = rewrite::installed_lines(lines, kept);
    let known = verdicts_of(installed, reads);
    let decided = analysis::fates(lines, segments, verdicts, boundary);
    assert forall|i: int| 0 <= i < installed.len() implies #[trigger] analysis::is_readable(
        installed,
        segments,
        known,
        i,
    ) by {
        lemma_kept_lines_were_marked(lines, kept, i);
        let j = choose|j: int| 0 <= j < lines.len() && #[trigger] kept[j] && chosen[i] == lines[j];
        assert(decided[j] is Retained);
        assert(verdicts[j] == Some(true));
        assert(installed[i].class == chosen[i].class);
    }
    lemma_all_readable(installed, segments, known, 0);
    if retention is Some {
        let start: int = if boundary is Some {
            boundary->0
        } else {
            0
        };
        assert forall|i: int| start <= i < lines.len() implies #[trigger] kept[i]
            == analysis::is_readable(lines, segments, verdicts, i) by {
            assert(kept[i] == (decided[i] is Retained));
        }
        lemma_readable_lines_are_marked(lines, segments, verdicts, kept, start);
        assert forall|i: int| 0 <= i < start implies !#[trigger] kept[i] by {
            assert(kept[i] == (decided[i] is Retained));
        }
        lemma_nothing_marked(kept, start);
        lemma_marked_splits(kept, start, lines.len() as int);
        lemma_kept_count(lines, kept);
        assert(installed.len() == chosen.len());
        if again is Some {
            lemma_all_readable(installed, segments, known, again->0);
        }
    }
    assert forall|i: int| 0 <= i < installed.len() implies #[trigger] analysis::fates(
        installed,
        segments,
        known,
        again,
    )[i] is Retained by {
        assert(analysis::is_readable(installed, segments, known, i));
    }
}

/// What is retained, by records and by bytes, is what the marked lines hold.
proof fn lemma_retained_are_marked(lines: Seq<LineView>, fates: Seq<LineFate>, kept: Seq<bool>)
    requires
        fates.len() <= lines.len(),
        fates.len() <= kept.len(),
        forall|i: int| 0 <= i < fates.len() ==> #[trigger] kept[i] == (fates[i] is Retained),
        forall|i: int|
            0 <= i < fates.len() && (#[trigger] fates[i]) is Retained ==> analysis::named_record(
                lines[i],
            ) == Some(fates[i]->Retained_record),
    ensures
        ({
            let chosen = rewrite::kept_lines(lines.take(fates.len() as int), kept);
            &&& analysis::retained_records(fates).len() == chosen.len()
            &&& analysis::retained_lines(lines, fates).len() == chosen.len()
            &&& forall|i: int|
                0 <= i < chosen.len() ==> analysis::named_record(#[trigger] chosen[i]) == Some(
                    analysis::retained_records(fates)[i],
                ) && chosen[i].raw == analysis::retained_lines(lines, fates)[i]
        }),
    decreases fates.len(),
{
    let count = fates.len() as int;
    if count > 0 {
        let shorter = fates.drop_last();
        lemma_retained_are_marked(lines, shorter, kept);
        assert(lines.take(count).drop_last() =~= lines.take(count - 1));
        assert(lines.take(count).last() == lines[count - 1]);
        assert(kept[count - 1] == (fates[count - 1] is Retained));
    } else {
        assert(lines.take(count) =~= Seq::empty());
    }
}

proof fn lemma_no_more_than_all(
    records: Seq<RecordIdentifier>,
    count: int,
    record: RecordIdentifier,
)
    requires
        0 <= count <= records.len(),
    ensures
        proofs::occurrences(records.take(count), record) <= proofs::occurrences(records, record),
    decreases records.len(),
{
    if count == records.len() {
        assert(records.take(count) =~= records);
    } else {
        lemma_no_more_than_all(records.drop_last(), count, record);
        assert(records.drop_last().take(count) =~= records.take(count));
    }
}

/// A pruned journal passes the proof that a run makes in the end: with the lines
/// that an analysis retained installed, and analysed again with the same store
/// and the same bound, no root is lost, every retained line is still there in
/// its order, and nothing is left to remove.
pub proof fn law_a_pruned_journal_passes_the_final_proof(
    lines: Seq<LineView>,
    segments: Set<SegmentIdentifier>,
    reads: spec_fn(RecordIdentifier) -> bool,
    retention: Option<nat>,
    boundary: Option<int>,
    kept: Seq<bool>,
    again: Option<int>,
)
    requires
        analysis::bounded_by(lines, segments, verdicts_of(lines, reads), retention, boundary),
        kept.len() == lines.len(),
        forall|i: int|
            0 <= i < lines.len() ==> #[trigger] kept[i] == (analysis::fates(
                lines,
                segments,
                verdicts_of(lines, reads),
                boundary,
            )[i] is Retained),
        analysis::bounded_by(
            rewrite::installed_lines(lines, kept),
            segments,
            verdicts_of(rewrite::installed_lines(lines, kept), reads),
            retention,
            again,
        ),
    ensures
        ({
            let before = analysis::fates(lines, segments, verdicts_of(lines, reads), boundary);
            let installed = rewrite::installed_lines(lines, kept);
            let after = analysis::fates(installed, segments, verdicts_of(installed, reads), again);
            &&& analysis::retained_records(after) == analysis::retained_records(before)
            &&& forall|i: int|
                0 <= i < analysis::retained_records(before).len()
                    ==> !#[trigger] proofs::root_is_lost(
                    analysis::retained_records(before),
                    analysis::retained_records(after),
                    i,
                )
            &&& proofs::holds_lines(installed, analysis::retained_lines(lines, before))
            &&& analysis::removals(installed, after).len() == 0
        }),
{
    let before = analysis::fates(lines, segments, verdicts_of(lines, reads), boundary);
    let installed = rewrite::installed_lines(lines, kept);
    let after = analysis::fates(installed, segments, verdicts_of(installed, reads), again);
    let chosen = rewrite::kept_lines(lines, kept);
    law_pruning_leaves_nothing_to_prune(
        lines,
        segments,
        reads,
        retention,
        boundary,
        kept,
        again,
    );
    lemma_retained_are_marked(lines, before, kept);
    assert(lines.take(lines.len() as int) =~= lines);
    let every = Seq::new(installed.len(), |i: int| true);
    lemma_retained_are_marked(installed, after, every);
    assert(installed.take(installed.len() as int) =~= installed);
    lemma_everything_marked(installed, every);
    let roots = analysis::retained_records(before);
    let expected = analysis::retained_lines(lines, before);
    assert forall|i: int| 0 <= i < roots.len() implies #[trigger] analysis::retained_records(
        after,
    )[i] == roots[i] by {
        assert(installed[i].class == chosen[i].class);
        assert(analysis::named_record(installed[i]) == analysis::named_record(chosen[i]));
    }
    assert(analysis::retained_records(after) =~= roots);
    assert forall|i: int| 0 <= i < roots.len() implies !#[trigger] proofs::root_is_lost(
        roots,
        roots,
        i,
    ) by {
        lemma_no_more_than_all(roots, i + 1, roots[i]);
    }
    let positions = Seq::new(expected.len(), |i: int| i);
    assert forall|i: int| 0 <= i < positions.len() implies 0 <= #[trigger] positions[i]
        < installed.len() && proofs::line_matches(expected[i], installed[positions[i]].raw) by {
        assert(chosen[i].raw == expected[i]);
        if i < chosen.len() - 1 {
            assert(installed[i] == chosen[i]);
        }
    }
    assert(proofs::leads(expected, installed, positions));
    lemma_nothing_removed(installed, after);
}

proof fn lemma_everything_marked(lines: Seq<LineView>, kept: Seq<bool>)
    requires
        lines.len() <= kept.len(),
        forall|i: int| 0 <= i < kept.len() ==> #[trigger] kept[i],
    ensures
        rewrite::kept_lines(lines, kept) == lines,
    decreases lines.len(),
{
    if lines.len() > 0 {
        lemma_everything_marked(lines.drop_last(), kept);
        assert(kept[lines.len() - 1]);
        assert(lines.drop_last().push(lines.last()) =~= lines);
    } else {
        assert(lines =~= Seq::empty());
    }
}

proof fn lemma_nothing_removed(lines: Seq<LineView>, fates: Seq<LineFate>)
    requires
        forall|i: int| 0 <= i < fates.len() ==> #[trigger] fates[i] is Retained,
    ensures
        analysis::removals(lines, fates).len() == 0,
    decreases fates.len(),
{
    if fates.len() > 0 {
        assert forall|i: int| 0 <= i < fates.drop_last().len() implies #[trigger] fates.drop_last()[i]
            is Retained by {
            assert(fates[i] is Retained);
        }
        lemma_nothing_removed(lines, fates.drop_last());
        assert(fates[fates.len() - 1] is Retained);
    }
}

/// A journal from which a copy retired all history passes the proof that a run
/// makes in the end: it is a single line, and that line names the copied head.
pub proof fn law_a_compacted_journal_passes_the_final_proof(
    lines: Seq<LineView>,
    head: RecordIdentifier,
    index: int,
    kept: Seq<bool>,
)
    requires
        0 <= index < lines.len(),
        analysis::named_record(lines[index]) == Some(head),
        kept.len() == lines.len(),
        forall|i: int| 0 <= i < lines.len() ==> #[trigger] kept[i] == (i == index),
    ensures
        rewrite::installed_lines(lines, kept).len() == 1,
        proofs::lines_naming(rewrite::installed_lines(lines, kept), head) == 1,
{
    let installed = rewrite::installed_lines(lines, kept);
    lemma_kept_count(lines, kept);
    lemma_marked_splits(kept, index, lines.len() as int);
    lemma_nothing_marked(kept, index);
    lemma_marked_from_the_front(kept, index, lines.len() as int);
    lemma_nothing_marked_after(kept, index + 1, lines.len() as int);
    let chosen = rewrite::kept_lines(lines, kept);
    assert(chosen.len() == 1);
    lemma_kept_lines_were_marked(lines, kept, 0);
    let i = choose|i: int| 0 <= i < lines.len() && #[trigger] kept[i] && chosen[0] == lines[i];
    assert(i == index);
    assert(installed[0].class == lines[index].class);
    assert(installed.drop_last() =~= Seq::empty());
    reveal_with_fuel(proofs::lines_naming, 2);
}

proof fn lemma_nothing_marked_after(kept: Seq<bool>, start: int, end: int)
    requires
        0 <= start <= end <= kept.len(),
        forall|i: int| start <= i < end ==> !#[trigger] kept[i],
    ensures
        marked(kept, start, end) == 0,
    decreases end - start,
{
    if start < end {
        lemma_nothing_marked_after(kept, start, end - 1);
        assert(!kept[end - 1]);
    }
}

} // verus!
