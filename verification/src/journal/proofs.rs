//! Proving that every root and byte-exact retained line that a plan promised
//! is still there.
use vstd::prelude::*;
use vstd::slice::*;
use vstd::string::*;
use crate::error::{refusal, Error};
use crate::identifier::RecordIdentifier;
use crate::journal::analysis;
use crate::journal::analysis::{JournalAnalysis, JournalPlan};
use crate::journal::rewrite;
use crate::journal::rewrite::{bytes_equal, JournalRewriteOutcome};
use crate::journal::scan;
use crate::journal::scan::{
    LineView, RawJournal, RawJournalLineClassification, CARRIAGE_RETURN, LINE_FEED,
};
use crate::text;
use crate::text::push_decimal;

verus! {

/// How many of the first lines name a record.
pub open spec fn lines_naming(lines: Seq<LineView>, record: RecordIdentifier) -> nat
    decreases lines.len(),
{
    if lines.len() == 0 {
        0
    } else {
        lines_naming(lines.drop_last(), record) + if analysis::named_record(lines.last()) == Some(
            record,
        ) {
            1nat
        } else {
            0nat
        }
    }
}

/// What an operator reads when no single line names the compacted head.
pub open spec fn head_line_text(count: nat, head: RecordIdentifier) -> Seq<char> {
    if count == 0 {
        "the journal holds no line naming the compacted head "@ + head.text()
    } else {
        "the journal holds "@ + text::decimal(count) + " lines naming the compacted head "@
            + head.text() + "; refusing to choose one"@
    }
}

/// Finds the index of the single physical journal line naming `head`.
///
/// Located by identity rather than by position: the copy appended its line to
/// whatever the journal already held, and a corrupt or duplicated file must be
/// refused rather than guessed at.
pub fn retained_compacted_head_line(raw: &RawJournal, head: RecordIdentifier) -> (located: Result<
    usize,
    Error,
>)
    ensures
        match located {
            Ok(index) => {
                &&& lines_naming(raw.listed(), head) == 1
                &&& index < raw.listed().len()
                &&& analysis::named_record(raw.listed()[index as int]) == Some(head)
            },
            Err(error) => {
                &&& lines_naming(raw.listed(), head) != 1
                &&& error.refuses(head_line_text(lines_naming(raw.listed(), head), head))
            },
        },
{
    let lines = raw.lines();
    let ghost views = raw.listed();
    let mut only: usize = 0;
    let mut count: usize = 0;
    let mut index: usize = 0;
    assert(views.take(0) =~= Seq::empty());
    while index < lines.len()
        invariant
            index <= lines@.len(),
            views == scan::line_views(lines@),
            count == lines_naming(views.take(index as int), head),
            count <= index,
            count > 0 ==> only < index && analysis::named_record(views[only as int]) == Some(head),
        decreases lines@.len() - index,
    {
        assert(views[index as int] == lines@[index as int]@);
        assert(views.take(index as int + 1).drop_last() =~= views.take(index as int));
        let names = match lines[index].classification() {
            RawJournalLineClassification::Record(record) => record.record_identifier == head,
            _ => false,
        };
        if names {
            only = index;
            count = count + 1;
        }
        index = index + 1;
    }
    assert(views.take(index as int) =~= views);
    if count == 1 {
        return Ok(only);
    }
    if count == 0 {
        let mut details = String::from_str("the journal holds no line naming the compacted head ");
        head.push_text(&mut details);
        return Err(Error::InvalidFormat { details });
    }
    let mut details = String::from_str("the journal holds ");
    push_decimal(&mut details, count as u64);
    details.append(" lines naming the compacted head ");
    head.push_text(&mut details);
    details.append("; refusing to choose one");
    assert(details@ =~= head_line_text(count as nat, head));
    Err(Error::InvalidFormat { details })
}

/// How often a record occurs in a list.
pub open spec fn occurrences(records: Seq<RecordIdentifier>, record: RecordIdentifier) -> nat
    decreases records.len(),
{
    if records.len() == 0 {
        0
    } else {
        occurrences(records.drop_last(), record) + if records.last() == record {
            1nat
        } else {
            0nat
        }
    }
}

/// Whether the expected root at a position has no readable line left for it.
pub open spec fn root_is_lost(
    expected: Seq<RecordIdentifier>,
    actual: Seq<RecordIdentifier>,
    position: int,
) -> bool {
    occurrences(expected.take(position + 1), expected[position]) > occurrences(
        actual,
        expected[position],
    )
}

/// What an operator reads when a root is lost.
pub open spec fn lost_root_text(actual: Seq<RecordIdentifier>, root: RecordIdentifier) -> Seq<
    char,
> {
    if occurrences(actual, root) == 0 {
        "cleanup made previously readable journal root "@ + root.text()
            + " unreadable or removed its journal line"@
    } else {
        "cleanup removed a duplicate readable journal line for root "@ + root.text()
    }
}

/// Whether a position is the first with a lost root.
pub open spec fn is_first_loss(
    expected: Seq<RecordIdentifier>,
    actual: Seq<RecordIdentifier>,
    position: int,
) -> bool {
    &&& 0 <= position < expected.len()
    &&& root_is_lost(expected, actual, position)
    &&& forall|i: int| 0 <= i < position ==> !#[trigger] root_is_lost(expected, actual, i)
}

/// How often a record occurs among the first records of a list.
fn count_occurrences(
    records: &Vec<RecordIdentifier>,
    length: usize,
    record: RecordIdentifier,
) -> (count: usize)
    requires
        length <= records@.len(),
    ensures
        count == occurrences(records@.take(length as int), record),
        count <= length,
{
    let mut count: usize = 0;
    let mut index: usize = 0;
    assert(records@.take(0) =~= Seq::empty());
    while index < length
        invariant
            index <= length <= records@.len(),
            count == occurrences(records@.take(index as int), record),
            count <= index,
        decreases length - index,
    {
        assert(records@.take(index as int + 1).drop_last() =~= records@.take(index as int));
        if records[index] == record {
            count = count + 1;
        }
        index = index + 1;
    }
    count
}

/// Checks that every expected root is still readable, as often as before.
pub fn verify_retained_journal_roots(
    expected: &Vec<RecordIdentifier>,
    actual_readable: &Vec<RecordIdentifier>,
) -> (verified: Result<(), Error>)
    ensures
        match verified {
            Ok(_) => forall|i: int|
                0 <= i < expected@.len() ==> !#[trigger] root_is_lost(
                    expected@,
                    actual_readable@,
                    i,
                ),
            Err(error) => exists|position: int| #[trigger]
                is_first_loss(expected@, actual_readable@, position) && error.refuses(
                    lost_root_text(actual_readable@, expected@[position]),
                ),
        },
{
    let mut position: usize = 0;
    while position < expected.len()
        invariant
            position <= expected@.len(),
            forall|i: int|
                0 <= i < position ==> !#[trigger] root_is_lost(expected@, actual_readable@, i),
        decreases expected@.len() - position,
    {
        let root = expected[position];
        let wanted = count_occurrences(expected, position + 1, root);
        let found = count_occurrences(actual_readable, actual_readable.len(), root);
        assert(actual_readable@.take(actual_readable@.len() as int) =~= actual_readable@);
        if wanted > found {
            assert(is_first_loss(expected@, actual_readable@, position as int));
            if found == 0 {
                let mut details = String::from_str("cleanup made previously readable journal root ");
                root.push_text(&mut details);
                details.append(" unreadable or removed its journal line");
                assert(details@ =~= lost_root_text(actual_readable@, root));
                return Err(Error::InvalidFormat { details });
            }
            let mut details = String::from_str(
                "cleanup removed a duplicate readable journal line for root ",
            );
            root.push_text(&mut details);
            assert(details@ =~= lost_root_text(actual_readable@, root));
            return Err(Error::InvalidFormat { details });
        }
        position = position + 1;
    }
    Ok(())
}

/// Whether a line is the expected one: the same bytes, or those bytes and the
/// one line feed that an unterminated line receives.
pub open spec fn line_matches(expected: Seq<u8>, actual: Seq<u8>) -> bool {
    actual == expected || (!rewrite::is_terminated(expected) && actual == expected.push(LINE_FEED))
}

/// Decides whether a line is the expected one.
///
/// A checkpoint append and the byte-preserving rewrite both insert the one
/// separator needed after an originally unterminated final record. No other
/// terminator normalisation is permitted.
pub fn retained_raw_line_matches(expected: &[u8], actual: &[u8]) -> (matches: bool)
    ensures
        matches == line_matches(expected@, actual@),
{
    if bytes_equal(actual, expected) {
        return true;
    }
    if expected.len() > 0 && (expected[expected.len() - 1] == LINE_FEED || expected[expected.len()
        - 1] == CARRIAGE_RETURN) {
        return false;
    }
    if actual.len() == 0 || actual.len() - 1 != expected.len() {
        return false;
    }
    let last: usize = actual.len() - 1;
    if actual[last] != LINE_FEED {
        return false;
    }
    let shorter = slice_subrange(actual, 0, last);
    assert(shorter@.push(LINE_FEED) =~= actual@);
    proof {
        if actual@ == expected@.push(LINE_FEED) {
            assert(shorter@ =~= expected@);
        }
    }
    bytes_equal(shorter, expected)
}

/// Whether the positions lead the expected lines into the journal, in order.
pub open spec fn leads(
    expected: Seq<Seq<u8>>,
    lines: Seq<LineView>,
    positions: Seq<int>,
) -> bool {
    &&& positions.len() == expected.len()
    &&& forall|i: int|
        0 <= i < positions.len() ==> 0 <= #[trigger] positions[i] < lines.len() && line_matches(
            expected[i],
            lines[positions[i]].raw,
        )
    &&& forall|i: int, j: int|
        0 <= i < j < positions.len() ==> #[trigger] positions[i] < #[trigger] positions[j]
}

/// Whether the journal still holds the expected lines, in their order.
pub open spec fn holds_lines(lines: Seq<LineView>, expected: Seq<Seq<u8>>) -> bool {
    exists|positions: Seq<int>| #[trigger] leads(expected, lines, positions)
}

proof fn lemma_step_matched(
    lines: Seq<LineView>,
    expected: Seq<Seq<u8>>,
    index: int,
    wanted: int,
    positions: Seq<int>,
)
    requires
        0 <= index < lines.len(),
        0 <= wanted < expected.len(),
        leads(expected.take(wanted), lines.take(index), positions),
        line_matches(expected[wanted], lines[index].raw),
    ensures
        leads(expected.take(wanted + 1), lines.take(index + 1), positions.push(index)),
{
    let longer = positions.push(index);
    let more = expected.take(wanted + 1);
    assert forall|i: int| 0 <= i < longer.len() implies 0 <= #[trigger] longer[i] < lines.take(
        index + 1,
    ).len() && line_matches(more[i], lines.take(index + 1)[longer[i]].raw) by {
        if i < wanted {
            assert(longer[i] == positions[i]);
            assert(lines.take(index)[positions[i]] == lines[positions[i]]);
            assert(expected.take(wanted)[i] == more[i]);
        }
    }
}

/// No more expected lines lead into the journal's first lines than a greedy
/// search finds.
spec fn at_most(lines: Seq<LineView>, expected: Seq<Seq<u8>>, index: int, wanted: int) -> bool {
    forall|count: int, positions: Seq<int>|
        0 <= count <= expected.len() && #[trigger] leads(
            expected.take(count),
            lines.take(index),
            positions,
        ) ==> count <= wanted
}

proof fn lemma_step_bound(
    lines: Seq<LineView>,
    expected: Seq<Seq<u8>>,
    index: int,
    wanted: int,
    next_wanted: int,
)
    requires
        0 <= index < lines.len(),
        0 <= wanted <= expected.len(),
        at_most(lines, expected, index, wanted),
        next_wanted == if wanted < expected.len() && line_matches(
            expected[wanted],
            lines[index].raw,
        ) {
            wanted + 1
        } else {
            wanted
        },
    ensures
        at_most(lines, expected, index + 1, next_wanted),
{
    assert forall|count: int, positions: Seq<int>|
        0 <= count <= expected.len() && #[trigger] leads(
            expected.take(count),
            lines.take(index + 1),
            positions,
        ) implies count <= next_wanted by {
        if count > 0 {
            let last = positions[count - 1];
            let shorter = positions.drop_last();
            if last < index {
                assert forall|i: int| 0 <= i < positions.len() implies 0 <= #[trigger] positions[i]
                    < lines.take(index).len() && line_matches(
                    expected.take(count)[i],
                    lines.take(index)[positions[i]].raw,
                ) by {
                    assert(lines.take(index + 1)[positions[i]] == lines[positions[i]]);
                    if i < count - 1 {
                        assert(positions[i] < positions[count - 1]);
                    }
                }
                assert(leads(expected.take(count), lines.take(index), positions));
            } else {
                assert forall|i: int| 0 <= i < shorter.len() implies 0 <= #[trigger] shorter[i]
                    < lines.take(index).len() && line_matches(
                    expected.take(count - 1)[i],
                    lines.take(index)[shorter[i]].raw,
                ) by {
                    assert(positions[i] < positions[count - 1]);
                    assert(lines.take(index + 1)[positions[i]] == lines[positions[i]]);
                    assert(expected.take(count)[i] == expected[i]);
                }
                assert forall|i: int, j: int| 0 <= i < j < shorter.len() implies
                    #[trigger] shorter[i] < #[trigger] shorter[j] by {
                    assert(positions[i] < positions[j]);
                }
                assert(leads(expected.take(count - 1), lines.take(index), shorter));
                assert(count - 1 <= wanted);
                assert(line_matches(expected.take(count)[count - 1], lines.take(index + 1)[last].raw));
                assert(lines.take(index + 1)[last] == lines[index]);
            }
        }
    }
}

/// Checks that the journal still holds every expected line byte for byte, in
/// the expected order.
pub fn verify_retained_journal_lines(journal: &RawJournal, expected: &Vec<Vec<u8>>) -> (verified:
    Result<(), Error>)
    ensures
        match verified {
            Ok(_) => holds_lines(journal.listed(), analysis::byte_views(expected@)),
            Err(error) => {
                &&& !holds_lines(journal.listed(), analysis::byte_views(expected@))
                &&& error.refuses(
                    "cleanup did not preserve every previously readable physical journal line byte-for-byte, with its original terminator and order"@,
                )
            },
        },
{
    let lines = journal.lines();
    let ghost views = journal.listed();
    let ghost wanted_lines = analysis::byte_views(expected@);
    let mut wanted: usize = 0;
    let mut index: usize = 0;
    let ghost mut positions: Seq<int> = Seq::empty();
    assert forall|count: int, found: Seq<int>|
        0 <= count <= wanted_lines.len() && #[trigger] leads(
            wanted_lines.take(count),
            views.take(0),
            found,
        ) implies count <= 0 by {
        if count > 0 {
            assert(0 <= found[0] < views.take(0).len());
        }
    }
    while index < lines.len()
        invariant
            index <= lines@.len(),
            views == scan::line_views(lines@),
            wanted_lines == analysis::byte_views(expected@),
            wanted <= expected@.len(),
            leads(wanted_lines.take(wanted as int), views.take(index as int), positions),
            at_most(views, wanted_lines, index as int, wanted as int),
        decreases lines@.len() - index,
    {
        assert(views[index as int] == lines@[index as int]@);
        proof {
            let matched = wanted < wanted_lines.len() && line_matches(
                wanted_lines[wanted as int],
                views[index as int].raw,
            );
            lemma_step_bound(
                views,
                wanted_lines,
                index as int,
                wanted as int,
                if matched { wanted + 1 } else { wanted as int },
            );
        }
        if wanted < expected.len() && retained_raw_line_matches(
            expected[wanted].as_slice(),
            lines[index].raw_bytes(),
        ) {
            proof {
                lemma_step_matched(views, wanted_lines, index as int, wanted as int, positions);
                positions = positions.push(index as int);
            }
            wanted = wanted + 1;
        } else {
            assert forall|i: int| 0 <= i < positions.len() implies 0 <= #[trigger] positions[i]
                < views.take(index as int + 1).len() && line_matches(
                wanted_lines.take(wanted as int)[i],
                views.take(index as int + 1)[positions[i]].raw,
            ) by {
                assert(views.take(index as int)[positions[i]] == views[positions[i]]);
            }
        }
        index = index + 1;
    }
    assert(views.take(index as int) =~= views);
    assert(wanted_lines.take(wanted_lines.len() as int) =~= wanted_lines);
    if wanted < expected.len() {
        proof {
            if holds_lines(views, wanted_lines) {
                let found = choose|found: Seq<int>| #[trigger] leads(wanted_lines, views, found);
                assert(leads(
                    wanted_lines.take(wanted_lines.len() as int),
                    views.take(index as int),
                    found,
                ));
            }
        }
        return Err(
            refusal(
                "cleanup did not preserve every previously readable physical journal line byte-for-byte, with its original terminator and order",
            ),
        );
    }
    Ok(())
}

/// What the journal contributes to deciding whether a store is already
/// compact: whether it holds exactly one line, and that line names the head.
#[derive(Clone, Copy, Debug, PartialEq, Eq, Structural)]
pub struct JournalConvergence {
    /// Whether the journal is a single line naming the head.
    pub single_line_naming_head: bool,
}

/// Whether a journal is what a completed copy leaves: one line, which names the
/// head.
pub open spec fn converges(lines: Seq<LineView>, head: RecordIdentifier) -> bool {
    lines.len() == 1 && analysis::named_record(lines[0]) == Some(head)
}

/// A single line that names the head is what a completed copy leaves.
pub proof fn lemma_single_line_converges(lines: Seq<LineView>, head: RecordIdentifier)
    requires
        lines.len() == 1,
        lines_naming(lines, head) == 1,
    ensures
        converges(lines, head),
{
    reveal_with_fuel(lines_naming, 2);
    assert(lines.drop_last() =~= Seq::empty());
}

/// Reads the convergence of a journal: a completed compaction leaves exactly
/// one line naming its head, so anything else means history still to retire.
pub fn journal_convergence_of(
    raw_journal: &RawJournal,
    current_head: RecordIdentifier,
) -> (convergence: JournalConvergence)
    ensures
        convergence.single_line_naming_head == converges(raw_journal.listed(), current_head),
{
    let lines = raw_journal.lines();
    let single_line_naming_head = if lines.len() == 1 {
        assert(raw_journal.listed()[0] == lines@[0]@);
        match lines[0].classification() {
            RawJournalLineClassification::Record(record) => record.record_identifier
                == current_head,
            _ => false,
        }
    } else {
        false
    };
    JournalConvergence { single_line_naming_head }
}

/// What a run does to the journal.
#[derive(Debug)]
pub enum JournalRewriteDecision {
    /// Nothing; the outcome is known.
    Unchanged(JournalRewriteOutcome),
    /// Install only the lines with these indexes.
    Rewrite {
        /// The indexes of the lines that stay.
        retained_indexes: Vec<usize>,
    },
}

/// A decision to rewrite leaves lines out.
pub open spec fn removes_lines(decision: JournalRewriteDecision, lines: nat) -> bool {
    decision matches JournalRewriteDecision::Rewrite { retained_indexes } ==> retained_indexes@.len()
        < lines
}

/// An outcome is that of a decision over so many lines.
pub open spec fn is_outcome_of(
    outcome: JournalRewriteOutcome,
    decision: JournalRewriteDecision,
    lines: nat,
) -> bool {
    match decision {
        JournalRewriteDecision::Unchanged(known) => {
            &&& outcome.changed == known.changed
            &&& outcome.backup_path is Some <==> known.backup_path is Some
            &&& outcome.retained_record_count == known.retained_record_count
            &&& outcome.removed_line_count == known.removed_line_count
            &&& outcome.bytes_written == known.bytes_written
        },
        JournalRewriteDecision::Rewrite { retained_indexes } => {
            &&& outcome.changed
            &&& outcome.backup_path is Some
            &&& outcome.retained_record_count == retained_indexes@.len()
            &&& outcome.removed_line_count + retained_indexes@.len() == lines
        },
    }
}

impl JournalRewriteDecision {
    /// Whether an outcome is that of this decision over so many lines.
    pub fn came_to(&self, outcome: &JournalRewriteOutcome, lines: usize) -> (came: bool)
        ensures
            came == is_outcome_of(*outcome, *self, lines as nat),
    {
        match self {
            JournalRewriteDecision::Unchanged(known) => outcome.changed == known.changed
                && outcome.backup_path.is_some() == known.backup_path.is_some()
                && outcome.retained_record_count == known.retained_record_count
                && outcome.removed_line_count == known.removed_line_count && outcome.bytes_written
                == known.bytes_written,
            JournalRewriteDecision::Rewrite { retained_indexes } => outcome.changed
                && outcome.backup_path.is_some() && outcome.retained_record_count
                == retained_indexes.len() && retained_indexes.len() <= lines
                && outcome.removed_line_count == lines - retained_indexes.len(),
        }
    }
}

/// An outcome of a rewrite that changed nothing.
pub open spec fn is_unchanged(
    decision: JournalRewriteDecision,
    retained_record_count: nat,
    bytes_written: nat,
) -> bool {
    decision matches JournalRewriteDecision::Unchanged(outcome) && {
        &&& !outcome.changed
        &&& outcome.backup_path is None
        &&& outcome.retained_record_count == retained_record_count
        &&& outcome.removed_line_count == 0
        &&& outcome.bytes_written == bytes_written
    }
}

fn unchanged(retained_record_count: usize, bytes_written: usize) -> (decision:
    JournalRewriteDecision)
    ensures
        is_unchanged(decision, retained_record_count as nat, bytes_written as nat),
{
    JournalRewriteDecision::Unchanged(
        JournalRewriteOutcome {
            changed: false,
            backup_path: None,
            retained_record_count,
            removed_line_count: 0,
            bytes_written,
        },
    )
}

/// The line that a compacted journal must hold: the content of the line naming
/// the published head.
pub open spec fn head_content(lines: Seq<LineView>, index: int) -> Seq<u8> {
    lines[index].raw.take(lines[index].content_length as int)
}

/// What a run that compacted may decide: keep the one line naming the published
/// head, and nothing else.
pub open spec fn retires_history(
    raw: RawJournal,
    head_after: RecordIdentifier,
    decision: JournalRewriteDecision,
) -> bool {
    &&& lines_naming(raw.listed(), head_after) == 1
    &&& removes_lines(decision, raw.listed().len())
    &&& exists|index: int|
        0 <= index < raw.listed().len() && analysis::named_record(#[trigger] raw.listed()[index])
            == Some(head_after) && holds_lines(
            raw.listed(),
            seq![head_content(raw.listed(), index)],
        ) && if raw.listed().len() == 1 {
            is_unchanged(decision, 1, raw.source().len())
        } else {
            decision matches JournalRewriteDecision::Rewrite { retained_indexes }
                && retained_indexes@ == seq![index as usize]
        }
}

/// Why a run that compacted leaves the journal alone.
pub open spec fn refuses_retiring(
    raw: RawJournal,
    head_after: RecordIdentifier,
    error: Error,
) -> bool {
    ||| lines_naming(raw.listed(), head_after) != 1 && error.refuses(
        head_line_text(lines_naming(raw.listed(), head_after), head_after),
    )
    ||| lines_naming(raw.listed(), head_after) == 1 && (exists|index: int|
        0 <= index < raw.listed().len() && analysis::named_record(#[trigger] raw.listed()[index])
            == Some(head_after) && !holds_lines(
            raw.listed(),
            seq![head_content(raw.listed(), index)],
        )) && error.refuses(
        "cleanup did not preserve every previously readable physical journal line byte-for-byte, with its original terminator and order"@,
    )
}

/// Decides the rewrite of a run that compacted: keep the one line naming the
/// published head, and nothing else.
pub fn compacted_journal_rewrite(raw: &RawJournal, head_after: RecordIdentifier) -> (decided: Result<
    JournalRewriteDecision,
    Error,
>)
    requires
        raw.well_formed(),
    ensures
        match decided {
            Ok(decision) => retires_history(*raw, head_after, decision),
            Err(error) => refuses_retiring(*raw, head_after, error),
        },
{
    let retained = retained_compacted_head_line(raw, head_after)?;
    let lines = raw.lines();
    proof {
        scan::law_line_shape(raw.source(), retained as int);
        assert(raw.listed()[retained as int] == lines@[retained as int]@);
    }
    let mut expected: Vec<Vec<u8>> = Vec::new();
    expected.push(slice_to_vec(lines[retained].content_bytes()));
    assert(analysis::byte_views(expected@) =~= seq![head_content(raw.listed(), retained as int)]);
    verify_retained_journal_lines(raw, &expected)?;
    if lines.len() == 1 {
        Ok(unchanged(1, raw.source_bytes().len()))
    } else {
        let mut retained_indexes: Vec<usize> = Vec::new();
        retained_indexes.push(retained);
        assert(retained_indexes@ =~= seq![retained]);
        Ok(JournalRewriteDecision::Rewrite { retained_indexes })
    }
}

/// What a run that only prunes may decide: keep what a fresh analysis retains,
/// which still holds every root and every line that the plan promised.
pub open spec fn prunes_history(
    raw: RawJournal,
    planned: JournalPlan,
    fresh: JournalAnalysis,
    decision: JournalRewriteDecision,
) -> bool {
    &&& forall|i: int|
        0 <= i < planned.retained_record_ids@.len() ==> !#[trigger] root_is_lost(
            planned.retained_record_ids@,
            fresh.retained_record_ids@,
            i,
        )
    &&& holds_lines(raw.listed(), analysis::byte_views(planned.retained_raw_lines@))
    &&& if fresh.plan.removed_lines == 0 {
        is_unchanged(decision, fresh.retained_indexes@.len(), raw.source().len())
    } else {
        decision matches JournalRewriteDecision::Rewrite { retained_indexes } && retained_indexes
            == fresh.retained_indexes
    }
    &&& fresh.plan.removed_lines + fresh.retained_indexes@.len() == raw.listed().len()
        ==> removes_lines(decision, raw.listed().len())
}

/// Why a run that only prunes leaves the journal alone.
pub open spec fn refuses_pruning(
    raw: RawJournal,
    planned: JournalPlan,
    fresh: JournalAnalysis,
    error: Error,
) -> bool {
    ||| exists|position: int| #[trigger]
        is_first_loss(planned.retained_record_ids@, fresh.retained_record_ids@, position)
            && error.refuses(
            lost_root_text(fresh.retained_record_ids@, planned.retained_record_ids@[position]),
        )
    ||| (forall|i: int|
        0 <= i < planned.retained_record_ids@.len() ==> !#[trigger] root_is_lost(
            planned.retained_record_ids@,
            fresh.retained_record_ids@,
            i,
        )) && !holds_lines(raw.listed(), analysis::byte_views(planned.retained_raw_lines@))
        && error.refuses(
        "cleanup did not preserve every previously readable physical journal line byte-for-byte, with its original terminator and order"@,
    )
}

/// Decides the rewrite of a run that only prunes: earlier work ran after the
/// plan was confirmed, so a fresh analysis must still find every root and
/// every line that the plan promised before a line may go.
pub fn pruned_journal_rewrite(
    raw: &RawJournal,
    planned: &JournalPlan,
    fresh: JournalAnalysis,
) -> (decided: Result<JournalRewriteDecision, Error>)
    ensures
        match decided {
            Ok(decision) => prunes_history(*raw, *planned, fresh, decision),
            Err(error) => refuses_pruning(*raw, *planned, fresh, error),
        },
{
    verify_retained_journal_roots(&planned.retained_record_ids, &fresh.retained_record_ids)?;
    verify_retained_journal_lines(raw, &planned.retained_raw_lines)?;
    if fresh.plan.removed_lines == 0 {
        Ok(unchanged(fresh.retained_indexes.len(), raw.source_bytes().len()))
    } else {
        Ok(JournalRewriteDecision::Rewrite { retained_indexes: fresh.retained_indexes })
    }
}

} // verus!
