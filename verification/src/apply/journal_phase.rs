//! What a run does to the journal, and what it must leave behind.
use vstd::prelude::*;
use vstd::string::*;
use crate::error::Error;
use crate::identifier::RecordIdentifier;
use crate::journal::analysis;
use crate::journal::analysis::{JournalAnalysis, JournalPlan};
use crate::journal::proofs;
use crate::journal::proofs::{
    retained_compacted_head_line, verify_retained_journal_lines, verify_retained_journal_roots,
};
use crate::journal::rewrite::JournalRewriteOutcome;
use crate::journal::scan::RawJournal;
use crate::text;
use crate::text::push_decimal;

verus! {

/// What the journal's stage of a run does.
#[derive(Clone, Copy, Debug, PartialEq, Eq, Structural)]
pub enum JournalWork {
    /// Keep only the line that names the copied head.
    RetireHistory {
        /// The copied head.
        head: RecordIdentifier,
    },
    /// Keep what a fresh analysis retains.
    Prune,
    /// Nothing.
    Leave,
}

/// What the journal's stage of a run does: a copy retires all history, and
/// without one the journal's task prunes it.
pub open spec fn work_of(compacted_head: Option<RecordIdentifier>, prunes: bool) -> JournalWork {
    match compacted_head {
        Some(head) => JournalWork::RetireHistory { head },
        None => if prunes {
            JournalWork::Prune
        } else {
            JournalWork::Leave
        },
    }
}

/// Decides what the journal's stage of a run does.
pub fn journal_work(compacted_head: Option<RecordIdentifier>, prunes: bool) -> (work: JournalWork)
    ensures
        work == work_of(compacted_head, prunes),
{
    match compacted_head {
        Some(head) => JournalWork::RetireHistory { head },
        None => if prunes {
            JournalWork::Prune
        } else {
            JournalWork::Leave
        },
    }
}

/// The outcome of a stage that did nothing.
pub fn untouched_journal() -> (outcome: JournalRewriteOutcome)
    ensures
        !outcome.changed,
        outcome.backup_path is None,
        outcome.retained_record_count == 0,
        outcome.removed_line_count == 0,
        outcome.bytes_written == 0,
{
    JournalRewriteOutcome {
        changed: false,
        backup_path: None,
        retained_record_count: 0,
        removed_line_count: 0,
        bytes_written: 0,
    }
}

/// What an operator reads when a fresh reopen selects another head.
pub open spec fn other_final_head_text(
    expected: RecordIdentifier,
    selected: RecordIdentifier,
) -> Seq<char> {
    "cleanup expected final head "@ + expected.text() + ", but fresh reopen selected "@
        + selected.text()
}

/// Refuses a store that reopens at another head than the run must end at.
pub fn require_final_head(expected: RecordIdentifier, selected: RecordIdentifier) -> (checked:
    Result<(), Error>)
    ensures
        match checked {
            Ok(_) => expected == selected,
            Err(error) => expected != selected && error.refuses(
                other_final_head_text(expected, selected),
            ),
        },
{
    if expected == selected {
        return Ok(());
    }
    let mut details = String::from_str("cleanup expected final head ");
    expected.push_text(&mut details);
    details.append(", but fresh reopen selected ");
    selected.push_text(&mut details);
    assert(details@ =~= other_final_head_text(expected, selected));
    Err(Error::InvalidFormat { details })
}

/// What an operator reads when a copy left more or fewer lines than one.
pub open spec fn line_count_text(count: nat) -> Seq<char> {
    "a completed compaction left "@ + text::decimal(count) + " journal lines instead of one"@
}

/// What an operator reads when pruning left lines that it should have removed.
pub open spec fn leftover_text(count: nat) -> Seq<char> {
    "journal cleanup left "@ + text::decimal(count)
        + " removable physical lines after its atomic rewrite"@
}

/// No planned root is lost.
pub open spec fn keeps_roots(planned: JournalPlan, fresh: JournalAnalysis) -> bool {
    forall|i: int|
        0 <= i < planned.retained_record_ids@.len() ==> !#[trigger] proofs::root_is_lost(
            planned.retained_record_ids@,
            fresh.retained_record_ids@,
            i,
        )
}

/// The journal that a run leaves is as it must be.
pub open spec fn final_journal_holds(
    raw: RawJournal,
    compacted_head: Option<RecordIdentifier>,
    prunes: bool,
    planned: JournalPlan,
    fresh: JournalAnalysis,
) -> bool {
    match compacted_head {
        Some(head) => raw.listed().len() == 1 && proofs::lines_naming(raw.listed(), head) == 1,
        None => {
            &&& keeps_roots(planned, fresh)
            &&& prunes ==> fresh.plan.removed_lines == 0
            &&& proofs::holds_lines(
                raw.listed(),
                analysis::byte_views(planned.retained_raw_lines@),
            )
        },
    }
}

/// What is said of a journal that is not as it must be.
pub open spec fn final_journal_refusal(
    error: Error,
    raw: RawJournal,
    compacted_head: Option<RecordIdentifier>,
    prunes: bool,
    planned: JournalPlan,
    fresh: JournalAnalysis,
) -> bool {
    match compacted_head {
        Some(head) => if raw.listed().len() != 1 {
            error.refuses(line_count_text(raw.listed().len()))
        } else {
            error.refuses(
                proofs::head_line_text(proofs::lines_naming(raw.listed(), head), head),
            )
        },
        None => if !keeps_roots(planned, fresh) {
            exists|position: int| #[trigger]
                proofs::is_first_loss(
                    planned.retained_record_ids@,
                    fresh.retained_record_ids@,
                    position,
                ) && error.refuses(
                    proofs::lost_root_text(
                        fresh.retained_record_ids@,
                        planned.retained_record_ids@[position],
                    ),
                )
        } else if prunes && fresh.plan.removed_lines != 0 {
            error.refuses(leftover_text(fresh.plan.removed_lines as nat))
        } else {
            error.refuses(
                "cleanup did not preserve every previously readable physical journal line byte-for-byte, with its original terminator and order"@,
            )
        },
    }
}

/// Proves the journal that a run leaves, read and analysed afresh: a single line
/// naming the copied head, or every root and every line that the plan promised
/// and, after pruning, nothing that should have gone.
pub fn verify_final_journal(
    raw: &RawJournal,
    compacted_head: Option<RecordIdentifier>,
    prunes: bool,
    planned: &JournalPlan,
    fresh: &JournalAnalysis,
) -> (verified: Result<(), Error>)
    requires
        raw.well_formed(),
    ensures
        match verified {
            Ok(_) => final_journal_holds(*raw, compacted_head, prunes, *planned, *fresh),
            Err(error) => !final_journal_holds(*raw, compacted_head, prunes, *planned, *fresh)
                && final_journal_refusal(
                error,
                *raw,
                compacted_head,
                prunes,
                *planned,
                *fresh,
            ),
        },
{
    match compacted_head {
        Some(head) => {
            let count: usize = raw.lines().len();
            if count != 1 {
                let mut details = String::from_str("a completed compaction left ");
                push_decimal(&mut details, count as u64);
                details.append(" journal lines instead of one");
                assert(details@ =~= line_count_text(raw.listed().len()));
                return Err(Error::InvalidFormat { details });
            }
            match retained_compacted_head_line(raw, head) {
                Ok(_) => Ok(()),
                Err(error) => Err(error),
            }
        },
        None => {
            match verify_retained_journal_roots(
                &planned.retained_record_ids,
                &fresh.retained_record_ids,
            ) {
                Ok(_) => {},
                Err(error) => {
                    return Err(error);
                },
            }
            if prunes && fresh.plan.removed_lines != 0 {
                let mut details = String::from_str("journal cleanup left ");
                push_decimal(&mut details, fresh.plan.removed_lines as u64);
                details.append(" removable physical lines after its atomic rewrite");
                assert(details@ =~= leftover_text(fresh.plan.removed_lines as nat));
                return Err(Error::InvalidFormat { details });
            }
            verify_retained_journal_lines(raw, &planned.retained_raw_lines)
        },
    }
}

} // verus!
