//! What the messages of a run say, and of what.
use vstd::prelude::*;
use vstd::string::*;
use vstd::utf8::*;
use crate::apply::compaction_phase;
use crate::apply::compaction_phase::{CompactionPhaseOutcome, HeadMutation};
use crate::apply::journal_phase;
use crate::apply_identity;
use crate::error::Error;
use crate::file_removal;
use crate::generations;
use crate::identifier::{RecordIdentifier, SegmentIdentifier};
use crate::indexless_refusal;
use crate::indexless_refusal::{ArchiveFacts, IndexlessArchive};
use crate::journal::analysis;
use crate::journal::analysis::{JournalAnalysis, JournalPlan};
use crate::journal::proofs;
use crate::journal::scan::RawJournal;
use crate::plan::DeletionFailureView;
use crate::planning::head_verification;
use crate::planning::segments;
use crate::planning::segments::SweepTally;
use crate::planning::survey;
use crate::prepared;
use crate::reclamation;
use crate::text;

verus! {

/// The messages about a head name the head, and what it lacks or was expected to be.
pub proof fn law_messages_about_a_head_name_it(
    head: RecordIdentifier,
    other: RecordIdentifier,
    name: Seq<char>,
)
    ensures
        head_verification::not_a_node_text(head) == "current journal head "@ + head.text()
            + " is not a node record"@,
        head_verification::no_content_text(head) == "journal root "@ + head.text()
            + " has no content \"root\" child node"@,
        head_verification::no_snapshot_text(name, head) == "checkpoint "@ + name
            + " under journal root "@ + head.text() + " has no snapshot \"root\" child node"@,
        compaction_phase::other_head_text(HeadMutation::Copy, head, other)
            == "the compaction phase expected head "@ + head.text()
            + ", but strict writable open selected "@ + other.text(),
        compaction_phase::other_head_text(HeadMutation::CheckpointRemoval, head, other)
            == "cleanup expected checkpoint base head "@ + head.text()
            + ", but strict writable open selected "@ + other.text(),
        journal_phase::other_final_head_text(head, other) == "cleanup expected final head "@
            + head.text() + ", but fresh reopen selected "@ + other.text(),
        compaction_phase::no_generation_text(head.segment) == "the head segment "@
            + head.segment.text() + " carries no generation triple"@,
{
}

/// The messages about counts give the counts.
pub proof fn law_messages_about_counts_give_them(planned: nat, removed: u64, stem: Seq<char>)
    ensures
        compaction_phase::other_count_text(planned, removed) == "cleanup planned to remove "@
            + text::decimal(planned) + " checkpoints, but the locked head contained "@
            + text::decimal(removed as nat),
        journal_phase::leftover_text(planned) == "journal cleanup left "@ + text::decimal(planned)
            + " removable physical lines after its atomic rewrite"@,
        journal_phase::line_count_text(planned) == "a completed compaction left "@ + text::decimal(
            planned,
        ) + " journal lines instead of one"@,
        survey::bound_beside_checkpoints_text(planned)
            == "a journal revision retention bound cannot run beside the removal of "@
            + text::decimal(planned)
            + " checkpoint(s): checkpoint removal moves the head and appends a journal line, which would put the bound's newest revision beyond the one this plan retained — remove the checkpoints first, then bound the journal in a second run"@,
        survey::exhausted_text(stem) == "all numbered names for "@ + stem
            + " (000-999) are occupied"@,
        reclamation::overflow_text() == "cleanup byte estimate overflow"@,
{
}

/// The messages about files name the file, and what is wrong with it.
pub proof fn law_messages_about_files_name_them(
    file_name: Seq<char>,
    segment: SegmentIdentifier,
    owner: u32,
    effective_uid: u32,
    failure: DeletionFailureView,
    error: Error,
)
    ensures
        generations::unindexed_text(file_name, segment) == "active archive "@ + file_name
            + " has no index metadata for its own segment "@ + segment.text()
            + "; refusing generation cleanup"@,
        apply_identity::service_user_text(file_name, owner, effective_uid)
            == "cleanup must run as the repository service user: "@ + file_name
            + " is owned by uid "@ + text::decimal(owner as nat) + ", but the effective uid is "@
            + text::decimal(effective_uid as nat),
        file_removal::stopped_by(error, failure) <==> error is InvalidFormat && error.message()
            == "invalid segment-tar data: "@ + ("planned cleanup deletion of "@ + failure.file_name
            + " failed: "@ + failure.error),
{
    let said = "planned cleanup deletion of "@ + failure.file_name + " failed: "@ + failure.error;
    if error is InvalidFormat && error.message() == "invalid segment-tar data: "@ + said {
        let from = "invalid segment-tar data: "@.len() as int;
        assert(error.message().skip(from) =~= error->InvalidFormat_details@);
        assert(("invalid segment-tar data: "@ + said).skip(from) =~= said);
    }
}

/// What a sweep is told to come to gives what it removes and what it rewrites, each only
/// where there is some, and in the singular for one archive.
pub proof fn law_a_sweep_is_told_in_its_parts(
    tally: SweepTally,
    removed_count: Seq<char>,
    removed_size: Seq<char>,
    rewritten_count: Seq<char>,
    rewritten_size: Seq<char>,
)
    ensures
        ({
            let told = segments::sweep_text(
                tally,
                removed_count,
                removed_size,
                rewritten_count,
                rewritten_size,
            );
            let removes = "removes "@ + (removed_count + if tally.removed_archives == 1 {
                " archive"@
            } else {
                " archives"@
            }) + " ("@ + removed_size + ")"@;
            let rewrites = "rewrites "@ + (rewritten_count + if tally.rewritten_archives == 1 {
                " archive"@
            } else {
                " archives"@
            }) + " ("@ + rewritten_size + " of entries)"@;
            &&& tally.removed_archives == 0 && tally.rewritten_archives == 0 ==> told
                == "the sweep has nothing to reclaim"@
            &&& tally.removed_archives > 0 && tally.rewritten_archives == 0 ==> told
                == "the sweep "@ + removes
            &&& tally.removed_archives == 0 && tally.rewritten_archives > 0 ==> told
                == "the sweep "@ + rewrites
            &&& tally.removed_archives > 0 && tally.rewritten_archives > 0 ==> told
                == "the sweep "@ + removes + " and "@ + rewrites
        }),
{
}

/// What the head reaches is told with the binary blocks only where there are some.
pub proof fn law_reach_is_told_with_blocks_where_there_are_some(
    bulk_bytes: u64,
    data_size: Seq<char>,
    bulk_size: Seq<char>,
)
    ensures
        bulk_bytes == 0 ==> segments::reach_text(bulk_bytes, data_size, bulk_size)
            == "the head reaches "@ + data_size + " of node data"@,
        bulk_bytes > 0 ==> segments::reach_text(bulk_bytes, data_size, bulk_size)
            == "the head reaches "@ + data_size + " of node data and "@ + bulk_size
            + " of shared binary blocks"@,
{
}

/// A completed copy owes the log its own line, in bytes; a run without a copy owes it
/// nothing. The message tells the two apart.
pub proof fn law_a_copy_owes_the_log_its_line(phase: CompactionPhaseOutcome)
    ensures
        compaction_phase::entry_of(Some(phase)) == Some(
            encode_utf8(phase.garbage_collection_entry@),
        ),
        compaction_phase::entry_of(None) is None,
        compaction_phase::cycle_log_text(true)
            == "the completed compaction did not append exactly its own gc.log entry"@,
        compaction_phase::cycle_log_text(false)
            == "a run that did not compact changed gc.log, which is reserved for completed compaction cycles"@,
{
}

/// A failure after rebuilt archives tells of them; without any it stays what it was.
pub proof fn law_a_failure_tells_of_rebuilt_archives(
    raised: Error,
    failure: Error,
    repaired: Seq<Seq<char>>,
)
    requires
        prepared::after_repairs(raised, failure, repaired),
    ensures
        repaired.len() == 0 ==> raised == failure,
        repaired.len() > 0 ==> raised.message() == "invalid segment-tar data: "@ + (
        failure.message() + " This refusal came after "@ + text::decimal(repaired.len())
            + " archive index rebuild(s), which are already durable: "@ + text::joined(
            repaired,
            ", "@,
        )
            + ". The originals are retained under `.bak` names, and those archives need no second attempt."@),
{
}

/// A journal that fails the final proof is refused for what is wrong with it: after a
/// copy, that it has not one line, or that its line does not name the copied head; and
/// otherwise a lost root, a line that should have gone, or a line that is gone.
pub proof fn law_the_final_proof_says_what_is_wrong(
    error: Error,
    raw: RawJournal,
    compacted_head: Option<RecordIdentifier>,
    prunes: bool,
    planned: JournalPlan,
    fresh: JournalAnalysis,
)
    requires
        journal_phase::final_journal_refusal(error, raw, compacted_head, prunes, planned, fresh),
        !journal_phase::final_journal_holds(raw, compacted_head, prunes, planned, fresh),
    ensures
        compacted_head is Some && raw.listed().len() != 1 ==> error.message()
            == "invalid segment-tar data: "@ + ("a completed compaction left "@ + text::decimal(
            raw.listed().len(),
        ) + " journal lines instead of one"@),
        compacted_head matches Some(head) && raw.listed().len() == 1 && proofs::lines_naming(
            raw.listed(),
            head,
        ) == 0 ==> error.message() == "invalid segment-tar data: "@ + (
        "the journal holds no line naming the compacted head "@ + compacted_head->0.text()),
        compacted_head is None && prunes && fresh.plan.removed_lines != 0 && (forall|i: int|
            0 <= i < planned.retained_record_ids@.len() ==> !#[trigger] proofs::root_is_lost(
                planned.retained_record_ids@,
                fresh.retained_record_ids@,
                i,
            )) ==> error.message() == "invalid segment-tar data: "@ + ("journal cleanup left "@
            + text::decimal(fresh.plan.removed_lines as nat)
            + " removable physical lines after its atomic rewrite"@),
        compacted_head is None && (!prunes || fresh.plan.removed_lines == 0) && (forall|i: int|
            0 <= i < planned.retained_record_ids@.len() ==> !#[trigger] proofs::root_is_lost(
                planned.retained_record_ids@,
                fresh.retained_record_ids@,
                i,
            )) ==> !proofs::holds_lines(
            raw.listed(),
            analysis::byte_views(planned.retained_raw_lines@),
        ) && error.message() == "invalid segment-tar data: "@
            + "cleanup did not preserve every previously readable physical journal line byte-for-byte, with its original terminator and order"@,
        compacted_head is None && (exists|i: int|
            0 <= i < planned.retained_record_ids@.len() && #[trigger] proofs::root_is_lost(
                planned.retained_record_ids@,
                fresh.retained_record_ids@,
                i,
            )) ==> exists|i: int|
            0 <= i < planned.retained_record_ids@.len() && #[trigger] proofs::root_is_lost(
                planned.retained_record_ids@,
                fresh.retained_record_ids@,
                i,
            ) && error.message() == "invalid segment-tar data: "@ + (if proofs::occurrences(
                fresh.retained_record_ids@,
                planned.retained_record_ids@[i],
            ) == 0 {
                "cleanup made previously readable journal root "@
                    + planned.retained_record_ids@[i].text()
                    + " unreadable or removed its journal line"@
            } else {
                "cleanup removed a duplicate readable journal line for root "@
                    + planned.retained_record_ids@[i].text()
            }),
{
    if compacted_head is None && !journal_phase::keeps_roots(planned, fresh) {
        let position = choose|position: int| #[trigger]
            proofs::is_first_loss(
                planned.retained_record_ids@,
                fresh.retained_record_ids@,
                position,
            ) && error.refuses(
                proofs::lost_root_text(
                    fresh.retained_record_ids@,
                    planned.retained_record_ids@[position],
                ),
            );
        assert(proofs::root_is_lost(
            planned.retained_record_ids@,
            fresh.retained_record_ids@,
            position,
        ));
    }
}

/// The refusal of a store is one for its own offenders: it is that of a census which
/// lists the archives served by a recovery scan, with their reasons, in order.
pub proof fn law_a_store_is_refused_for_its_own_archives(
    archives: Seq<ArchiveFacts>,
    refusal: Seq<char>,
)
    requires
        indexless_refusal::is_store_refusal(archives, refusal),
    ensures
        exists|offenders: Vec<IndexlessArchive>|
            offenders@.len() == indexless_refusal::offenders_of(archives).len() && (forall|i: int|
                0 <= i < offenders@.len() ==> (#[trigger] offenders@[i]).file_name@
                    == indexless_refusal::offenders_of(archives)[i].0 && offenders@[i].reason@
                    == indexless_refusal::offenders_of(archives)[i].1)
                && #[trigger] indexless_refusal::is_refusal(
                indexless_refusal::store_census(archives, &offenders),
                refusal,
            ),
{
    let offenders = choose|offenders: Vec<IndexlessArchive>|
        #[trigger] indexless_refusal::listed_offenders(offenders@)
            == indexless_refusal::offenders_of(archives) && indexless_refusal::is_refusal(
            indexless_refusal::store_census(archives, &offenders),
            refusal,
        );
    let listed = indexless_refusal::listed_offenders(offenders@);
    assert forall|i: int| 0 <= i < offenders@.len() implies (#[trigger] offenders@[i]).file_name@
        == indexless_refusal::offenders_of(archives)[i].0 && offenders@[i].reason@
        == indexless_refusal::offenders_of(archives)[i].1 by {
        assert(listed[i] == (offenders@[i].file_name@, offenders@[i].reason@));
    }
}

} // verus!
