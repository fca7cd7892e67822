//! What a refusal names: the first thing that is wrong, and nothing else.
use vstd::prelude::*;
use vstd::string::*;
use crate::apply_identity;
use crate::apply_identity::{ApplyCredentials, SourceMetadata};
use crate::error::Error;
use crate::generations;
use crate::generations::{GenerationIndex, HeaderFacts, SegmentReferences, UnreadableRoot};
use crate::identifier::{RecordIdentifier, SegmentIdentifier};
use crate::indexless_refusal;
use crate::indexless_refusal::{ArchiveFacts, IndexlessArchive, IndexlessCensus};
use crate::journal::proofs;
use crate::journal::rewrite;
use crate::journal::scan::LineView;
use crate::order;
use crate::planning::head_verification;
use crate::planning::head_verification::CheckpointSnapshot;
use crate::planning::shape;
use crate::planning::shape::DirectoryEntry;
use crate::planning::survey;
use crate::text;

verus! {

/// Of the places at which something holds there is a first.
proof fn lemma_first(holds: spec_fn(int) -> bool, place: int) -> (first: int)
    requires
        0 <= place,
        holds(place),
    ensures
        0 <= first <= place,
        holds(first),
        forall|i: int| 0 <= i < first ==> !#[trigger] holds(i),
    decreases place,
{
    if forall|i: int| 0 <= i < place ==> !#[trigger] holds(i) {
        place
    } else {
        let earlier = choose|i: int| 0 <= i < place && #[trigger] holds(i);
        lemma_first(holds, earlier)
    }
}

/// A refusal reads as what it says, behind the words that every refusal starts with;
/// a fault of the file system reads as it was reported.
pub proof fn law_a_refusal_reads_as_it_says(error: Error, details: Seq<char>)
    ensures
        error.refuses(details) ==> error.message() == "invalid segment-tar data: "@ + details,
        error.refuses(details) ==> error is InvalidFormat,
        error matches Error::InputOutput { details: reported } ==> error.message() == reported@,
{
}

/// One error is like another exactly if both are of one kind and read the same.
pub proof fn law_like_errors_read_the_same(left: Error, right: Error)
    ensures
        left.is_like(right) <==> {
            &&& (left is InvalidFormat) == (right is InvalidFormat)
            &&& left.message() == right.message()
        },
{
    let opening = "invalid segment-tar data: "@;
    if left is InvalidFormat && right is InvalidFormat && left.message() == right.message() {
        let from = opening.len() as int;
        assert(left.message().skip(from) =~= left->InvalidFormat_details@);
        assert(right.message().skip(from) =~= right->InvalidFormat_details@);
    }
}

/// A refusal for a missing index generation comes exactly if some archive has a segment
/// without one; the segment that it names has none, and is the first of its archive
/// without one, behind archives that all have theirs.
pub proof fn law_a_segment_without_a_generation_is_found(archives: Seq<ArchiveFacts>)
    ensures
        (exists|archive: int, position: int| #[trigger]
            generations::is_first_unindexed(archives, archive, position)) <==> exists|
            archive: int,
            position: int,
        |
            0 <= archive < archives.len() && 0 <= position < archives[archive].segments@.len()
                && (
            #[trigger] archives[archive].segments@[position]).index_generation is None,
        forall|archive: int, position: int| #[trigger]
            generations::is_first_unindexed(archives, archive, position)
                ==> archives[archive].segments@[position].index_generation is None,
{
    if exists|archive: int, position: int|
        0 <= archive < archives.len() && 0 <= position < archives[archive].segments@.len() && (
        #[trigger] archives[archive].segments@[position]).index_generation is None {
        let (archive, position) = choose|archive: int, position: int|
            0 <= archive < archives.len() && 0 <= position < archives[archive].segments@.len() && (
            #[trigger] archives[archive].segments@[position]).index_generation is None;
        let lacks = |j: int|
            0 <= j < archives.len() && exists|i: int|
                0 <= i < archives[j].segments@.len() && (
                #[trigger] archives[j].segments@[i]).index_generation is None;
        assert(lacks(archive));
        let first = lemma_first(lacks, archive);
        let place = choose|i: int|
            0 <= i < archives[first].segments@.len() && (
            #[trigger] archives[first].segments@[i]).index_generation is None;
        let bare = |i: int|
            0 <= i < archives[first].segments@.len()
                && archives[first].segments@[i].index_generation is None;
        assert(bare(place));
        let leading = lemma_first(bare, place);
        assert forall|i: int| #![trigger archives[first].segments@[i]]
            0 <= i < leading implies archives[first].segments@[i].index_generation is Some by {
            assert(!bare(i));
        }
        assert forall|j: int, i: int| #![trigger archives[j].segments@[i]]
            0 <= j < first && 0 <= i < archives[j].segments@.len()
                implies archives[j].segments@[i].index_generation is Some by {
            assert(!lacks(j));
        }
        assert(generations::is_first_unindexed(archives, first, leading));
    }
}

/// The refusal of a closure comes exactly if some data segment of it has a header, and
/// either no archive index describes the segment, or the index and the header name
/// different generations, or the rule would discard it.
pub proof fn law_a_closure_is_refused_for_a_real_fault(
    closure: Seq<SegmentIdentifier>,
    headers: Seq<Option<HeaderFacts>>,
    index: GenerationIndex,
)
    requires
        headers.len() == closure.len(),
    ensures
        (exists|position: int| #[trigger]
            generations::is_first_closure_fault(closure, headers, index, position)) <==> exists|
            i: int,
        |
            0 <= i < closure.len() && (#[trigger] closure[i]).names_data() && (headers[i] matches
                Some(header) && {
                ||| index.generation(closure[i]) != Some(header.generation)
                ||| header.reclaimable
            }),
{
    if exists|i: int|
        0 <= i < closure.len() && (#[trigger] closure[i]).names_data() && (headers[i] matches Some(
            header,
        ) && {
            ||| index.generation(closure[i]) != Some(header.generation)
            ||| header.reclaimable
        }) {
        let i = choose|i: int|
            0 <= i < closure.len() && (#[trigger] closure[i]).names_data() && (headers[i] matches
                Some(header) && {
                ||| index.generation(closure[i]) != Some(header.generation)
                ||| header.reclaimable
            });
        let faulty = |j: int|
            0 <= j < closure.len() && generations::closure_fault_at(
                closure,
                headers,
                index,
                j,
            ) is Some;
        assert(faulty(i));
        let first = lemma_first(faulty, i);
        assert forall|j: int| 0 <= j < first implies #[trigger] generations::closure_fault_at(
            closure,
            headers,
            index,
            j,
        ) is None by {
            assert(!faulty(j));
        }
        assert(generations::is_first_closure_fault(closure, headers, index, first));
    }
    if exists|position: int| #[trigger]
        generations::is_first_closure_fault(closure, headers, index, position) {
        let position = choose|position: int| #[trigger]
            generations::is_first_closure_fault(closure, headers, index, position);
        assert(closure[position].names_data());
    }
}

/// A refused sweep names the retained root that it would make unreadable, where there
/// is one; and otherwise a surviving data segment, not itself garbage, together with
/// something it refers to that the sweep would take.
pub proof fn law_a_refused_sweep_names_what_would_break(
    error: Error,
    unavailable: Set<SegmentIdentifier>,
    reclaimable: Set<SegmentIdentifier>,
    first_unreadable_root: Option<UnreadableRoot>,
    segments: Seq<SegmentReferences>,
)
    requires
        generations::is_sweep_refusal(
            error,
            unavailable,
            reclaimable,
            first_unreadable_root,
            segments,
        ),
    ensures
        first_unreadable_root matches Some(failed) ==> error.message()
            == "invalid segment-tar data: "@ + ("segment cleanup would make retained journal root "@
            + failed.root.text() + " unreadable: "@ + failed.error@),
        first_unreadable_root is None ==> exists|j: int, i: int|
            0 <= j < segments.len() && segments[j].identifier.names_data()
                && !unavailable.contains(segments[j].identifier) && !reclaimable.contains(
                segments[j].identifier,
            ) && 0 <= i < segments[j].referenced@.len() && unavailable.contains(
                #[trigger] segments[j].referenced@[i],
            ) && error.message() == "invalid segment-tar data: "@ + (
            "surviving data segment "@ + segments[j].identifier.text() + " references segment "@
                + segments[j].referenced@[i].text() + ", which the cleanup plan would remove"@),
{
    if first_unreadable_root is None {
        let (j, i) = choose|j: int, i: int|
            0 <= j < segments.len() && generations::none_dangles(
                segments.take(j),
                unavailable,
                reclaimable,
            ) && generations::is_live_survivor(segments[j].identifier, unavailable, reclaimable)
                && #[trigger] generations::is_first_dangling(
                segments[j].referenced@,
                unavailable,
                i,
            ) && error.refuses(
                generations::dangling_text(segments[j].identifier, segments[j].referenced@[i]),
            );
        assert(unavailable.contains(segments[j].referenced@[i]));
    }
}

/// The head is refused for a checkpoint exactly if some checkpoint has no snapshot.
pub proof fn law_a_checkpoint_without_a_snapshot_is_found(checkpoints: Seq<CheckpointSnapshot>)
    ensures
        (exists|position: int| #[trigger]
            head_verification::is_first_empty(checkpoints, position)) <==> exists|i: int|
            0 <= i < checkpoints.len() && !(#[trigger] checkpoints[i]).has_root,
{
    if exists|i: int| 0 <= i < checkpoints.len() && !(#[trigger] checkpoints[i]).has_root {
        let i = choose|i: int| 0 <= i < checkpoints.len() && !(#[trigger] checkpoints[i]).has_root;
        let empty = |j: int| 0 <= j < checkpoints.len() && !checkpoints[j].has_root;
        assert(empty(i));
        let first = lemma_first(empty, i);
        assert forall|j: int| 0 <= j < first implies (#[trigger] checkpoints[j]).has_root by {
            assert(!empty(j));
        }
        assert(head_verification::is_first_empty(checkpoints, first));
    }
    if exists|position: int| #[trigger]
        head_verification::is_first_empty(checkpoints, position) {
        let position = choose|position: int| #[trigger]
            head_verification::is_first_empty(checkpoints, position);
        assert(!checkpoints[position].has_root);
    }
}

/// A selection of journal lines is refused exactly if it names a line that is not there
/// or that is no record, or names one twice.
pub proof fn law_a_selection_of_lines_is_refused_for_a_real_fault(
    lines: Seq<LineView>,
    indexes: Seq<usize>,
)
    ensures
        (exists|position: int| #[trigger] rewrite::is_first_fault(lines, indexes, position))
            <==> exists|i: int|
            0 <= i < indexes.len() && ({
                ||| #[trigger] indexes[i] >= lines.len()
                ||| !(lines[indexes[i] as int].class is Record)
                ||| exists|j: int| 0 <= j < i && #[trigger] indexes[j] == indexes[i]
            }),
{
    assert forall|i: int| 0 <= i < indexes.len() implies (#[trigger] rewrite::fault_at(
        lines,
        indexes,
        i,
    ) is Some <==> ({
        ||| indexes[i] >= lines.len()
        ||| !(lines[indexes[i] as int].class is Record)
        ||| exists|j: int| 0 <= j < i && #[trigger] indexes[j] == indexes[i]
    })) by {
        let earlier = indexes.take(i);
        if exists|j: int| 0 <= j < i && #[trigger] indexes[j] == indexes[i] {
            let j = choose|j: int| 0 <= j < i && #[trigger] indexes[j] == indexes[i];
            assert(earlier[j] == indexes[i]);
        }
        if earlier.contains(indexes[i]) {
            let j = choose|j: int| 0 <= j < earlier.len() && earlier[j] == indexes[i];
            assert(indexes[j] == indexes[i]);
        }
    }
    if exists|i: int|
        0 <= i < indexes.len() && ({
            ||| #[trigger] indexes[i] >= lines.len()
            ||| !(lines[indexes[i] as int].class is Record)
            ||| exists|j: int| 0 <= j < i && #[trigger] indexes[j] == indexes[i]
        }) {
        let i = choose|i: int|
            0 <= i < indexes.len() && ({
                ||| #[trigger] indexes[i] >= lines.len()
                ||| !(lines[indexes[i] as int].class is Record)
                ||| exists|j: int| 0 <= j < i && #[trigger] indexes[j] == indexes[i]
            });
        let faulty = |j: int|
            0 <= j < indexes.len() && rewrite::fault_at(lines, indexes, j) is Some;
        assert(rewrite::fault_at(lines, indexes, i) is Some);
        assert(faulty(i));
        let first = lemma_first(faulty, i);
        assert forall|j: int| 0 <= j < first implies #[trigger] rewrite::fault_at(
            lines,
            indexes,
            j,
        ) is None by {
            assert(!faulty(j));
        }
        assert(rewrite::is_first_fault(lines, indexes, first));
    }
    if exists|position: int| #[trigger] rewrite::is_first_fault(lines, indexes, position) {
        let position = choose|position: int| #[trigger]
            rewrite::is_first_fault(lines, indexes, position);
        assert(rewrite::fault_at(lines, indexes, position) is Some);
        assert(0 <= position < indexes.len());
    }
}

/// A store's directory is refused for its files exactly if something in it has a name
/// of the store without being a regular file.
pub proof fn law_a_store_name_that_is_no_file_is_found(entries: Seq<DirectoryEntry>)
    ensures
        (exists|position: int| #[trigger] shape::is_first_improper(entries, position))
            <==> exists|i: int|
            0 <= i < entries.len() && (#[trigger] entries[i]).is_managed
                && !entries[i].is_regular_file,
{
    if exists|i: int|
        0 <= i < entries.len() && (#[trigger] entries[i]).is_managed
            && !entries[i].is_regular_file {
        let i = choose|i: int|
            0 <= i < entries.len() && (#[trigger] entries[i]).is_managed
                && !entries[i].is_regular_file;
        let improper = |j: int| 0 <= j < entries.len() && shape::is_improper(entries[j]);
        assert(improper(i));
        let first = lemma_first(improper, i);
        assert forall|j: int| 0 <= j < first implies !shape::is_improper(
            #[trigger] entries[j],
        ) by {
            assert(!improper(j));
        }
        assert(shape::is_first_improper(entries, first));
    }
    if exists|position: int| #[trigger] shape::is_first_improper(entries, position) {
        let position = choose|position: int| #[trigger]
            shape::is_first_improper(entries, position);
        assert(entries[position].is_managed);
    }
}

/// Where every file that a run replaces belongs to the user, and the user is the
/// superuser or in the group of each, no file is named as an obstacle; and where one
/// belongs to somebody else, some file is.
pub proof fn law_foreign_files_are_obstacles(
    sources: Seq<SourceMetadata>,
    possible_created_gids: Seq<u32>,
    credentials: ApplyCredentials,
)
    ensures
        (forall|i: int|
            0 <= i < sources.len() ==> (#[trigger] sources[i]).owner == credentials.effective_uid
                && (credentials.effective_uid == 0 || credentials.group_ids@.contains(
                sources[i].group,
            ))) ==> !(exists|position: int| #[trigger]
            apply_identity::is_first_issue(
                sources,
                possible_created_gids,
                credentials,
                position,
            )),
        (exists|i: int|
            0 <= i < sources.len() && (#[trigger] sources[i]).owner != credentials.effective_uid)
            ==> exists|position: int| #[trigger]
            apply_identity::is_first_issue(
                sources,
                possible_created_gids,
                credentials,
                position,
            ),
{
    if exists|i: int|
        0 <= i < sources.len() && (#[trigger] sources[i]).owner != credentials.effective_uid {
        let i = choose|i: int|
            0 <= i < sources.len() && (#[trigger] sources[i]).owner != credentials.effective_uid;
        let hinders = |j: int|
            0 <= j < sources.len() && apply_identity::issue_at(
                sources,
                possible_created_gids,
                credentials,
                j,
            ) is Some;
        assert(hinders(i));
        let first = lemma_first(hinders, i);
        assert forall|j: int| 0 <= j < first implies #[trigger] apply_identity::issue_at(
            sources,
            possible_created_gids,
            credentials,
            j,
        ) is None by {
            assert(!hinders(j));
        }
        assert(apply_identity::is_first_issue(sources, possible_created_gids, credentials, first));
    }
    if exists|position: int| #[trigger]
        apply_identity::is_first_issue(sources, possible_created_gids, credentials, position) {
        let position = choose|position: int| #[trigger]
            apply_identity::is_first_issue(sources, possible_created_gids, credentials, position);
        assert(sources[position].owner == sources[position].owner);
    }
}

/// Some root is named as lost exactly if not every root is still there as often as it
/// was expected.
pub proof fn law_a_lost_root_is_found(
    expected: Seq<RecordIdentifier>,
    actual: Seq<RecordIdentifier>,
)
    ensures
        (exists|position: int| #[trigger] proofs::is_first_loss(expected, actual, position))
            <==> exists|i: int|
            0 <= i < expected.len() && #[trigger] proofs::root_is_lost(expected, actual, i),
{
    if exists|i: int|
        0 <= i < expected.len() && #[trigger] proofs::root_is_lost(expected, actual, i) {
        let i = choose|i: int|
            0 <= i < expected.len() && #[trigger] proofs::root_is_lost(expected, actual, i);
        let lost = |j: int| 0 <= j < expected.len() && proofs::root_is_lost(expected, actual, j);
        assert(lost(i));
        let first = lemma_first(lost, i);
        assert forall|j: int| 0 <= j < first implies !#[trigger] proofs::root_is_lost(
            expected,
            actual,
            j,
        ) by {
            assert(!lost(j));
        }
        assert(proofs::is_first_loss(expected, actual, first));
    }
}

/// The refusal of a store without indexes says how many archive numbers lack one, names
/// the archives, gives each reason once and in order, and says what to do.
pub proof fn law_the_refusal_of_a_store_says_all(
    census: IndexlessCensus<'_>,
    refusal: Seq<char>,
)
    requires
        indexless_refusal::is_refusal(census, refusal),
    ensures
        exists|reasons: Seq<Seq<char>>|
            (forall|reason: Seq<char>| #[trigger]
                reasons.contains(reason) <==> exists|i: int|
                    0 <= i < census.offenders@.len() && (
                    #[trigger] census.offenders@[i]).reason@ == reason) && reasons.no_duplicates()
                && refusal == (if census.indexless_numbers == 1 {
                "1 of "@ + text::decimal(census.total_numbers as nat)
                    + " active archive numbers has no index metadata"@
            } else {
                text::decimal(census.indexless_numbers as nat) + " of "@ + text::decimal(
                    census.total_numbers as nat,
                ) + " active archive numbers have no index metadata"@
            }) + " ("@
                + indexless_refusal::names_text(
                census.offenders@.map_values(|offender: IndexlessArchive| offender.file_name@),
            ) + "); the index was rejected because "@ + #[trigger] text::joined(reasons, "; "@)
                + "; "@ + (if census.newest_is_indexless {
                "the newest active archive is among them — the damage a writer leaves behind when it is killed before closing its archive"@
            } else {
                "the newest active archive is not among them, so this is not simply a killed writer's unfinished archive"@
            })
                + ". Refusing this run; no archive, journal, or checkpoint has been changed. Run `froe archives` on this repository to see every archive's index state; "@
                + indexless_refusal::remedy_text(
                census.newest_is_indexless,
                census.any_scan_is_empty,
            ) + "."@,
{
    let reasons = choose|reasons: Seq<Seq<char>>|
        order::ascending(reasons) && reasons.to_set() == indexless_refusal::offender_reasons(
            census.offenders@,
        ).to_set() && refusal == #[trigger] indexless_refusal::refusal_text(census, reasons);
    let all = indexless_refusal::offender_reasons(census.offenders@);
    assert forall|reason: Seq<char>| #[trigger]
        reasons.contains(reason) <==> exists|i: int|
            0 <= i < census.offenders@.len() && (#[trigger] census.offenders@[i]).reason@
                == reason by {
        assert(reasons.contains(reason) <==> reasons.to_set().contains(reason));
        assert(all.contains(reason) <==> all.to_set().contains(reason));
        if all.contains(reason) {
            let i = choose|i: int| 0 <= i < all.len() && all[i] == reason;
            assert(census.offenders@[i].reason@ == reason);
        }
        if exists|i: int|
            0 <= i < census.offenders@.len() && (#[trigger] census.offenders@[i]).reason@
                == reason {
            let i = choose|i: int|
                0 <= i < census.offenders@.len() && (#[trigger] census.offenders@[i]).reason@
                    == reason;
            assert(all[i] == reason);
        }
    }
    assert(indexless_refusal::offender_names(census.offenders@)
        =~= census.offenders@.map_values(|offender: IndexlessArchive| offender.file_name@));
    assert(reasons.no_duplicates()) by {
        assert forall|i: int, j: int| 0 <= i < j < reasons.len() implies reasons[i]
            != reasons[j] by {
            order::lemma_text_total(reasons[i], reasons[j]);
        }
    }
    assert(refusal == indexless_refusal::refusal_text(census, reasons));
    assert(text::joined(reasons, "; "@) == text::joined(reasons, "; "@));
}

/// A refusal that comes after rebuilt archives keeps what it said, and names every
/// archive that was rebuilt.
pub proof fn law_a_late_refusal_names_the_rebuilt_archives(
    message: Seq<char>,
    names: Seq<Seq<char>>,
)
    ensures
        survey::with_repairs(message, names).take(message.len() as int) == message,
        survey::with_repairs(message, names) == message + " This refusal came after "@
            + text::decimal(names.len()) + " archive index rebuild(s), which are already durable: "@
            + text::joined(names, ", "@)
            + ". The originals are retained under `.bak` names, and those archives need no second attempt."@,
{
}

} // verus!
