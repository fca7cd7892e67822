//! Refusing a store whose active archives carry no usable index: the census
//! of the damage, and the refusal text built from it.
use vstd::prelude::*;
use vstd::string::*;
use crate::error::Error;
use crate::identifier::{GarbageCollectionGeneration, SegmentIdentifier};
use crate::options::{CompactionOptions, MaintenanceTask};
use crate::order;
use crate::order::sorted_distinct;
use crate::text;
use crate::text::{join, join_first, push_decimal};

verus! {

/// One segment that an active archive serves.
#[derive(Clone, Copy, Debug, PartialEq, Eq, Structural)]
pub struct ServedSegment {
    /// The segment.
    pub identifier: SegmentIdentifier,
    /// The generation that the archive's index states for it.
    pub index_generation: Option<GarbageCollectionGeneration>,
    /// The size that the index states for it.
    pub bytes: u64,
}

/// One active archive, as its reader presents it.
#[derive(Debug)]
pub struct ArchiveFacts {
    /// The file's name.
    pub file_name: String,
    /// The archive number that the name spells.
    pub archive_number: Option<u32>,
    /// Why the index was rejected, when the archive is served by a recovery
    /// scan.
    pub recovery_reason: Option<String>,
    /// Whether the archive has a valid index.
    pub has_index: bool,
    /// The segments that the reader serves.
    pub segments: Vec<ServedSegment>,
}

/// An archive without an index, and why its index was rejected.
#[derive(Debug)]
pub struct IndexlessArchive {
    /// The file's name.
    pub file_name: String,
    /// Why its index was rejected.
    pub reason: String,
}

/// The census of index-less active archives a refusal is written from.
pub struct IndexlessCensus<'census> {
    /// Active archive numbers in the store.
    pub total_numbers: usize,
    /// How many of those numbers carry no valid index.
    pub indexless_numbers: usize,
    /// The offending archives.
    pub offenders: &'census Vec<IndexlessArchive>,
    /// Whether the newest active archive is among them.
    pub newest_is_indexless: bool,
    /// Whether any offender's recovery scan read no segment at all, which is
    /// residue no repair can rebuild.
    pub any_scan_is_empty: bool,
}

/// How many offenders a refusal names.
pub const NAMES_SHOWN: usize = 5;

/// The names of the offenders.
pub open spec fn offender_names(offenders: Seq<IndexlessArchive>) -> Seq<Seq<char>> {
    offenders.map_values(|offender: IndexlessArchive| offender.file_name@)
}

/// The reasons of the offenders.
pub open spec fn offender_reasons(offenders: Seq<IndexlessArchive>) -> Seq<Seq<char>> {
    offenders.map_values(|offender: IndexlessArchive| offender.reason@)
}

/// The first names, and how many more there are.
pub open spec fn names_text(names: Seq<Seq<char>>) -> Seq<char> {
    if names.len() > NAMES_SHOWN {
        text::joined(names.take(NAMES_SHOWN as int), ", "@) + ", and "@ + text::decimal(
            (names.len() - NAMES_SHOWN) as nat,
        ) + " more"@
    } else {
        text::joined(names, ", "@)
    }
}

/// How many archive numbers are affected, in words that agree in number.
pub open spec fn subject_text(indexless_numbers: usize, total_numbers: usize) -> Seq<char> {
    if indexless_numbers == 1 {
        "1 of "@ + text::decimal(total_numbers as nat)
            + " active archive numbers has no index metadata"@
    } else {
        text::decimal(indexless_numbers as nat) + " of "@ + text::decimal(total_numbers as nat)
            + " active archive numbers have no index metadata"@
    }
}

/// Whether the newest archive is affected.
pub open spec fn ordinality_text(newest_is_indexless: bool) -> Seq<char> {
    if newest_is_indexless {
        "the newest active archive is among them — the damage a writer leaves behind when it is killed before closing its archive"@
    } else {
        "the newest active archive is not among them, so this is not simply a killed writer's unfinished archive"@
    }
}

/// What the operator can do.
///
/// A writer killed before it closed its newest archive left a complete archive
/// missing only its trailer, and rebuilding the index loses nothing. An
/// archive in the middle of the store was closed once and stopped validating
/// since, so it is looked at first. One whose scan read nothing cannot be
/// rebuilt at all.
pub open spec fn remedy_text(newest_is_indexless: bool, any_scan_is_empty: bool) -> Seq<char> {
    if any_scan_is_empty {
        "at least one of them holds no segment the recovery scan can read, so nothing can rebuild it — move that file aside to proceed, and keep it, it is the only copy of whatever it holds"@
    } else if newest_is_indexless {
        "authorize the repair — interactively at the prompt, or with `--yes` — to rebuild the missing index from the archive's own entries, retaining the original bytes under a `.bak` name"@
    } else {
        "inspect before repairing: an authorized repair (yes at the prompt, or `--yes`) rebuilds the missing indexes from a recovery scan, which retains the original bytes under `.bak` names but cannot recover a segment the scan cannot read"@
    }
}

/// The whole refusal, given the distinct reasons in order.
pub open spec fn refusal_text(census: IndexlessCensus<'_>, reasons: Seq<Seq<char>>) -> Seq<char> {
    subject_text(census.indexless_numbers, census.total_numbers) + " ("@ + names_text(
        offender_names(census.offenders@),
    ) + "); the index was rejected because "@ + text::joined(reasons, "; "@) + "; "@
        + ordinality_text(census.newest_is_indexless)
        + ". Refusing this run; no archive, journal, or checkpoint has been changed. Run `froe archives` on this repository to see every archive's index state; "@
        + remedy_text(census.newest_is_indexless, census.any_scan_is_empty) + "."@
}

/// Whether a text is the refusal of a census.
pub open spec fn is_refusal(census: IndexlessCensus<'_>, refusal: Seq<char>) -> bool {
    exists|reasons: Seq<Seq<char>>|
        order::ascending(reasons) && reasons.to_set() == offender_reasons(
            census.offenders@,
        ).to_set() && refusal == #[trigger] refusal_text(census, reasons)
}

/// The refusal an index-less active archive earns.
///
/// Naming only the first offender cannot separate a writer killed before it
/// closed its newest archive from a store damaged throughout. So every archive
/// is counted, and whether the newest one is affected is stated. Counting is
/// by archive number, not by open reader.
pub fn indexless_archive_refusal(census: IndexlessCensus<'_>) -> (refusal: String)
    ensures
        is_refusal(census, refusal@),
{
    let offenders = census.offenders;
    let mut names: Vec<String> = Vec::new();
    let mut reasons: Vec<String> = Vec::new();
    let mut index: usize = 0;
    while index < offenders.len()
        invariant
            index <= offenders@.len(),
            text::texts(names@) =~= offender_names(offenders@).take(index as int),
            text::texts(reasons@) =~= offender_reasons(offenders@).take(index as int),
        decreases offenders@.len() - index,
    {
        let ghost names_before = text::texts(names@);
        let ghost reasons_before = text::texts(reasons@);
        names.push(offenders[index].file_name.clone());
        reasons.push(offenders[index].reason.clone());
        assert(text::texts(names@) =~= names_before.push(offenders@[index as int].file_name@));
        assert(text::texts(reasons@) =~= reasons_before.push(offenders@[index as int].reason@));
        index = index + 1;
    }
    assert(text::texts(names@) =~= offender_names(offenders@));
    assert(text::texts(reasons@) =~= offender_reasons(offenders@));
    let shown: usize = if names.len() > NAMES_SHOWN {
        NAMES_SHOWN
    } else {
        names.len()
    };
    let mut listed = join_first(&names, shown, ", ");
    assert(text::texts(names@.take(shown as int)) =~= text::texts(names@).take(shown as int));
    assert(text::texts(names@).take(names@.len() as int) =~= text::texts(names@));
    if names.len() > NAMES_SHOWN {
        listed.append(", and ");
        push_decimal(&mut listed, (names.len() - NAMES_SHOWN) as u64);
        listed.append(" more");
    }
    assert(listed@ =~= names_text(offender_names(offenders@)));
    let distinct = sorted_distinct(&reasons);
    let joined_reasons = join(&distinct, "; ");
    let mut refusal = String::new();
    if census.indexless_numbers == 1 {
        refusal.append("1 of ");
        push_decimal(&mut refusal, census.total_numbers as u64);
        refusal.append(" active archive numbers has no index metadata");
    } else {
        push_decimal(&mut refusal, census.indexless_numbers as u64);
        refusal.append(" of ");
        push_decimal(&mut refusal, census.total_numbers as u64);
        refusal.append(" active archive numbers have no index metadata");
    }
    assert(refusal@ =~= subject_text(census.indexless_numbers, census.total_numbers));
    refusal.append(" (");
    refusal.append(listed.as_str());
    refusal.append("); the index was rejected because ");
    refusal.append(joined_reasons.as_str());
    refusal.append("; ");
    if census.newest_is_indexless {
        refusal.append(
            "the newest active archive is among them — the damage a writer leaves behind when it is killed before closing its archive",
        );
    } else {
        refusal.append(
            "the newest active archive is not among them, so this is not simply a killed writer's unfinished archive",
        );
    }
    refusal.append(
        ". Refusing this run; no archive, journal, or checkpoint has been changed. Run `froe archives` on this repository to see every archive's index state; ",
    );
    if census.any_scan_is_empty {
        refusal.append(
            "at least one of them holds no segment the recovery scan can read, so nothing can rebuild it — move that file aside to proceed, and keep it, it is the only copy of whatever it holds",
        );
    } else if census.newest_is_indexless {
        refusal.append(
            "authorize the repair — interactively at the prompt, or with `--yes` — to rebuild the missing index from the archive's own entries, retaining the original bytes under a `.bak` name",
        );
    } else {
        refusal.append(
            "inspect before repairing: an authorized repair (yes at the prompt, or `--yes`) rebuilds the missing indexes from a recovery scan, which retains the original bytes under `.bak` names but cannot recover a segment the scan cannot read",
        );
    }
    refusal.append(".");
    proof {
        let listed_reasons = text::texts(distinct@);
        assert(refusal@ =~= refusal_text(census, listed_reasons));
    }
    refusal
}

/// The archives that are served by a recovery scan, newest first.
pub open spec fn offenders_of(archives: Seq<ArchiveFacts>) -> Seq<(Seq<char>, Seq<char>)>
    decreases archives.len(),
{
    if archives.len() == 0 {
        Seq::empty()
    } else {
        let earlier = offenders_of(archives.drop_last());
        match archives.last().recovery_reason {
            Some(reason) => earlier.push((archives.last().file_name@, reason@)),
            None => earlier,
        }
    }
}

/// The archive numbers of the archives, or of those served by a recovery scan
/// only.
pub open spec fn numbers_of(archives: Seq<ArchiveFacts>, scanned_only: bool) -> Set<u32> {
    Set::new(
        |number: u32|
            exists|i: int|
                0 <= i < archives.len() && (#[trigger] archives[i]).archive_number == Some(number)
                    && (scanned_only ==> archives[i].recovery_reason is Some),
    )
}

/// Whether some number without an index scans to nothing in all its letters.
///
/// The rebuild merges every letter of a number, so a letter that scans empty
/// beside one that does not is still repairable.
pub open spec fn some_number_scans_empty(archives: Seq<ArchiveFacts>) -> bool {
    exists|i: int| 0 <= i < archives.len() && #[trigger] scans_empty(archives, i)
}

/// Whether the number of an archive without an index scans to nothing.
pub open spec fn scans_empty(archives: Seq<ArchiveFacts>, index: int) -> bool {
    &&& !archives[index].has_index
    &&& archives[index].archive_number is Some
    &&& forall|j: int|
        0 <= j < archives.len() && !(#[trigger] archives[j]).has_index
            && archives[j].archive_number == archives[index].archive_number
            ==> archives[j].segments@.len() == 0
}

/// Collects the distinct archive numbers.
fn distinct_numbers(archives: &Vec<ArchiveFacts>, scanned_only: bool) -> (count: usize)
    ensures
        numbers_of(archives@, scanned_only).finite(),
        count == numbers_of(archives@, scanned_only).len(),
{
    let mut numbers: Vec<u32> = Vec::new();
    let mut index: usize = 0;
    assert(numbers_of(archives@.take(0), scanned_only) =~= numbers@.to_set());
    while index < archives.len()
        invariant
            index <= archives@.len(),
            numbers@.no_duplicates(),
            numbers@.to_set() == numbers_of(archives@.take(index as int), scanned_only),
        decreases archives@.len() - index,
    {
        let ghost shorter = archives@.take(index as int);
        let ghost longer = archives@.take(index as int + 1);
        let ghost before = numbers@;
        let archive = &archives[index];
        let counted = !scanned_only || archive.recovery_reason.is_some();
        if counted {
            match archive.archive_number {
                Some(number) => {
                    let mut found = false;
                    let mut position: usize = 0;
                    while position < numbers.len()
                        invariant
                            position <= numbers@.len(),
                            numbers@ == before,
                            found == before.take(position as int).contains(number),
                        decreases numbers@.len() - position,
                    {
                        proof {
                            let seen = before.take(position as int);
                            let next = before.take(position as int + 1);
                            assert(next =~= seen.push(before[position as int]));
                            seen.lemma_push_to_set_commute(before[position as int]);
                            assert(next.to_set().contains(number) == next.contains(number));
                            assert(seen.to_set().contains(number) == seen.contains(number));
                        }
                        if numbers[position] == number {
                            found = true;
                        }
                        position = position + 1;
                    }
                    assert(before.take(position as int) =~= before);
                    if !found {
                        numbers.push(number);
                    }
                    proof {
                        before.lemma_push_to_set_commute(number);
                        if found {
                            assert(before.to_set().insert(number) =~= before.to_set());
                        }
                        assert(numbers@.to_set() =~= before.to_set().insert(number));
                    }
                },
                None => {},
            }
        }
        proof {
            assert forall|number: u32| numbers@.to_set().contains(number) == numbers_of(
                longer,
                scanned_only,
            ).contains(number) by {
                if numbers_of(longer, scanned_only).contains(number) {
                    let i = choose|i: int|
                        0 <= i < longer.len() && (#[trigger] longer[i]).archive_number == Some(
                            number,
                        ) && (scanned_only ==> longer[i].recovery_reason is Some);
                    if i < index {
                        assert(shorter[i] == longer[i]);
                        assert(numbers_of(shorter, scanned_only).contains(number));
                    }
                }
                if numbers_of(shorter, scanned_only).contains(number) {
                    let i = choose|i: int|
                        0 <= i < shorter.len() && (#[trigger] shorter[i]).archive_number == Some(
                            number,
                        ) && (scanned_only ==> shorter[i].recovery_reason is Some);
                    assert(longer[i] == shorter[i]);
                }
                assert(longer[index as int] == archives@[index as int]);
            }
            assert(numbers@.to_set() =~= numbers_of(longer, scanned_only));
        }
        index = index + 1;
    }
    proof {
        assert(archives@.take(index as int) =~= archives@);
        numbers@.unique_seq_to_set();
        vstd::seq_lib::seq_to_set_is_finite(numbers@);
    }
    numbers.len()
}

/// Whether the number of an archive scans to nothing.
fn number_scans_empty(archives: &Vec<ArchiveFacts>, index: usize) -> (empty: bool)
    requires
        index < archives@.len(),
    ensures
        empty == scans_empty(archives@, index as int),
{
    if archives[index].has_index {
        return false;
    }
    let number = match archives[index].archive_number {
        Some(number) => number,
        None => {
            return false;
        },
    };
    let mut position: usize = 0;
    while position < archives.len()
        invariant
            position <= archives@.len(),
            index < archives@.len(),
            archives@[index as int].archive_number == Some(number),
            forall|j: int|
                0 <= j < position && !(#[trigger] archives@[j]).has_index
                    && archives@[j].archive_number == Some(number)
                    ==> archives@[j].segments@.len() == 0,
        decreases archives@.len() - position,
    {
        let archive = &archives[position];
        let same = match archive.archive_number {
            Some(other) => other == number,
            None => false,
        };
        if !archive.has_index && same && archive.segments.len() != 0 {
            assert(archives@[position as int].segments@.len() != 0);
            return false;
        }
        position = position + 1;
    }
    true
}

/// The census of a store, given its offenders.
pub open spec fn store_census<'census>(
    archives: Seq<ArchiveFacts>,
    offenders: &'census Vec<IndexlessArchive>,
) -> IndexlessCensus<'census> {
    IndexlessCensus {
        total_numbers: numbers_of(archives, false).len() as usize,
        indexless_numbers: numbers_of(archives, true).len() as usize,
        offenders,
        newest_is_indexless: !archives[0].has_index,
        any_scan_is_empty: some_number_scans_empty(archives),
    }
}

/// Whether a text is the refusal that a store's archives earn.
pub open spec fn is_store_refusal(archives: Seq<ArchiveFacts>, refusal: Seq<char>) -> bool {
    exists|offenders: Vec<IndexlessArchive>|
        #[trigger] listed_offenders(offenders@) == offenders_of(archives) && is_refusal(
            store_census(archives, &offenders),
            refusal,
        )
}

/// The names and reasons of offenders.
pub open spec fn listed_offenders(offenders: Seq<IndexlessArchive>) -> Seq<
    (Seq<char>, Seq<char>),
> {
    offenders.map_values(
        |offender: IndexlessArchive| (offender.file_name@, offender.reason@),
    )
}

/// The refusal an index-less active archive earns, built from the open
/// readers' census — or `None` when every active archive carries a valid
/// index. The archives come newest first.
pub fn indexless_active_archive_refusal(archives: &Vec<ArchiveFacts>) -> (refusal: Option<String>)
    ensures
        match refusal {
            None => offenders_of(archives@).len() == 0,
            Some(text) => offenders_of(archives@).len() > 0 && is_store_refusal(archives@, text@),
        },
{
    let mut offenders: Vec<IndexlessArchive> = Vec::new();
    let mut index: usize = 0;
    assert(archives@.take(0) =~= Seq::empty());
    assert(listed_offenders(offenders@) =~= Seq::empty());
    while index < archives.len()
        invariant
            index <= archives@.len(),
            listed_offenders(offenders@) == offenders_of(archives@.take(index as int)),
        decreases archives@.len() - index,
    {
        let ghost before = listed_offenders(offenders@);
        let ghost longer = archives@.take(index as int + 1);
        assert(longer.drop_last() =~= archives@.take(index as int));
        assert(longer.last() == archives@[index as int]);
        match &archives[index].recovery_reason {
            Some(reason) => {
                offenders.push(
                    IndexlessArchive {
                        file_name: archives[index].file_name.clone(),
                        reason: reason.clone(),
                    },
                );
                assert(listed_offenders(offenders@) =~= before.push(
                    (archives@[index as int].file_name@, reason@),
                ));
            },
            None => {},
        }
        index = index + 1;
    }
    assert(archives@.take(index as int) =~= archives@);
    if offenders.len() == 0 {
        return None;
    }
    if archives.len() == 0 {
        assert(offenders_of(archives@) =~= Seq::empty());
        return None;
    }
    let total_numbers = distinct_numbers(archives, false);
    let indexless_numbers = distinct_numbers(archives, true);
    let newest_is_indexless = !archives[0].has_index;
    let mut any_scan_is_empty = false;
    let mut position: usize = 0;
    while position < archives.len() && !any_scan_is_empty
        invariant
            position <= archives@.len(),
            any_scan_is_empty ==> some_number_scans_empty(archives@),
            !any_scan_is_empty ==> forall|i: int|
                0 <= i < position ==> !#[trigger] scans_empty(archives@, i),
        decreases archives@.len() - position,
    {
        if number_scans_empty(archives, position) {
            any_scan_is_empty = true;
        }
        position = position + 1;
    }
    let refusal = indexless_archive_refusal(
        IndexlessCensus {
            total_numbers,
            indexless_numbers,
            offenders: &offenders,
            newest_is_indexless,
            any_scan_is_empty,
        },
    );
    assert(is_refusal(store_census(archives@, &offenders), refusal@));
    Some(refusal)
}

/// Refuses to plan over an active archive without an index, early and before
/// anything is walked, unless the run is to repair it.
pub fn refuse_indexless_before_planning(
    options: &CompactionOptions,
    archives: &Vec<ArchiveFacts>,
) -> (checked: Result<(), Error>)
    ensures
        match checked {
            Ok(_) => options@.tasks.contains(MaintenanceTask::RepairArchives) || offenders_of(
                archives@,
            ).len() == 0,
            Err(error) => {
                &&& !options@.tasks.contains(MaintenanceTask::RepairArchives)
                &&& offenders_of(archives@).len() > 0
                &&& error matches Error::InvalidFormat { details } && is_store_refusal(
                    archives@,
                    details@,
                )
            },
        },
{
    if options.contains(MaintenanceTask::RepairArchives) {
        return Ok(());
    }
    match indexless_active_archive_refusal(archives) {
        Some(details) => Err(Error::InvalidFormat { details }),
        None => Ok(()),
    }
}

} // verus!
