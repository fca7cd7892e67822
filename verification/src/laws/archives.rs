//! Which archives lack an index, and what the refusal of such a store says.
use vstd::prelude::*;
use vstd::string::*;
use crate::indexless_refusal;
use crate::indexless_refusal::{ArchiveFacts, IndexlessArchive};
use crate::text;

verus! {

/// A store is refused exactly if one of its archives is served by a recovery scan.
pub proof fn law_any_scanned_archive_refuses_the_store(archives: Seq<ArchiveFacts>)
    ensures
        indexless_refusal::offenders_of(archives).len() > 0 <==> exists|i: int|
            0 <= i < archives.len() && (#[trigger] archives[i]).recovery_reason is Some,
    decreases archives.len(),
{
    if archives.len() > 0 {
        let shorter = archives.drop_last();
        let end = archives.len() - 1;
        law_any_scanned_archive_refuses_the_store(shorter);
        assert(archives[end] == archives.last());
        if exists|i: int|
            0 <= i < shorter.len() && (#[trigger] shorter[i]).recovery_reason is Some {
            let i = choose|i: int|
                0 <= i < shorter.len() && (#[trigger] shorter[i]).recovery_reason is Some;
            assert(archives[i].recovery_reason is Some);
        }
        if exists|i: int|
            0 <= i < archives.len() && (#[trigger] archives[i]).recovery_reason is Some {
            let i = choose|i: int|
                0 <= i < archives.len() && (#[trigger] archives[i]).recovery_reason is Some;
            if i < end {
                assert(shorter[i].recovery_reason is Some);
            }
        }
    }
}

/// An archive that is served by a recovery scan is an offender, with its name and the
/// reason why its index was rejected; no other archive is one.
pub proof fn law_scanned_archives_are_the_offenders(
    archives: Seq<ArchiveFacts>,
    name: Seq<char>,
    why: Seq<char>,
)
    ensures
        indexless_refusal::offenders_of(archives).contains((name, why)) <==> exists|i: int|
            0 <= i < archives.len() && (#[trigger] archives[i]).recovery_reason is Some
                && archives[i].file_name@ == name && archives[i].recovery_reason->0@ == why,
    decreases archives.len(),
{
    let all = indexless_refusal::offenders_of(archives);
    if archives.len() == 0 {
        assert(!all.contains((name, why)));
    } else {
        let shorter = archives.drop_last();
        let end = archives.len() - 1;
        law_scanned_archives_are_the_offenders(shorter, name, why);
        let earlier = indexless_refusal::offenders_of(shorter);
        assert(archives[end] == archives.last());
        assert(forall|i: int| 0 <= i < end ==> archives[i] == shorter[i]);
        if earlier.contains((name, why)) {
            let i = choose|i: int| 0 <= i < earlier.len() && earlier[i] == (name, why);
            assert(all[i] == (name, why));
            let k = choose|k: int|
                0 <= k < shorter.len() && (#[trigger] shorter[k]).recovery_reason is Some
                    && shorter[k].file_name@ == name && shorter[k].recovery_reason->0@ == why;
            assert(archives[k].file_name@ == name);
        }
        if all.contains((name, why)) {
            let i = choose|i: int| 0 <= i < all.len() && all[i] == (name, why);
            if i < earlier.len() {
                assert(earlier[i] == (name, why));
            }
        }
        if let Some(reason) = archives.last().recovery_reason {
            assert(all[earlier.len() as int] == (archives.last().file_name@, reason@));
        }
        if exists|i: int|
            0 <= i < archives.len() && (#[trigger] archives[i]).recovery_reason is Some
                && archives[i].file_name@ == name && archives[i].recovery_reason->0@ == why {
            let i = choose|i: int|
                0 <= i < archives.len() && (#[trigger] archives[i]).recovery_reason is Some
                    && archives[i].file_name@ == name && archives[i].recovery_reason->0@ == why;
            if i < end {
                assert(shorter[i].file_name@ == name);
            }
        }
    }
}

/// A refusal counts archive numbers: all of them, and those with an archive that is
/// served by a recovery scan; it says whether the newest archive has no index, and
/// whether all letters of some number without an index scan to nothing.
pub proof fn law_a_refusal_counts_archive_numbers(
    archives: Seq<ArchiveFacts>,
    offenders: &Vec<IndexlessArchive>,
)
    requires
        indexless_refusal::numbers_of(archives, false).len() <= usize::MAX,
        indexless_refusal::numbers_of(archives, true).len() <= usize::MAX,
    ensures
        ({
            let census = indexless_refusal::store_census(archives, offenders);
            &&& census.total_numbers == Set::new(
                |number: u32|
                    exists|i: int|
                        0 <= i < archives.len() && (#[trigger] archives[i]).archive_number == Some(
                            number,
                        ),
            ).len()
            &&& census.indexless_numbers == Set::new(
                |number: u32|
                    exists|i: int|
                        0 <= i < archives.len() && (#[trigger] archives[i]).archive_number == Some(
                            number,
                        ) && archives[i].recovery_reason is Some,
            ).len()
            &&& census.newest_is_indexless == !archives[0].has_index
            &&& census.any_scan_is_empty <==> exists|i: int|
                0 <= i < archives.len() && !(#[trigger] archives[i]).has_index
                    && archives[i].archive_number is Some && forall|j: int|
                    0 <= j < archives.len() && !(#[trigger] archives[j]).has_index
                        && archives[j].archive_number == archives[i].archive_number
                        ==> archives[j].segments@.len() == 0
            &&& census.offenders@ == offenders@
        }),
{
    assert(indexless_refusal::numbers_of(archives, false) =~= Set::new(
        |number: u32|
            exists|i: int|
                0 <= i < archives.len() && (#[trigger] archives[i]).archive_number == Some(number),
    ));
    assert(indexless_refusal::numbers_of(archives, true) =~= Set::new(
        |number: u32|
            exists|i: int|
                0 <= i < archives.len() && (#[trigger] archives[i]).archive_number == Some(number)
                    && archives[i].recovery_reason is Some,
    ));
    if indexless_refusal::some_number_scans_empty(archives) {
        let i = choose|i: int|
            0 <= i < archives.len() && #[trigger] indexless_refusal::scans_empty(archives, i);
        assert(!archives[i].has_index);
    }
    if exists|i: int|
        0 <= i < archives.len() && !(#[trigger] archives[i]).has_index
            && archives[i].archive_number is Some && forall|j: int|
            0 <= j < archives.len() && !(#[trigger] archives[j]).has_index
                && archives[j].archive_number == archives[i].archive_number
                ==> archives[j].segments@.len() == 0 {
        let i = choose|i: int|
            0 <= i < archives.len() && !(#[trigger] archives[i]).has_index
                && archives[i].archive_number is Some && forall|j: int|
                0 <= j < archives.len() && !(#[trigger] archives[j]).has_index
                    && archives[j].archive_number == archives[i].archive_number
                    ==> archives[j].segments@.len() == 0;
        assert(indexless_refusal::scans_empty(archives, i));
    }
}

/// A refusal names up to five offenders, and says how many more there are.
pub proof fn law_a_refusal_names_five(names: Seq<Seq<char>>)
    ensures
        names.len() <= 5 ==> indexless_refusal::names_text(names) == text::joined(names, ", "@),
        names.len() > 5 ==> indexless_refusal::names_text(names) == text::joined(
            names.take(5),
            ", "@,
        ) + ", and "@ + text::decimal((names.len() - 5) as nat) + " more"@,
{
}

/// Where something can not be rebuilt the operator is told to move it aside, whatever
/// else is true; where only a writer was killed, to authorize the repair; and
/// otherwise to look first.
pub proof fn law_the_remedy_fits_the_damage(newest_is_indexless: bool)
    ensures
        indexless_refusal::remedy_text(newest_is_indexless, true)
            == "at least one of them holds no segment the recovery scan can read, so nothing can rebuild it — move that file aside to proceed, and keep it, it is the only copy of whatever it holds"@,
        indexless_refusal::remedy_text(true, false)
            == "authorize the repair — interactively at the prompt, or with `--yes` — to rebuild the missing index from the archive's own entries, retaining the original bytes under a `.bak` name"@,
        indexless_refusal::remedy_text(false, false)
            == "inspect before repairing: an authorized repair (yes at the prompt, or `--yes`) rebuilds the missing indexes from a recovery scan, which retains the original bytes under `.bak` names but cannot recover a segment the scan cannot read"@,
{
}

} // verus!
