//! As whom a run may replace files, and which files it takes owners and modes from.
use vstd::prelude::*;
use vstd::string::*;
use crate::apply_identity;
use crate::apply_identity::{ApplyCredentials, PlannedRewrites};
use crate::planning::PlannedArchiveSweep;

verus! {

/// A file created in a directory gets the directory's group where the directory hands
/// its group on; otherwise it gets that one or the effective one, and both are held
/// possible, in ascending order.
pub proof fn law_a_created_file_gets_one_of_two_groups(
    directory_gid: u32,
    directory_mode: u32,
    effective_gid: u32,
    group: u32,
)
    ensures
        ({
            let groups = apply_identity::created_groups(
                directory_gid,
                directory_mode,
                effective_gid,
            );
            &&& groups.contains(group) <==> group == directory_gid || directory_mode & 0o2000 == 0
                && group == effective_gid
            &&& forall|i: int, j: int| 0 <= i < j < groups.len() ==> groups[i] < groups[j]
        }),
{
    let groups = apply_identity::created_groups(directory_gid, directory_mode, effective_gid);
    if apply_identity::has_setgid(directory_mode) || effective_gid == directory_gid {
        assert(groups[0] == directory_gid);
    } else {
        assert(groups.len() == 2);
        assert(groups[0] == directory_gid || groups[1] == directory_gid);
        assert(groups[0] == effective_gid || groups[1] == effective_gid);
    }
}

/// A file can be replaced without loss exactly if it belongs to the effective user
/// and its group can be kept: the user is the superuser or a member of that group, or
/// the replacement gets that group by itself and has no group bit to set.
pub proof fn law_a_replacement_is_safe_exactly_if_owner_and_group_can_be_kept(
    path: Seq<char>,
    owner: u32,
    group: u32,
    mode: u32,
    directory_gid: u32,
    directory_mode: u32,
    credentials: ApplyCredentials,
)
    ensures
        apply_identity::source_issue(
            path,
            owner,
            group,
            mode,
            apply_identity::created_groups(
                directory_gid,
                directory_mode,
                credentials.effective_gid,
            ),
            credentials,
        ) is None <==> {
            &&& owner == credentials.effective_uid
            &&& {
                ||| credentials.effective_uid == 0
                ||| credentials.group_ids@.contains(group)
                ||| mode & 0o2000 == 0 && group == directory_gid && (directory_mode & 0o2000 != 0
                    || group == credentials.effective_gid)
            }
        },
{
    let groups = apply_identity::created_groups(
        directory_gid,
        directory_mode,
        credentials.effective_gid,
    );
    if apply_identity::has_setgid(directory_mode) || credentials.effective_gid == directory_gid {
        assert(groups =~= seq![directory_gid]);
        assert(groups[0] == directory_gid);
    } else {
        assert(groups.len() == 2);
        assert(groups[0] != groups[1]);
        assert(groups[0] != group || groups[1] != group);
        assert(apply_identity::must_touch_group(group, mode, groups));
    }
}

proof fn lemma_swept_away(archives: Seq<PlannedArchiveSweep>, name: Seq<char>, position: int)
    requires
        0 <= position < archives.len(),
        apply_identity::swept_name(archives[position]) == name,
        forall|i: int|
            position < i < archives.len() ==> apply_identity::swept_name(#[trigger] archives[i])
                != name,
    ensures
        apply_identity::sweeps_away(archives, name) == (archives[position] is Remove),
    decreases archives.len(),
{
    if position < archives.len() - 1 {
        assert(apply_identity::swept_name(archives[archives.len() - 1]) != name);
        lemma_swept_away(archives.drop_last(), name, position);
    }
}

/// The name of the archive that a sweep entry is about.
pub open spec fn archive_name(sweep: PlannedArchiveSweep) -> Seq<char> {
    match sweep {
        PlannedArchiveSweep::Remove { file_name, .. } => file_name@,
        PlannedArchiveSweep::Rewrite { file_name, .. } => file_name@,
        PlannedArchiveSweep::DeferredBySavings { file_name, .. } => file_name@,
        PlannedArchiveSweep::DeferredAtLastGeneration { file_name, .. } => file_name@,
        PlannedArchiveSweep::BlockedByOccupiedGeneration { file_name, .. } => file_name@,
    }
}

/// An archive is swept away exactly if the last entry about it removes it.
pub proof fn law_the_last_entry_sweeps_an_archive_away(
    archives: Seq<PlannedArchiveSweep>,
    name: Seq<char>,
    position: int,
)
    requires
        0 <= position < archives.len(),
        archive_name(archives[position]) == name,
        forall|i: int|
            position < i < archives.len() ==> archive_name(#[trigger] archives[i]) != name,
    ensures
        apply_identity::sweeps_away(archives, name) == (archives[position] is Remove),
{
    assert forall|i: int|
        position < i < archives.len() implies apply_identity::swept_name(#[trigger] archives[i])
        != name by {
        assert(archive_name(archives[i]) != name);
    }
    lemma_swept_away(archives, name, position);
}

/// An archive that no entry is about stays.
pub proof fn law_an_unmentioned_archive_stays(
    archives: Seq<PlannedArchiveSweep>,
    name: Seq<char>,
)
    requires
        forall|i: int| 0 <= i < archives.len() ==> archive_name(#[trigger] archives[i]) != name,
    ensures
        !apply_identity::sweeps_away(archives, name),
    decreases archives.len(),
{
    if archives.len() > 0 {
        assert(archive_name(archives[archives.len() - 1]) != name);
        assert forall|i: int| 0 <= i < archives.drop_last().len() implies archive_name(
            #[trigger] archives.drop_last()[i],
        ) != name by {
            assert(archive_name(archives[i]) != name);
        }
        law_an_unmentioned_archive_stays(archives.drop_last(), name);
    }
}

proof fn lemma_template(
    newest_first: Seq<Seq<char>>,
    archives: Seq<PlannedArchiveSweep>,
    name: Seq<char>,
)
    ensures
        apply_identity::template_names(newest_first, archives).contains(name) <==> exists|i: int|
            0 <= i < newest_first.len() && #[trigger] newest_first[i] == name && forall|j: int|
                0 <= j < i ==> apply_identity::sweeps_away(archives, #[trigger] newest_first[j]),
    decreases newest_first.len(),
{
    let all = apply_identity::template_names(newest_first, archives);
    if newest_first.len() == 0 {
        assert(!all.contains(name));
    } else {
        let rest = newest_first.drop_first();
        let further = apply_identity::template_names(rest, archives);
        lemma_template(rest, archives, name);
        assert(all[0] == newest_first[0]);
        if newest_first[0] == name {
            assert(all.contains(name));
        }
        if apply_identity::sweeps_away(archives, newest_first[0]) {
            assert(all =~= seq![newest_first[0]] + further);
            if further.contains(name) {
                let i = choose|i: int| 0 <= i < further.len() && further[i] == name;
                assert(all[i + 1] == name);
                let k = choose|k: int|
                    0 <= k < rest.len() && #[trigger] rest[k] == name && forall|j: int|
                        0 <= j < k ==> apply_identity::sweeps_away(archives, #[trigger] rest[j]);
                assert(newest_first[k + 1] == name);
                assert forall|j: int| 0 <= j < k + 1 implies apply_identity::sweeps_away(
                    archives,
                    #[trigger] newest_first[j],
                ) by {
                    if j > 0 {
                        assert(rest[j - 1] == newest_first[j]);
                    }
                }
            }
            if exists|i: int|
                0 <= i < newest_first.len() && #[trigger] newest_first[i] == name && forall|j: int|
                    0 <= j < i ==> apply_identity::sweeps_away(
                        archives,
                        #[trigger] newest_first[j],
                    ) {
                let i = choose|i: int|
                    0 <= i < newest_first.len() && #[trigger] newest_first[i] == name && forall|
                        j: int,
                    |
                        0 <= j < i ==> apply_identity::sweeps_away(
                            archives,
                            #[trigger] newest_first[j],
                        );
                if i > 0 {
                    assert(rest[i - 1] == name);
                    assert forall|j: int| 0 <= j < i - 1 implies apply_identity::sweeps_away(
                        archives,
                        #[trigger] rest[j],
                    ) by {
                        assert(rest[j] == newest_first[j + 1]);
                    }
                    let k = choose|k: int| 0 <= k < further.len() && further[k] == name;
                    assert(all[k + 1] == name);
                }
            }
            if all.contains(name) {
                let i = choose|i: int| 0 <= i < all.len() && all[i] == name;
                if i > 0 {
                    assert(further[i - 1] == name);
                }
            }
        } else {
            assert(all =~= seq![newest_first[0]]);
            if exists|i: int|
                0 <= i < newest_first.len() && #[trigger] newest_first[i] == name && forall|j: int|
                    0 <= j < i ==> apply_identity::sweeps_away(
                        archives,
                        #[trigger] newest_first[j],
                    ) {
                let i = choose|i: int|
                    0 <= i < newest_first.len() && #[trigger] newest_first[i] == name && forall|
                        j: int,
                    |
                        0 <= j < i ==> apply_identity::sweeps_away(
                            archives,
                            #[trigger] newest_first[j],
                        );
                if i > 0 {
                    assert(apply_identity::sweeps_away(archives, newest_first[0]));
                }
            }
        }
    }
}

/// A run takes owners and modes from the manifest that it upgrades, from the journal
/// that it rewrites, from every archive that it rewrites and, where it removes
/// checkpoints, from the newest archive that is sure to stay and from those before it
/// that may; and from no other file.
pub proof fn law_owners_come_from_what_is_replaced(
    rewrites: PlannedRewrites<'_>,
    newest_first: Seq<Seq<char>>,
    name: Seq<char>,
)
    ensures
        ({
            let archives = apply_identity::archives_of(rewrites.segment_plan);
            apply_identity::metadata_sources(rewrites, newest_first).contains(name) <==> {
                ||| rewrites.upgrades_manifest && name == "manifest"@
                ||| rewrites.rewrites_journal && name == "journal.log"@
                ||| exists|i: int|
                    0 <= i < archives.len() && #[trigger] archives[i] is Rewrite && archive_name(
                        archives[i],
                    ) == name
                ||| rewrites.moves_checkpoint_head && exists|i: int|
                    0 <= i < newest_first.len() && #[trigger] newest_first[i] == name && forall|
                        j: int,
                    |
                        0 <= j < i ==> apply_identity::sweeps_away(
                            archives,
                            #[trigger] newest_first[j],
                        )
            }
        }),
        match rewrites.segment_plan {
            Some(sweep) => apply_identity::archives_of(rewrites.segment_plan) == sweep.archives@,
            None => apply_identity::archives_of(rewrites.segment_plan).len() == 0,
        },
{
    let archives = apply_identity::archives_of(rewrites.segment_plan);
    lemma_template(newest_first, archives, name);
    assert(apply_identity::template_names(newest_first, archives).to_set().contains(name)
        <==> apply_identity::template_names(newest_first, archives).contains(name));
    assert(forall|sweep: PlannedArchiveSweep| #[trigger]
        archive_name(sweep) == apply_identity::swept_name(sweep));
    if apply_identity::rewritten_names(archives).contains(name) {
        let i = choose|i: int|
            0 <= i < archives.len() && #[trigger] archives[i] is Rewrite
                && apply_identity::swept_name(archives[i]) == name;
        assert(archive_name(archives[i]) == name);
    }
    if exists|i: int|
        0 <= i < archives.len() && #[trigger] archives[i] is Rewrite && archive_name(archives[i])
            == name {
        let i = choose|i: int|
            0 <= i < archives.len() && #[trigger] archives[i] is Rewrite && archive_name(
                archives[i],
            ) == name;
        assert(apply_identity::swept_name(archives[i]) == name);
        assert(apply_identity::rewritten_names(archives).contains(name));
    }
}

} // verus!
