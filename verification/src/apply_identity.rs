//! Ownership and permission checks. A run that would write files that a service
//! user cannot read afterwards is refused before it starts.
use vstd::prelude::*;
use vstd::string::*;
use crate::error::Error;
use crate::options::MaintenanceTask;
use crate::order;
use crate::order::insert_name;
use crate::plan::CompactionPlan;
use crate::planning::{PlannedArchiveSweep, SegmentCompactionPlan};
use crate::text;
use crate::text::{push_decimal, push_fixed_digits, text_eq};

verus! {

/// The mode bit by which a directory hands its group on, and a file runs with
/// its group.
pub const SETGID_MODE: u32 = 0o2000;

/// Whether a mode has that bit.
pub open spec fn has_setgid(mode: u32) -> bool {
    mode & SETGID_MODE != 0
}

/// Groups in ascending order, each once.
pub open spec fn ascending_groups(groups: Seq<u32>) -> bool {
    forall|i: int, j: int| 0 <= i < j < groups.len() ==> groups[i] < groups[j]
}

/// Adds a group to a list in ascending order.
fn insert_group(groups: &mut Vec<u32>, group: u32)
    requires
        ascending_groups(old(groups)@),
    ensures
        ascending_groups(final(groups)@),
        final(groups)@.to_set() == old(groups)@.to_set().insert(group),
{
    let ghost before = groups@;
    let mut position: usize = 0;
    while position < groups.len() && groups[position] < group
        invariant
            position <= groups@.len(),
            groups@ == before,
            forall|i: int| 0 <= i < position ==> before[i] < group,
        decreases groups@.len() - position,
    {
        position = position + 1;
    }
    if position < groups.len() && groups[position] == group {
        assert(before[position as int] == group);
        assert(before.to_set().insert(group) =~= before.to_set());
        return;
    }
    groups.insert(position, group);
    proof {
        let after = groups@;
        assert(after == before.insert(position as int, group));
        assert forall|other: u32| after.to_set().contains(other) == before.to_set().insert(
            group,
        ).contains(other) by {
            if after.contains(other) {
                let k = choose|k: int| 0 <= k < after.len() && after[k] == other;
                if k < position {
                    assert(before[k] == other);
                } else if k > position {
                    assert(before[k - 1] == other);
                }
            }
            if before.contains(other) {
                let k = choose|k: int| 0 <= k < before.len() && before[k] == other;
                if k < position {
                    assert(after[k] == other);
                } else {
                    assert(after[k + 1] == other);
                }
            }
            assert(after[position as int] == group);
        }
        assert(after.to_set() =~= before.to_set().insert(group));
    }
}

/// Whether a list holds a group.
fn holds_group(groups: &Vec<u32>, group: u32) -> (found: bool)
    ensures
        found == groups@.contains(group),
{
    let mut index: usize = 0;
    while index < groups.len()
        invariant
            index <= groups@.len(),
            forall|i: int| 0 <= i < index ==> groups@[i] != group,
        decreases groups@.len() - index,
    {
        if groups[index] == group {
            assert(groups@[index as int] == group);
            return true;
        }
        index = index + 1;
    }
    false
}

/// As whom a run writes.
#[derive(Clone, Debug, PartialEq, Eq)]
pub struct ApplyCredentials {
    /// The effective user.
    pub effective_uid: u32,
    /// The effective group.
    pub effective_gid: u32,
    /// The effective and the supplementary groups, ascending.
    pub group_ids: Vec<u32>,
}

impl ApplyCredentials {
    /// The groups are in order, each once.
    pub open spec fn well_formed(&self) -> bool {
        ascending_groups(self.group_ids@)
    }

    /// Credentials with these supplementary groups: the effective group always
    /// belongs to them.
    pub fn new(effective_uid: u32, effective_gid: u32, groups: &Vec<u32>) -> (credentials: Self)
        ensures
            credentials.well_formed(),
            credentials.effective_uid == effective_uid,
            credentials.effective_gid == effective_gid,
            credentials.group_ids@.to_set() == groups@.to_set().insert(effective_gid),
    {
        let mut group_ids: Vec<u32> = Vec::new();
        insert_group(&mut group_ids, effective_gid);
        let mut index: usize = 0;
        assert(group_ids@.to_set() =~= groups@.take(0).to_set().insert(effective_gid));
        while index < groups.len()
            invariant
                index <= groups@.len(),
                ascending_groups(group_ids@),
                group_ids@.to_set() == groups@.take(index as int).to_set().insert(effective_gid),
            decreases groups@.len() - index,
        {
            let ghost taken = groups@.take(index as int);
            let ghost known = group_ids@.to_set();
            insert_group(&mut group_ids, groups[index]);
            proof {
                let group = groups@[index as int];
                taken.lemma_push_to_set_commute(group);
                assert(groups@.take(index as int + 1) =~= taken.push(group));
                assert(known.insert(group) =~= taken.push(group).to_set().insert(effective_gid));
            }
            index = index + 1;
        }
        assert(groups@.take(index as int) =~= groups@);
        ApplyCredentials { effective_uid, effective_gid, group_ids }
    }
}

/// The groups that a file created in a directory may get, ascending.
///
/// A directory with the bit hands its own group on. Without it, both the
/// effective group and the directory's group are permitted, and which one comes
/// out depends on the file system: a read-only preview cannot tell, so both are
/// modelled.
pub open spec fn created_groups(
    directory_gid: u32,
    directory_mode: u32,
    effective_gid: u32,
) -> Seq<u32> {
    if has_setgid(directory_mode) || effective_gid == directory_gid {
        seq![directory_gid]
    } else if effective_gid < directory_gid {
        seq![effective_gid, directory_gid]
    } else {
        seq![directory_gid, effective_gid]
    }
}

/// The groups that a file created in a directory may get, ascending.
pub fn possible_created_group_ids(
    directory_gid: u32,
    directory_mode: u32,
    credentials: &ApplyCredentials,
) -> (groups: Vec<u32>)
    ensures
        groups@ == created_groups(directory_gid, directory_mode, credentials.effective_gid),
{
    let mut groups: Vec<u32> = Vec::new();
    if directory_mode & SETGID_MODE != 0 || credentials.effective_gid == directory_gid {
        groups.push(directory_gid);
    } else if credentials.effective_gid < directory_gid {
        groups.push(credentials.effective_gid);
        groups.push(directory_gid);
    } else {
        groups.push(directory_gid);
        groups.push(credentials.effective_gid);
    }
    assert(groups@ =~= created_groups(
        directory_gid,
        directory_mode,
        credentials.effective_gid,
    ));
    groups
}

/// The decimal numbers of some groups.
pub open spec fn group_texts(groups: Seq<u32>) -> Seq<Seq<char>> {
    groups.map_values(|group: u32| text::decimal(group as nat))
}

/// Groups as an operator reads them, in braces.
pub open spec fn group_list(groups: Seq<u32>) -> Seq<char> {
    "{"@ + text::joined(group_texts(groups), ", "@) + "}"@
}

fn push_groups(text: &mut String, groups: &Vec<u32>)
    ensures
        final(text)@ == old(text)@ + group_list(groups@),
{
    let ghost before = text@;
    let mut rendered: Vec<String> = Vec::new();
    let mut index: usize = 0;
    assert(crate::text::texts(rendered@) =~= group_texts(groups@.take(0)));
    while index < groups.len()
        invariant
            index <= groups@.len(),
            crate::text::texts(rendered@) == group_texts(groups@.take(index as int)),
        decreases groups@.len() - index,
    {
        let ghost known = crate::text::texts(rendered@);
        let mut number = String::new();
        push_decimal(&mut number, groups[index] as u64);
        rendered.push(number);
        proof {
            let value = crate::text::decimal(groups@[index as int] as nat);
            assert(number@ =~= value);
            assert(crate::text::texts(rendered@) =~= known.push(value));
            assert(group_texts(groups@.take(index as int + 1)) =~= known.push(value));
        }
        index = index + 1;
    }
    assert(groups@.take(index as int) =~= groups@);
    let list = crate::text::join(&rendered, ", ");
    text.append("{");
    text.append(list.as_str());
    text.append("}");
    assert(text@ =~= before + group_list(groups@));
}

/// What an operator reads about a file of another user.
pub open spec fn foreign_owner_text(path: Seq<char>, owner: u32, effective_uid: u32) -> Seq<char> {
    "cleanup cannot safely replace "@ + path
        + " while preserving its metadata: it is owned by uid "@ + text::decimal(owner as nat)
        + ", but the effective uid is "@ + text::decimal(effective_uid as nat)
}

/// What an operator reads about a file whose group cannot be kept.
pub open spec fn foreign_group_text(
    path: Seq<char>,
    group: u32,
    mode: u32,
    possible_created_gids: Seq<u32>,
    effective_uid: u32,
) -> Seq<char> {
    "cleanup cannot safely replace "@ + path + " while preserving its metadata: gid "@
        + text::decimal(group as nat) + " is not the effective or a supplementary group of uid "@
        + text::decimal(effective_uid as nat) + ", while a new staging file may have gid "@
        + group_list(possible_created_gids) + " and the source mode is 0o"@ + text::fixed_digits(
        (mode & 0o7777) as nat,
        8,
        4,
    )
        + "; group ownership and setgid-mode preservation cannot be guaranteed read-only"@
}

/// Whether a created file's group might have to be changed, or the bit set.
pub open spec fn must_touch_group(
    group: u32,
    mode: u32,
    possible_created_gids: Seq<u32>,
) -> bool {
    has_setgid(mode) || exists|i: int|
        0 <= i < possible_created_gids.len() && #[trigger] possible_created_gids[i] != group
}

/// Why a file's replacement might not keep its owner, its group or its mode.
pub open spec fn source_issue(
    path: Seq<char>,
    owner: u32,
    group: u32,
    mode: u32,
    possible_created_gids: Seq<u32>,
    credentials: ApplyCredentials,
) -> Option<Seq<char>> {
    if owner != credentials.effective_uid {
        Some(foreign_owner_text(path, owner, credentials.effective_uid))
    } else if credentials.effective_uid != 0 && !credentials.group_ids@.contains(group)
        && must_touch_group(group, mode, possible_created_gids) {
        Some(
            foreign_group_text(
                path,
                group,
                mode,
                possible_created_gids,
                credentials.effective_uid,
            ),
        )
    } else {
        None
    }
}

/// Says why a file's replacement might not keep its owner, its group or its
/// mode.
pub fn metadata_source_apply_identity_issue(
    path: &str,
    owner: u32,
    group: u32,
    mode: u32,
    possible_created_gids: &Vec<u32>,
    credentials: &ApplyCredentials,
) -> (issue: Option<String>)
    ensures
        match issue {
            Some(text) => source_issue(
                path@,
                owner,
                group,
                mode,
                possible_created_gids@,
                *credentials,
            ) == Some(text@),
            None => source_issue(
                path@,
                owner,
                group,
                mode,
                possible_created_gids@,
                *credentials,
            ) is None,
        },
{
    if owner != credentials.effective_uid {
        let mut issue = String::from_str("cleanup cannot safely replace ");
        issue.append(path);
        issue.append(" while preserving its metadata: it is owned by uid ");
        push_decimal(&mut issue, owner as u64);
        issue.append(", but the effective uid is ");
        push_decimal(&mut issue, credentials.effective_uid as u64);
        assert(issue@ =~= foreign_owner_text(path@, owner, credentials.effective_uid));
        return Some(issue);
    }
    let mut might_change_group = false;
    let mut index: usize = 0;
    while index < possible_created_gids.len()
        invariant
            index <= possible_created_gids@.len(),
            might_change_group == exists|i: int|
                0 <= i < index && #[trigger] possible_created_gids@[i] != group,
        decreases possible_created_gids@.len() - index,
    {
        if possible_created_gids[index] != group {
            assert(possible_created_gids@[index as int] != group);
            might_change_group = true;
        }
        index = index + 1;
    }
    let must_install_setgid = mode & SETGID_MODE != 0;
    if credentials.effective_uid != 0 && !holds_group(&credentials.group_ids, group) && (
    might_change_group || must_install_setgid) {
        let mut issue = String::from_str("cleanup cannot safely replace ");
        issue.append(path);
        issue.append(" while preserving its metadata: gid ");
        push_decimal(&mut issue, group as u64);
        issue.append(" is not the effective or a supplementary group of uid ");
        push_decimal(&mut issue, credentials.effective_uid as u64);
        issue.append(", while a new staging file may have gid ");
        push_groups(&mut issue, possible_created_gids);
        issue.append(" and the source mode is 0o");
        push_fixed_digits(&mut issue, (mode & 0o7777) as u64, 8, 4);
        issue.append(
            "; group ownership and setgid-mode preservation cannot be guaranteed read-only",
        );
        assert(issue@ =~= foreign_group_text(
            path@,
            group,
            mode,
            possible_created_gids@,
            credentials.effective_uid,
        ));
        return Some(issue);
    }
    None
}

/// What a run will rewrite, which decides the files that it takes ownership and
/// permissions from.
#[derive(Clone, Copy, Debug)]
pub struct PlannedRewrites<'plan> {
    /// Whether the manifest is upgraded.
    pub upgrades_manifest: bool,
    /// What the sweep does to each archive.
    pub segment_plan: Option<&'plan SegmentCompactionPlan>,
    /// Whether checkpoints are removed.
    pub moves_checkpoint_head: bool,
    /// Whether the journal is rewritten.
    pub rewrites_journal: bool,
}

/// Whether a list of tasks holds the journal's.
fn prunes_journal(tasks: &Vec<MaintenanceTask>) -> (prunes: bool)
    ensures
        prunes == tasks@.contains(MaintenanceTask::Journal),
{
    let mut index: usize = 0;
    while index < tasks.len()
        invariant
            index <= tasks@.len(),
            forall|i: int| 0 <= i < index ==> #[trigger] tasks@[i] != MaintenanceTask::Journal,
        decreases tasks@.len() - index,
    {
        if tasks[index] == MaintenanceTask::Journal {
            return true;
        }
        index = index + 1;
    }
    false
}

/// What a plan will rewrite.
pub fn planned_rewrites(plan: &CompactionPlan) -> (rewrites: PlannedRewrites<'_>)
    ensures
        rewrites.upgrades_manifest == plan.manifest_upgrade,
        match plan.segment_plan {
            Some(sweep) => rewrites.segment_plan == Some(&sweep),
            None => rewrites.segment_plan is None,
        },
        rewrites.moves_checkpoint_head == (plan.checkpoints.names@.len() > 0),
        rewrites.rewrites_journal == (plan.tasks@.contains(MaintenanceTask::Journal)
            && plan.journal.removed_lines != 0),
{
    PlannedRewrites {
        upgrades_manifest: plan.manifest_upgrade,
        segment_plan: plan.segment_plan.as_ref(),
        moves_checkpoint_head: plan.checkpoints.names.len() > 0,
        rewrites_journal: prunes_journal(&plan.tasks) && plan.journal.removed_lines != 0,
    }
}

/// The name of an archive that a sweep considers.
pub open spec fn swept_name(archive: PlannedArchiveSweep) -> Seq<char> {
    match archive {
        PlannedArchiveSweep::Remove { file_name, .. } => file_name@,
        PlannedArchiveSweep::Rewrite { file_name, .. } => file_name@,
        PlannedArchiveSweep::DeferredBySavings { file_name, .. } => file_name@,
        PlannedArchiveSweep::DeferredAtLastGeneration { file_name, .. } => file_name@,
        PlannedArchiveSweep::BlockedByOccupiedGeneration { file_name, .. } => file_name@,
    }
}

/// Whether a sweep removes an archive: what it says last of the archive.
pub open spec fn sweeps_away(archives: Seq<PlannedArchiveSweep>, name: Seq<char>) -> bool
    decreases archives.len(),
{
    if archives.len() == 0 {
        false
    } else if swept_name(archives.last()) == name {
        archives.last() is Remove
    } else {
        sweeps_away(archives.drop_last(), name)
    }
}

/// The archives of a sweep.
pub open spec fn archives_of(plan: Option<&SegmentCompactionPlan>) -> Seq<PlannedArchiveSweep> {
    match plan {
        Some(sweep) => sweep.archives@,
        None => Seq::empty(),
    }
}

/// The archives that a sweep rewrites.
pub open spec fn rewritten_names(archives: Seq<PlannedArchiveSweep>) -> Set<Seq<char>> {
    Set::new(
        |name: Seq<char>|
            exists|i: int|
                0 <= i < archives.len() && #[trigger] archives[i] is Rewrite && swept_name(
                    archives[i],
                ) == name,
    )
}

/// The archives whose metadata a new archive may take: those that lead the list
/// and are removed, and the first that is not. A removed archive may stay when
/// its removal fails safely; a rewritten one keeps its place and its metadata.
pub open spec fn template_names(
    newest_first: Seq<Seq<char>>,
    archives: Seq<PlannedArchiveSweep>,
) -> Seq<Seq<char>>
    decreases newest_first.len(),
{
    if newest_first.len() == 0 {
        Seq::empty()
    } else if sweeps_away(archives, newest_first[0]) {
        seq![newest_first[0]] + template_names(newest_first.drop_first(), archives)
    } else {
        seq![newest_first[0]]
    }
}

/// The files that a run takes ownership and permissions from.
pub open spec fn metadata_sources(
    rewrites: PlannedRewrites<'_>,
    newest_first: Seq<Seq<char>>,
) -> Set<Seq<char>> {
    let archives = archives_of(rewrites.segment_plan);
    (if rewrites.upgrades_manifest {
        set!["manifest"@]
    } else {
        Set::empty()
    }).union(
        if rewrites.rewrites_journal {
            set!["journal.log"@]
        } else {
            Set::empty()
        },
    ).union(rewritten_names(archives)).union(
        if rewrites.moves_checkpoint_head {
            template_names(newest_first, archives).to_set()
        } else {
            Set::empty()
        },
    )
}

fn is_swept_away(plan: Option<&SegmentCompactionPlan>, name: &str) -> (removed: bool)
    ensures
        removed == sweeps_away(archives_of(plan), name@),
{
    match plan {
        None => false,
        Some(sweep) => {
            let mut remaining: usize = sweep.archives.len();
            assert(sweep.archives@.take(remaining as int) =~= sweep.archives@);
            while remaining > 0
                invariant
                    remaining <= sweep.archives@.len(),
                    archives_of(plan) == sweep.archives@,
                    sweeps_away(sweep.archives@.take(remaining as int), name@) == sweeps_away(
                        sweep.archives@,
                        name@,
                    ),
                decreases remaining,
            {
                let archive = &sweep.archives[remaining - 1];
                proof {
                    let shown = sweep.archives@.take(remaining as int);
                    assert(shown.last() == *archive);
                    assert(shown.drop_last() =~= sweep.archives@.take(remaining - 1));
                }
                let (file_name, removed) = match archive {
                    PlannedArchiveSweep::Remove { file_name, .. } => (file_name, true),
                    PlannedArchiveSweep::Rewrite { file_name, .. } => (file_name, false),
                    PlannedArchiveSweep::DeferredBySavings { file_name, .. } => (file_name, false),
                    PlannedArchiveSweep::DeferredAtLastGeneration { file_name, .. } => (
                        file_name,
                        false,
                    ),
                    PlannedArchiveSweep::BlockedByOccupiedGeneration { file_name, .. } => (
                        file_name,
                        false,
                    ),
                };
                if text_eq(file_name.as_str(), name) {
                    return removed;
                }
                remaining = remaining - 1;
            }
            assert(sweep.archives@.take(0) =~= Seq::empty());
            false
        },
    }
}

/// The files that a run takes ownership and permissions from, sorted: those
/// that it replaces, and the archives that the output of a moved head may be
/// modelled on.
pub fn planned_metadata_sources(
    rewrites: PlannedRewrites<'_>,
    newest_first: &Vec<String>,
) -> (sources: Vec<String>)
    ensures
        order::ascending(text::texts(sources@)),
        text::texts(sources@).to_set() == metadata_sources(rewrites, text::texts(newest_first@)),
{
    let ghost archives = archives_of(rewrites.segment_plan);
    let mut sources: Vec<String> = Vec::new();
    let ghost manifest: Set<Seq<char>> = if rewrites.upgrades_manifest {
        set!["manifest"@]
    } else {
        Set::empty()
    };
    let ghost journal: Set<Seq<char>> = if rewrites.rewrites_journal {
        set!["journal.log"@]
    } else {
        Set::empty()
    };
    if rewrites.upgrades_manifest {
        insert_name(&mut sources, String::from_str("manifest"));
    }
    if rewrites.rewrites_journal {
        insert_name(&mut sources, String::from_str("journal.log"));
    }
    assert(text::texts(sources@).to_set() =~= manifest.union(journal));
    let ghost fixed = manifest.union(journal);
    if let Some(sweep) = rewrites.segment_plan {
        let mut index: usize = 0;
        assert(fixed.union(rewritten_names(archives.take(0))) =~= fixed);
        while index < sweep.archives.len()
            invariant
                index <= sweep.archives@.len(),
                archives == sweep.archives@,
                order::ascending(text::texts(sources@)),
                text::texts(sources@).to_set() == fixed.union(
                    rewritten_names(archives.take(index as int)),
                ),
            decreases sweep.archives@.len() - index,
        {
            let ghost known = text::texts(sources@).to_set();
            if let PlannedArchiveSweep::Rewrite { file_name, .. } = &sweep.archives[index] {
                insert_name(&mut sources, file_name.clone());
            }
            proof {
                let here = archives[index as int];
                let taken = archives.take(index as int);
                let longer = archives.take(index as int + 1);
                assert forall|name: Seq<char>| rewritten_names(longer).contains(name) == (
                rewritten_names(taken).contains(name) || here is Rewrite && swept_name(here)
                    == name) by {
                    if rewritten_names(taken).contains(name) {
                        let i = choose|i: int|
                            0 <= i < taken.len() && #[trigger] taken[i] is Rewrite && swept_name(
                                taken[i],
                            ) == name;
                        assert(longer[i] is Rewrite && swept_name(longer[i]) == name);
                    }
                    if rewritten_names(longer).contains(name) {
                        let i = choose|i: int|
                            0 <= i < longer.len() && #[trigger] longer[i] is Rewrite && swept_name(
                                longer[i],
                            ) == name;
                        if i < index {
                            assert(taken[i] is Rewrite && swept_name(taken[i]) == name);
                        }
                    }
                    if here is Rewrite && swept_name(here) == name {
                        assert(longer[index as int] is Rewrite);
                    }
                }
                assert(text::texts(sources@).to_set() =~= fixed.union(rewritten_names(longer)));
            }
            index = index + 1;
        }
        assert(archives.take(index as int) =~= archives);
    } else {
        assert(fixed.union(rewritten_names(archives)) =~= fixed);
    }
    let ghost replaced = fixed.union(rewritten_names(archives));
    let ghost all = text::texts(newest_first@);
    if rewrites.moves_checkpoint_head {
        let mut position: usize = 0;
        let mut leading = true;
        let ghost wanted = template_names(all, archives);
        let ghost mut taken: Seq<Seq<char>> = Seq::empty();
        proof {
            assert(all.skip(0) =~= all);
            assert(taken + wanted =~= wanted);
            assert(replaced.union(taken.to_set()) =~= replaced);
        }
        while leading && position < newest_first.len()
            invariant
                position <= newest_first@.len(),
                all == text::texts(newest_first@),
                archives == archives_of(rewrites.segment_plan),
                order::ascending(text::texts(sources@)),
                leading ==> taken + template_names(all.skip(position as int), archives) == wanted,
                !leading ==> taken == wanted,
                text::texts(sources@).to_set() == replaced.union(taken.to_set()),
            decreases newest_first@.len() - position,
        {
            let name = &newest_first[position];
            let ghost known = taken;
            let ghost rest = all.skip(position as int);
            insert_name(&mut sources, name.clone());
            proof {
                assert(rest[0] == name@);
                assert(rest.drop_first() =~= all.skip(position as int + 1));
                taken = known.push(name@);
                known.lemma_push_to_set_commute(name@);
                assert(replaced.union(known.to_set()).insert(name@) =~= replaced.union(
                    taken.to_set(),
                ));
                assert(known + (seq![name@] + template_names(rest.drop_first(), archives))
                    =~= taken + template_names(rest.drop_first(), archives));
                assert(known + seq![name@] =~= taken);
            }
            if !is_swept_away(rewrites.segment_plan, name.as_str()) {
                leading = false;
            }
            position = position + 1;
        }
        proof {
            if leading {
                assert(all.skip(position as int) =~= Seq::empty());
                assert(taken + template_names(all.skip(position as int), archives) =~= taken);
            }
        }
    } else {
        assert(replaced.union(Set::empty()) =~= replaced);
    }
    assert(text::texts(sources@).to_set() =~= metadata_sources(rewrites, all));
    sources
}

/// A file that a run takes ownership and permissions from.
#[derive(Debug)]
pub struct SourceMetadata {
    /// Its path, as an operator reads it.
    pub path: String,
    /// Its owner.
    pub owner: u32,
    /// Its group.
    pub group: u32,
    /// Its mode.
    pub mode: u32,
}

/// Why one of the files might not keep what it has.
pub open spec fn issue_at(
    sources: Seq<SourceMetadata>,
    possible_created_gids: Seq<u32>,
    credentials: ApplyCredentials,
    position: int,
) -> Option<Seq<char>> {
    source_issue(
        sources[position].path@,
        sources[position].owner,
        sources[position].group,
        sources[position].mode,
        possible_created_gids,
        credentials,
    )
}

/// Whether a file is the first that might not keep what it has.
pub open spec fn is_first_issue(
    sources: Seq<SourceMetadata>,
    possible_created_gids: Seq<u32>,
    credentials: ApplyCredentials,
    position: int,
) -> bool {
    &&& 0 <= position < sources.len()
    &&& issue_at(sources, possible_created_gids, credentials, position) is Some
    &&& forall|i: int|
        0 <= i < position ==> #[trigger] issue_at(
            sources,
            possible_created_gids,
            credentials,
            i,
        ) is None
}

/// Says why the first of the files that might not keep what it has might not.
pub fn planned_apply_identity_issue(
    sources: &Vec<SourceMetadata>,
    directory_gid: u32,
    directory_mode: u32,
    credentials: &ApplyCredentials,
) -> (issue: Option<String>)
    ensures
        ({
            let groups = created_groups(directory_gid, directory_mode, credentials.effective_gid);
            match issue {
                Some(text) => exists|position: int| #[trigger]
                    is_first_issue(sources@, groups, *credentials, position) && issue_at(
                        sources@,
                        groups,
                        *credentials,
                        position,
                    ) == Some(text@),
                None => forall|i: int|
                    0 <= i < sources@.len() ==> #[trigger] issue_at(
                        sources@,
                        groups,
                        *credentials,
                        i,
                    ) is None,
            }
        }),
{
    let possible = possible_created_group_ids(directory_gid, directory_mode, credentials);
    let mut index: usize = 0;
    while index < sources.len()
        invariant
            index <= sources@.len(),
            forall|i: int|
                0 <= i < index ==> #[trigger] issue_at(
                    sources@,
                    possible@,
                    *credentials,
                    i,
                ) is None,
            possible@ == created_groups(
                directory_gid,
                directory_mode,
                credentials.effective_gid,
            ),
        decreases sources@.len() - index,
    {
        let source = &sources[index];
        let issue = metadata_source_apply_identity_issue(
            source.path.as_str(),
            source.owner,
            source.group,
            source.mode,
            &possible,
            credentials,
        );
        if issue.is_some() {
            assert(is_first_issue(sources@, possible@, *credentials, index as int));
            return issue;
        }
        assert(issue_at(sources@, possible@, *credentials, index as int) is None);
        index = index + 1;
    }
    None
}

/// What an operator reads when the journal belongs to another user.
pub open spec fn service_user_text(journal: Seq<char>, owner: u32, effective_uid: u32) -> Seq<char> {
    "cleanup must run as the repository service user: "@ + journal + " is owned by uid "@
        + text::decimal(owner as nat) + ", but the effective uid is "@ + text::decimal(
        effective_uid as nat,
    )
}

/// Says that the journal belongs to another user, when it does.
pub fn journal_service_user_issue(journal: &str, owner: u32, effective_uid: u32) -> (issue: Option<
    String,
>)
    ensures
        match issue {
            Some(text) => owner != effective_uid && text@ == service_user_text(
                journal@,
                owner,
                effective_uid,
            ),
            None => owner == effective_uid,
        },
{
    if owner == effective_uid {
        return None;
    }
    let mut issue = String::from_str("cleanup must run as the repository service user: ");
    issue.append(journal);
    issue.append(" is owned by uid ");
    push_decimal(&mut issue, owner as u64);
    issue.append(", but the effective uid is ");
    push_decimal(&mut issue, effective_uid as u64);
    assert(issue@ =~= service_user_text(journal@, owner, effective_uid));
    Some(issue)
}

/// Refuses to run as another user than the journal's, before a lock or a
/// replacement is created with the wrong owner.
pub fn validate_apply_identity_for_uid(journal: &str, owner: u32, effective_uid: u32) -> (checked:
    Result<(), Error>)
    ensures
        match checked {
            Ok(_) => owner == effective_uid,
            Err(error) => owner != effective_uid && error.refuses(
                service_user_text(journal@, owner, effective_uid)
                    + "; refusing before repo.lock or replacement files can be created with the wrong owner"@,
            ),
        },
{
    match journal_service_user_issue(journal, owner, effective_uid) {
        Some(issue) => {
            let mut details = issue;
            details.append(
                "; refusing before repo.lock or replacement files can be created with the wrong owner",
            );
            Err(Error::InvalidFormat { details })
        },
        None => Ok(()),
    }
}

/// Refuses a plan with an issue.
pub fn validate_plan_apply_identity_for_credentials(issue: Option<String>) -> (checked: Result<
    (),
    Error,
>)
    ensures
        match checked {
            Ok(_) => issue is None,
            Err(error) => issue is Some && error.refuses(
                issue->0@ + "; conservatively refusing before planned repository mutations"@,
            ),
        },
{
    match issue {
        Some(issue) => {
            let mut details = issue;
            details.append("; conservatively refusing before planned repository mutations");
            Err(Error::InvalidFormat { details })
        },
        None => Ok(()),
    }
}

/// What a preview warns about: the journal's owner before anything else.
pub fn preview_apply_identity_issue(journal_issue: Option<String>, planned_issue: Option<String>)
    -> (issue: Option<String>)
    ensures
        issue == if journal_issue is Some {
            journal_issue
        } else {
            planned_issue
        },
{
    match journal_issue {
        Some(issue) => Some(issue),
        None => planned_issue,
    }
}

/// The warning of a preview.
pub open spec fn preview_warnings(outcome: Result<Option<String>, Error>) -> Seq<Seq<char>> {
    match outcome {
        Ok(Some(issue)) => seq![
            "apply ownership preflight warning: "@ + issue@
                + "; authoritative apply will conservatively refuse before planned repository mutations"@,
        ],
        Ok(None) => Seq::empty(),
        Err(error) => seq![
            "apply ownership could not be proved during this read-only preview ("@
                + error.message()
                + "); authoritative apply will retry the check under the repository lock"@,
        ],
    }
}

/// Warns in a preview of what would be refused, or could not be established.
pub fn append_apply_identity_preview_warning(
    warnings: &mut Vec<String>,
    outcome: &Result<Option<String>, Error>,
)
    ensures
        text::texts(final(warnings)@) == text::texts(old(warnings)@) + preview_warnings(*outcome),
{
    let ghost before = text::texts(warnings@);
    match outcome {
        Ok(Some(issue)) => {
            let mut warning = String::from_str("apply ownership preflight warning: ");
            warning.append(issue.as_str());
            warning.append(
                "; authoritative apply will conservatively refuse before planned repository mutations",
            );
            warnings.push(warning);
        },
        Ok(None) => {},
        Err(error) => {
            let mut warning = String::from_str(
                "apply ownership could not be proved during this read-only preview (",
            );
            let message = error.to_text();
            warning.append(message.as_str());
            warning.append(
                "); authoritative apply will retry the check under the repository lock",
            );
            warnings.push(warning);
        },
    }
    assert(text::texts(warnings@) =~= before + preview_warnings(*outcome));
}

/// A preview without a warning and a run that is not refused go together: the
/// one finds an issue exactly where the other refuses.
pub proof fn law_preview_warns_exactly_where_a_run_refuses(
    owner: u32,
    effective_uid: u32,
    journal_issue: Option<String>,
    planned_issue: Option<String>,
)
    requires
        journal_issue is Some <==> owner != effective_uid,
    ensures
        preview_warnings(
            Ok(
                if journal_issue is Some {
                    journal_issue
                } else {
                    planned_issue
                },
            ),
        ).len() == 0 <==> owner == effective_uid && planned_issue is None,
{
}

} // verus!
