//! Assembling a plan: what the survey of a store demands and refuses, and the
//! warnings that survive a refusal.
use vstd::prelude::*;
use vstd::string::*;
use crate::error::{refusal, Error};
use crate::options::{CompactionOptions, MaintenanceTask, OptionsView};
use crate::plan::CompactionAction;
use crate::planning::{CheckpointPlan, PlannedArchiveSweep, SegmentCompactionPlan};
use crate::text;
use crate::text::{join, join_first, push_decimal, push_fixed_digits};

verus! {

/// How many warnings a refusal carries.
pub const WARNINGS_SHOWN: usize = 3;

/// Warnings as a refusal carries them: the first few, and the number of the
/// others.
pub open spec fn attached(warnings: Seq<Seq<char>>) -> Seq<char> {
    let shown = if warnings.len() <= 3 {
        text::joined(warnings, "; "@)
    } else {
        text::joined(warnings.take(3), "; "@)
    };
    if warnings.len() == 4 {
        shown + ", and 1 further warning"@
    } else if warnings.len() > 4 {
        shown + ", and "@ + text::decimal((warnings.len() - 3) as nat) + " further warnings"@
    } else {
        shown
    }
}

/// A refusal with the warnings that were established before it.
pub open spec fn with_warnings(details: Seq<char>, warnings: Seq<Seq<char>>) -> Seq<char> {
    if warnings.len() == 0 {
        details
    } else {
        details + " Also established before the refusal: "@ + attached(warnings) + "."@
    }
}

/// Re-attaches established warnings to a format refusal.
///
/// A refusal is exactly when an operator most needs the facts that the same run
/// already worked out. Other failures are returned untouched: one of reading or
/// writing must stay recognisable as such, and its cause is not a fact about
/// the store. The attachment is bounded, so that it cannot bury the refusal,
/// and says how many warnings it leaves out.
pub fn attach_planning_warnings(error: Error, warnings: &Vec<String>) -> (attached: Error)
    ensures
        match error {
            Error::InvalidFormat { details } => attached.refuses(
                with_warnings(details@, text::texts(warnings@)),
            ),
            Error::InputOutput { .. } => attached == error,
        },
{
    match error {
        Error::InvalidFormat { details } => {
            if warnings.len() == 0 {
                return Error::InvalidFormat { details };
            }
            let ghost all = text::texts(warnings@);
            let ghost stated = details@;
            let count: usize = warnings.len();
            let shown: usize = if count < WARNINGS_SHOWN {
                count
            } else {
                WARNINGS_SHOWN
            };
            let mut tail = join_first(warnings, shown, "; ");
            proof {
                assert(text::texts(warnings@.take(shown as int)) =~= all.take(shown as int));
                if all.len() <= 3 {
                    assert(all.take(shown as int) =~= all);
                }
            }
            let remaining: usize = count - shown;
            if remaining == 1 {
                tail.append(", and 1 further warning");
            } else if remaining > 1 {
                tail.append(", and ");
                push_decimal(&mut tail, remaining as u64);
                tail.append(" further warnings");
            }
            assert(tail@ =~= self::attached(all));
            let mut combined = details;
            combined.append(" Also established before the refusal: ");
            combined.append(tail.as_str());
            combined.append(".");
            assert(combined@ =~= with_warnings(stated, all));
            Error::InvalidFormat { details: combined }
        },
        Error::InputOutput { details } => Error::InputOutput { details },
    }
}

/// A refusal with the repairs that came before it.
pub open spec fn with_repairs(message: Seq<char>, names: Seq<Seq<char>>) -> Seq<char> {
    message + " This refusal came after "@ + text::decimal(names.len() as nat)
        + " archive index rebuild(s), which are already durable: "@ + text::joined(names, ", "@)
        + ". The originals are retained under `.bak` names, and those archives need no second attempt."@
}

/// Re-attaches durable repairs to a refusal raised after them.
///
/// A refusal that named only the failure would leave the operator believing
/// that the store is as they left it, when archives have been rewritten and
/// originals moved aside.
pub fn attach_completed_repairs(error: Error, repaired: &Vec<String>) -> (attached: Error)
    ensures
        if repaired@.len() == 0 {
            attached == error
        } else {
            attached.refuses(with_repairs(error.message(), text::texts(repaired@)))
        },
{
    if repaired.len() == 0 {
        return error;
    }
    let ghost message = error.message();
    let mut details = error.to_text();
    details.append(" This refusal came after ");
    push_decimal(&mut details, repaired.len() as u64);
    details.append(" archive index rebuild(s), which are already durable: ");
    let names = join(repaired, ", ");
    details.append(names.as_str());
    details.append(
        ". The originals are retained under `.bak` names, and those archives need no second attempt.",
    );
    assert(details@ =~= with_repairs(message, text::texts(repaired@)));
    Error::InvalidFormat { details }
}

/// Whether and when the manifest is raised to version two for a repair.
///
/// The upgrade is one-way and a rebuild can fail for reasons that no survey can
/// predict, so it is made at the instant the first rebuilt archive is about to
/// be installed, once, and never otherwise.
#[derive(Clone, Copy, Debug, PartialEq, Eq, Structural)]
pub struct ManifestUpgradeOnFirstInstall {
    /// Whether the question was settled.
    pub done: bool,
}

impl ManifestUpgradeOnFirstInstall {
    /// Nothing is settled yet.
    pub fn new() -> (upgrade: Self)
        ensures
            !upgrade.done,
    {
        ManifestUpgradeOnFirstInstall { done: false }
    }

    /// Whether the manifest must be upgraded before this installation.
    pub fn must_upgrade(&self, store_version: u32) -> (needed: bool)
        ensures
            needed == (!self.done && store_version == 1),
    {
        !self.done && store_version == 1
    }

    /// Settles the question.
    pub fn authorize(&mut self)
        ensures
            final(self).done,
    {
        self.done = true;
    }
}

/// The repairs that a plan names.
///
/// A store with an archive that cannot be repaired is refused at once, with the
/// text that names it: dropping it from the plan would hide it behind those that
/// can, or report a store that cannot be opened for writing as needing nothing.
pub fn survey_repairs(
    options: &CompactionOptions,
    unrepairable: Option<String>,
    planned: Vec<CompactionAction>,
) -> (repairs: Result<Vec<CompactionAction>, Error>)
    ensures
        match repairs {
            Ok(pending) => if options@.tasks.contains(MaintenanceTask::RepairArchives) {
                unrepairable is None && pending == planned
            } else {
                pending@.len() == 0
            },
            Err(error) => options@.tasks.contains(MaintenanceTask::RepairArchives)
                && unrepairable is Some && error.refuses(unrepairable->0@),
        },
{
    if options.contains(MaintenanceTask::RepairArchives) {
        match unrepairable {
            Some(details) => Err(Error::InvalidFormat { details }),
            None => Ok(planned),
        }
    } else {
        Ok(Vec::new())
    }
}

/// What an operator reads about a bound beside a removal of checkpoints.
pub open spec fn bound_beside_checkpoints_text(count: nat) -> Seq<char> {
    "a journal revision retention bound cannot run beside the removal of "@ + text::decimal(count)
        + " checkpoint(s): checkpoint removal moves the head and appends a journal line, which would put the bound's newest revision beyond the one this plan retained — remove the checkpoints first, then bound the journal in a second run"@
}

/// Refuses a bound on the journal's revisions beside a removal of checkpoints.
///
/// The removal installs a head that this plan never saw. A bound counted from
/// there would retire the head that the plan retained, and the run would abort
/// on its own proof with the removal already committed.
pub fn refuse_bound_beside_checkpoints(
    options: &CompactionOptions,
    checkpoints: &CheckpointPlan,
) -> (checked: Result<(), Error>)
    ensures
        match checked {
            Ok(_) => options@.journal_revision_retention is None || checkpoints.names@.len() == 0,
            Err(error) => options@.journal_revision_retention is Some && checkpoints.names@.len()
                > 0 && error.refuses(bound_beside_checkpoints_text(checkpoints.names@.len())),
        },
{
    if options.journal_revision_retention().is_some() && checkpoints.names.len() > 0 {
        let mut details = String::from_str(
            "a journal revision retention bound cannot run beside the removal of ",
        );
        push_decimal(&mut details, checkpoints.names.len() as u64);
        details.append(
            " checkpoint(s): checkpoint removal moves the head and appends a journal line, which would put the bound's newest revision beyond the one this plan retained — remove the checkpoints first, then bound the journal in a second run",
        );
        assert(details@ =~= bound_beside_checkpoints_text(checkpoints.names@.len()));
        return Err(Error::InvalidFormat { details });
    }
    Ok(())
}

/// Which proof that no active segment is served twice a survey asks for.
#[derive(Clone, Copy, Debug, PartialEq, Eq, Structural)]
pub enum DuplicateCheck {
    /// None.
    Skipped,
    /// The whole proof.
    Complete,
    /// Only across archive numbers: while a repair is pending, the letters of
    /// one unindexed number share segments by construction.
    AcrossNumbers,
}

/// What a survey asks of the store beside the journal.
#[derive(Clone, Copy, Debug, PartialEq, Eq, Structural)]
pub struct SurveyDemands {
    /// Whether a certified number for an output archive is needed: whenever the
    /// head moves.
    pub archive_number: bool,
    /// Which proof about duplicates is needed.
    pub duplicates: DuplicateCheck,
}

/// What a survey asks of the store.
pub open spec fn demands_of(
    options: OptionsView,
    checkpoints: CheckpointPlan,
    index_available: bool,
) -> SurveyDemands {
    SurveyDemands {
        archive_number: checkpoints.names@.len() > 0 || options.compaction_kind is Some,
        duplicates: if options.tasks.contains(MaintenanceTask::Segments)
            || options.tasks.contains(MaintenanceTask::StaleArchives) || checkpoints.names@.len()
            > 0 {
            if index_available {
                DuplicateCheck::Complete
            } else {
                DuplicateCheck::AcrossNumbers
            }
        } else {
            DuplicateCheck::Skipped
        },
    }
}

/// Decides what a survey asks of the store beside the journal.
pub fn survey_demands(
    options: &CompactionOptions,
    checkpoints: &CheckpointPlan,
    index_available: bool,
) -> (demands: SurveyDemands)
    ensures
        demands == demands_of(options@, *checkpoints, index_available),
{
    let removes_checkpoints = checkpoints.names.len() > 0;
    SurveyDemands {
        archive_number: removes_checkpoints || options.compaction_kind().is_some(),
        duplicates: if options.contains(MaintenanceTask::Segments) || options.contains(
            MaintenanceTask::StaleArchives,
        ) || removes_checkpoints {
            if index_available {
                DuplicateCheck::Complete
            } else {
                DuplicateCheck::AcrossNumbers
            }
        } else {
            DuplicateCheck::Skipped
        },
    }
}

/// Which files left over from earlier runs are looked for.
#[derive(Clone, Copy, Debug, PartialEq, Eq, Structural)]
pub struct LeftoverScans {
    /// Staging files. Telling a redundant one takes index metadata.
    pub temporaries: bool,
    /// Recovery backups.
    pub recovery_backups: bool,
}

/// Decides which files left over from earlier runs are looked for.
pub fn leftover_scans(options: &CompactionOptions, index_available: bool) -> (scans: LeftoverScans)
    ensures
        scans.temporaries == (index_available && options@.tasks.contains(
            MaintenanceTask::StaleTemporaries,
        )),
        scans.recovery_backups == options@.tasks.contains(MaintenanceTask::RecoveryBackups),
{
    LeftoverScans {
        temporaries: index_available && options.contains(MaintenanceTask::StaleTemporaries),
        recovery_backups: options.contains(MaintenanceTask::RecoveryBackups),
    }
}

/// Whether a sweep rewrites an archive.
pub open spec fn rewrites(plan: Option<SegmentCompactionPlan>) -> bool {
    plan matches Some(sweep) && exists|i: int|
        0 <= i < sweep.archives@.len() && #[trigger] sweep.archives@[i] is Rewrite
}

/// Whether this run must raise the store to manifest version two first.
///
/// A repair, a checkpoint removal and a rewrite all write data of version two.
/// Deciding it here puts the upgrade in the plan that the operator confirms.
pub fn decide_manifest_upgrade(
    pending_repairs: usize,
    checkpoints: &CheckpointPlan,
    segment_plan: &Option<SegmentCompactionPlan>,
    store_version: u32,
) -> (upgrade: bool)
    ensures
        upgrade == ((pending_repairs > 0 || checkpoints.names@.len() > 0 || rewrites(
            *segment_plan,
        )) && store_version < 2),
{
    let mut writes_version_two = pending_repairs > 0 || checkpoints.names.len() > 0;
    if let Some(plan) = segment_plan {
        let mut index: usize = 0;
        let mut found = false;
        while index < plan.archives.len()
            invariant
                index <= plan.archives@.len(),
                found == exists|i: int| 0 <= i < index && #[trigger] plan.archives@[i] is Rewrite,
            decreases plan.archives@.len() - index,
        {
            if let PlannedArchiveSweep::Rewrite { .. } = &plan.archives[index] {
                assert(plan.archives@[index as int] is Rewrite);
                found = true;
            }
            index = index + 1;
        }
        writes_version_two = writes_version_two || found;
    }
    writes_version_two && store_version < 2
}

/// The numbered names that must be free for a run, by their stems.
pub open spec fn reserved(
    options: OptionsView,
    removed_lines: usize,
    manifest_upgrade: bool,
) -> Seq<Seq<char>> {
    (if manifest_upgrade {
        seq!["manifest.cleaning"@]
    } else {
        Seq::empty()
    }) + if options.tasks.contains(MaintenanceTask::Journal) && removed_lines != 0 {
        seq!["journal.log.cleaning"@, "journal.log.bak"@]
    } else {
        Seq::empty()
    }
}

/// The numbered names that must be free for a run, by their stems.
pub fn reserved_names(
    options: &CompactionOptions,
    removed_lines: usize,
    manifest_upgrade: bool,
) -> (stems: Vec<String>)
    ensures
        text::texts(stems@) == reserved(options@, removed_lines, manifest_upgrade),
{
    let mut stems: Vec<String> = Vec::new();
    if manifest_upgrade {
        stems.push(String::from_str("manifest.cleaning"));
    }
    if options.contains(MaintenanceTask::Journal) && removed_lines != 0 {
        stems.push(String::from_str("journal.log.cleaning"));
        stems.push(String::from_str("journal.log.bak"));
    }
    assert(text::texts(stems@) =~= reserved(options@, removed_lines, manifest_upgrade));
    stems
}

/// A numbered name: a stem, a full stop and three digits.
pub open spec fn numbered(stem: Seq<char>, counter: nat) -> Seq<char> {
    stem + "."@ + text::fixed_digits(counter, 10, 3)
}

/// A numbered name: a stem, a full stop and three digits.
pub fn numbered_name(stem: &str, counter: u16) -> (name: String)
    requires
        counter < 1000,
    ensures
        name@ == numbered(stem@, counter as nat),
{
    let mut name = stem.to_owned();
    name.append(".");
    push_fixed_digits(&mut name, counter as u64, 10, 3);
    assert(name@ =~= numbered(stem@, counter as nat));
    name
}

/// A search for a free numbered name.
#[derive(Clone, Copy, Debug, PartialEq, Eq, Structural)]
pub enum NameSearch {
    /// Whether the name with this number is taken.
    Trying {
        /// The number.
        counter: u16,
    },
    /// The name with this number is free, and every lower one is taken.
    Free {
        /// The number.
        counter: u16,
    },
    /// Every name is taken.
    Exhausted,
}

impl NameSearch {
    /// The search stays within three digits.
    pub open spec fn well_formed(self) -> bool {
        match self {
            NameSearch::Trying { counter } => counter < 1000,
            NameSearch::Free { counter } => counter < 1000,
            NameSearch::Exhausted => true,
        }
    }

    /// Begins with the lowest number.
    pub fn begin() -> (search: Self)
        ensures
            search == (NameSearch::Trying { counter: 0 }),
            search.well_formed(),
    {
        NameSearch::Trying { counter: 0 }
    }

    /// Goes on with whether the name is taken.
    pub fn tried(self, occupied: bool) -> (search: Self)
        requires
            self.well_formed(),
            self is Trying,
        ensures
            search.well_formed(),
            search == match self {
                NameSearch::Trying { counter } => if !occupied {
                    NameSearch::Free { counter }
                } else if counter < 999 {
                    NameSearch::Trying { counter: (counter + 1) as u16 }
                } else {
                    NameSearch::Exhausted
                },
                _ => self,
            },
    {
        match self {
            NameSearch::Trying { counter } => if !occupied {
                NameSearch::Free { counter }
            } else if counter < 999 {
                NameSearch::Trying { counter: counter + 1 }
            } else {
                NameSearch::Exhausted
            },
            other => other,
        }
    }
}

/// What an operator reads when every numbered name is taken.
pub open spec fn exhausted_text(stem: Seq<char>) -> Seq<char> {
    "all numbered names for "@ + stem + " (000-999) are occupied"@
}

/// Refuses a search that found nothing.
pub fn ensure_numbered_name_available(stem: &str, search: NameSearch) -> (checked: Result<
    Option<u16>,
    Error,
>)
    requires
        search.well_formed(),
    ensures
        match checked {
            Ok(found) => match search {
                NameSearch::Trying { .. } => found is None,
                NameSearch::Free { counter } => found == Some(counter),
                NameSearch::Exhausted => false,
            },
            Err(error) => search is Exhausted && error.refuses(exhausted_text(stem@)),
        },
{
    match search {
        NameSearch::Trying { .. } => Ok(None),
        NameSearch::Free { counter } => Ok(Some(counter)),
        NameSearch::Exhausted => {
            let mut details = String::from_str("all numbered names for ");
            details.append(stem);
            details.append(" (000-999) are occupied");
            assert(details@ =~= exhausted_text(stem@));
            Err(Error::InvalidFormat { details })
        },
    }
}

/// The bytes that a file system has free: the unit is the fragment, or the block
/// where no fragment size is stated. None when the product does not fit.
pub fn available_filesystem_bytes(
    available_blocks: u64,
    fragment_size: u64,
    block_size: u64,
) -> (bytes: Option<u64>)
    ensures
        ({
            let unit = if fragment_size == 0 {
                block_size
            } else {
                fragment_size
            };
            match bytes {
                Some(total) => total == available_blocks * unit,
                None => available_blocks * unit > u64::MAX,
            }
        }),
{
    let unit: u64 = if fragment_size == 0 {
        block_size
    } else {
        fragment_size
    };
    available_blocks.checked_mul(unit)
}

} // verus!
