//! What things are called, what is selected by default, and how a time of day that does
//! not fit is read.
use vstd::prelude::*;
use vstd::string::*;
use crate::apply::session;
use crate::apply::session::ApplyStage;
use crate::content::PropertyValue;
use crate::identifier::{ArchiveRewritePolicy, GarbageCollectionGeneration};
use crate::laws::histories;
use crate::options;
use crate::options::{HistoryPurgeRequest, MaintenanceTask};
use crate::plan::{JournalRemovalReason, StaleArchiveReason};
use crate::planning::history::HistoryView;
use crate::planning::version_history_plan;
use crate::planning::version_storage::StorageView;
use crate::text;

verus! {

/// Every task is asked for by a name of its own.
pub proof fn law_every_task_has_its_name(task: MaintenanceTask)
    ensures
        task.text() == "journal"@ <==> task is Journal,
        task.text() == "segments"@ <==> task is Segments,
        task.text() == "stale-archives"@ <==> task is StaleArchives,
        task.text() == "expired-checkpoints"@ <==> task is ExpiredCheckpoints,
        task.text() == "stale-temporaries"@ <==> task is StaleTemporaries,
        task.text() == "unreferenced-checkpoints"@ <==> task is UnreferencedCheckpoints,
        task.text() == "recovery-backups"@ <==> task is RecoveryBackups,
        task.text() == "repair-archives"@ <==> task is RepairArchives,
{
    reveal_strlit("journal");
    reveal_strlit("segments");
    reveal_strlit("stale-archives");
    reveal_strlit("expired-checkpoints");
    reveal_strlit("stale-temporaries");
    reveal_strlit("unreferenced-checkpoints");
    reveal_strlit("recovery-backups");
    reveal_strlit("repair-archives");
    assert("journal"@.len() == 7);
    assert("segments"@.len() == 8);
    assert("stale-archives"@.len() == 14);
    assert("expired-checkpoints"@.len() == 19);
    assert("stale-temporaries"@.len() == 17);
    assert("unreferenced-checkpoints"@.len() == 24);
    assert("recovery-backups"@.len() == 16);
    assert("repair-archives"@.len() == 15);
}

/// Every reason to remove a line of the journal reads in its own words.
pub proof fn law_every_removal_reason_has_its_words(reason: JournalRemovalReason)
    ensures
        match reason {
            JournalRemovalReason::ParserSkippedNoSpace => reason.text()
                == "parser-skipped (no ASCII space)"@,
            JournalRemovalReason::InvalidRecordIdentifier => reason.text()
                == "invalid record identifier"@,
            JournalRemovalReason::MissingSegment => reason.text() == "missing segment"@,
            JournalRemovalReason::UnreadableRevision => reason.text()
                == "unreadable historical revision"@,
            JournalRemovalReason::BeyondRetention => reason.text()
                == "beyond the journal retention bound"@,
        },
{
}

/// Every reason to remove an archive reads in its own words.
pub proof fn law_every_stale_archive_has_its_words(reason: StaleArchiveReason)
    ensures
        reason is Superseded ==> reason.text() == "superseded by the active archive generation"@,
        reason is EmptyIncomplete ==> reason.text() == "empty incomplete archive"@,
{
}

/// A generation reads with its fields, each by its name.
pub proof fn law_a_generation_reads_with_its_fields(generation: GarbageCollectionGeneration)
    ensures
        generation.text() == "GarbageCollectionGeneration { generation: "@ + text::signed_decimal(
            generation.generation as int,
        ) + ", full_generation: "@ + text::signed_decimal(generation.full_generation as int)
            + ", is_compacted: "@ + (if generation.is_compacted {
            "true"@
        } else {
            "false"@
        }) + " }"@,
{
}

/// A string and a name read as they are, a number in digits, a binary not at all.
pub proof fn law_a_value_reads_as_its_type_does(value: PropertyValue)
    ensures
        match value {
            PropertyValue::String(written) => value.text() == Some(written@),
            PropertyValue::Name(written) => value.text() == Some(written@),
            PropertyValue::Long(number) => value.text() == Some(
                text::signed_decimal(number as int),
            ),
            PropertyValue::Binary(_) => value.text() is None,
            PropertyValue::Other { text: Some(written) } => value.text() == Some(written@),
            PropertyValue::Other { text: None } => value.text() is None,
        },
{
}

/// By default a run prunes the journal, sweeps segments, and removes stale archives,
/// staging files and expired checkpoints; whatever else there is has to be asked for.
pub proof fn law_the_rest_has_to_be_asked_for(task: MaintenanceTask)
    ensures
        options::default_view().tasks.contains(task) <==> !(task is UnreferencedCheckpoints
            || task is RecoveryBackups || task is RepairArchives),
        options::default_view().recovery_backup_policy is None,
        options::default_view().journal_revision_retention is None,
        options::default_view().compaction_kind is None,
        options::default_view().history_purge is None,
        !options::default_view().always_copy,
        options::default_view().archive_rewrite_policy
            == ArchiveRewritePolicy::EveryReclaimableArchive,
{
}

/// A clock before the epoch reads as the epoch, one too far behind it as the last second
/// there is, and every other as it stands.
pub proof fn law_a_clock_that_does_not_fit_is_held(seconds: u64)
    ensures
        version_history_plan::clamped(None) == 0,
        0 <= version_history_plan::clamped(Some(seconds)) <= seconds,
        seconds <= 0x7fff_ffff_ffff_ffff ==> version_history_plan::clamped(Some(seconds))
            == seconds,
        seconds > 0x7fff_ffff_ffff_ffff ==> version_history_plan::clamped(Some(seconds))
            == 0x7fff_ffff_ffff_ffff,
{
}

/// Only a stage that takes something away has a name in what is reported.
pub proof fn law_removing_stages_are_named(stage: ApplyStage)
    ensures
        session::step_of(stage) == match stage {
            ApplyStage::RemoveStaleArchives => Some("removing stale archives"@),
            ApplyStage::SweepResidue => Some("retiring interrupted-compaction residue"@),
            ApplyStage::RemoveCheckpoints => Some("removing checkpoints"@),
            ApplyStage::RemoveTemporaries => Some("removing stale temporary files"@),
            ApplyStage::RemoveRecoveryBackups => Some("removing old recovery backups"@),
            _ => None,
        },
{
}

/// Before references are looked for, a purge takes up every history that no rule of its
/// own protects: it freezes no configuration, and is as old as asked for.
pub proof fn law_a_purge_starts_with_all_that_is_old_enough(
    storage: StorageView,
    request: HistoryPurgeRequest,
    now_epoch_seconds: i64,
    history: HistoryView,
)
    requires
        request.minimum_age_seconds matches Some(age) ==> age <= 0x7fff_ffff_ffff_ffff,
    ensures
        version_history_plan::preliminary(storage, request, now_epoch_seconds).contains(history)
            <==> {
            &&& storage.histories.contains(history)
            &&& !history.freezes_a_configuration
            &&& request.minimum_age_seconds matches Some(age)
                ==> history.newest_version_created is Some && now_epoch_seconds
                - history.newest_version_created->0 >= age
        },
{
    histories::law_a_purge_takes_exactly_what_nothing_protects(
        storage.histories,
        request.minimum_age_seconds,
        now_epoch_seconds,
        Set::empty(),
        history,
    );
}

} // verus!
