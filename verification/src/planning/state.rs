//! The survey of a store before any action is planned: its journal, the
//! archives that wait for a repair, and its checkpoints.
use vstd::prelude::*;
use crate::checkpoints;
use crate::checkpoints::{plan_checkpoints, CheckpointFacts};
use crate::content::PropertyState;
use crate::error::Error;
use crate::journal::analysis::JournalAnalysis;
use crate::journal::scan::RawJournal;
use crate::options::{CompactionOptions, MaintenanceTask, OptionsView};
use crate::plan::CompactionAction;
use crate::planning::survey;
use crate::planning::survey::{
    refuse_bound_beside_checkpoints, survey_demands, survey_repairs, DuplicateCheck,
};
use crate::planning::{CheckpointPlan, RepositoryState};
use crate::text;

verus! {

/// What is asked of the store next.
#[derive(Clone, Copy, Debug, PartialEq, Eq, Structural)]
pub enum SurveyStage {
    /// Which archives can be repaired, and which cannot.
    Repairs,
    /// The checkpoints.
    Checkpoints,
    /// A certified number for an output archive.
    ArchiveNumber,
    /// That no active segment is served twice.
    Duplicates,
    /// Nothing; the survey is complete.
    Finished,
}

/// What is asked once the checkpoints are settled.
pub open spec fn after_checkpoints(options: OptionsView, state: RepositoryState) -> SurveyStage {
    if survey::demands_of(options, state.checkpoints, state.index_available).archive_number {
        SurveyStage::ArchiveNumber
    } else {
        after_archive_number(options, state)
    }
}

/// What is asked once the output archive is settled.
pub open spec fn after_archive_number(
    options: OptionsView,
    state: RepositoryState,
) -> SurveyStage {
    if survey::demands_of(options, state.checkpoints, state.index_available).duplicates
        == DuplicateCheck::Skipped {
        SurveyStage::Finished
    } else {
        SurveyStage::Duplicates
    }
}

/// A survey in the making.
#[derive(Debug)]
pub struct RepositorySurvey<'a> {
    options: &'a CompactionOptions,
    stage: SurveyStage,
    state: RepositoryState,
}

impl<'a> RepositorySurvey<'a> {
    /// The options.
    pub closed spec fn options(&self) -> CompactionOptions {
        *self.options
    }

    /// What is asked next.
    pub closed spec fn stage(&self) -> SurveyStage {
        self.stage
    }

    /// What is established so far.
    pub closed spec fn state(&self) -> RepositoryState {
        self.state
    }

    /// While a repair is pending nothing that reads an index is planned, a bound
    /// on the journal stands beside no removal of checkpoints, and an output
    /// archive is certified exactly where the head moves.
    pub open spec fn well_formed(&self) -> bool {
        let state = self.state();
        let options = self.options()@;
        let demands = survey::demands_of(options, state.checkpoints, state.index_available);
        &&& state.index_available == (state.pending_repairs@.len() == 0)
        &&& state.pending_repairs@.len() > 0 ==> options.tasks.contains(
            MaintenanceTask::RepairArchives,
        )
        &&& state.checkpoints.names@.len() > 0 ==> state.index_available
        &&& options.journal_revision_retention is Some ==> state.checkpoints.names@.len() == 0
        &&& match self.stage() {
            SurveyStage::Repairs => options.tasks.contains(MaintenanceTask::RepairArchives)
                && state.pending_repairs@.len() == 0 && state.checkpoints.names@.len() == 0
                && state.checkpoint_archive_number is None,
            SurveyStage::Checkpoints => state.index_available && state.checkpoints.names@.len()
                == 0 && state.checkpoint_archive_number is None,
            SurveyStage::ArchiveNumber => demands.archive_number
                && state.checkpoint_archive_number is None,
            SurveyStage::Duplicates => demands.duplicates != DuplicateCheck::Skipped
                && state.checkpoint_archive_number is Some == demands.archive_number,
            SurveyStage::Finished => state.checkpoint_archive_number is Some
                == demands.archive_number,
        }
    }

    /// Everything else stays.
    pub open spec fn keeps_journal(&self, earlier: &Self) -> bool {
        &&& self.options() == earlier.options()
        &&& self.state().raw_journal == earlier.state().raw_journal
        &&& self.state().journal_analysis == earlier.state().journal_analysis
    }

    /// Begins with the journal and its analysis. Repairs are looked for only
    /// where they are asked for.
    pub fn survey_repository_state(
        options: &'a CompactionOptions,
        raw_journal: RawJournal,
        journal_analysis: JournalAnalysis,
    ) -> (begun: Self)
        ensures
            begun.well_formed(),
            begun.options() == *options,
            begun.state().raw_journal == raw_journal,
            begun.state().journal_analysis == journal_analysis,
            begun.stage() == if options@.tasks.contains(MaintenanceTask::RepairArchives) {
                SurveyStage::Repairs
            } else {
                SurveyStage::Checkpoints
            },
            begun.state().pending_repairs@.len() == 0,
    {
        let stage = if options.contains(MaintenanceTask::RepairArchives) {
            SurveyStage::Repairs
        } else {
            SurveyStage::Checkpoints
        };
        RepositorySurvey {
            options,
            stage,
            state: RepositoryState {
                raw_journal,
                journal_analysis,
                pending_repairs: Vec::new(),
                index_available: true,
                checkpoints: CheckpointPlan { names: Vec::new(), expired: 0, unreferenced: 0 },
                checkpoint_archive_number: None,
            },
        }
    }

    /// What is asked next.
    pub fn asked(&self) -> (stage: SurveyStage)
        ensures
            stage == self.stage(),
    {
        self.stage
    }

    fn settle_checkpoints(&mut self)
        ensures
            final(self).options == old(self).options,
            final(self).state == old(self).state,
            final(self).stage == after_checkpoints(old(self).options@, old(self).state),
    {
        let demands = survey_demands(
            self.options,
            &self.state.checkpoints,
            self.state.index_available,
        );
        if demands.archive_number {
            self.stage = SurveyStage::ArchiveNumber;
        } else {
            self.settle_archive_number();
        }
    }

    fn settle_archive_number(&mut self)
        ensures
            final(self).options == old(self).options,
            final(self).state == old(self).state,
            final(self).stage == after_archive_number(old(self).options@, old(self).state),
    {
        self.stage = if self.duplicate_check() == DuplicateCheck::Skipped {
            SurveyStage::Finished
        } else {
            SurveyStage::Duplicates
        };
    }

    /// Takes the repairs. A store with an archive that cannot be repaired is
    /// refused here, where nothing has been touched; and while a repair is
    /// pending, the checkpoints wait for it.
    pub fn take_repairs(
        &mut self,
        unrepairable: Option<String>,
        planned: Vec<CompactionAction>,
    ) -> (taken: Result<(), Error>)
        requires
            old(self).well_formed(),
            old(self).stage() == SurveyStage::Repairs,
        ensures
            final(self).well_formed(),
            match taken {
                Ok(_) => {
                    &&& unrepairable is None
                    &&& final(self).keeps_journal(old(self))
                    &&& final(self).state().pending_repairs == planned
                    &&& final(self).state().checkpoints == old(self).state().checkpoints
                    &&& final(self).stage() == if planned@.len() == 0 {
                        SurveyStage::Checkpoints
                    } else {
                        after_checkpoints(old(self).options()@, final(self).state())
                    }
                },
                Err(error) => unrepairable is Some && *final(self) == *old(self) && error.refuses(
                    unrepairable->0@,
                ),
            },
    {
        match survey_repairs(self.options, unrepairable, planned) {
            Ok(pending) => {
                self.state.index_available = pending.len() == 0;
                self.state.pending_repairs = pending;
                if self.state.index_available {
                    self.stage = SurveyStage::Checkpoints;
                } else {
                    self.settle_checkpoints();
                }
                Ok(())
            },
            Err(error) => Err(error),
        }
    }

    /// Takes the checkpoints, and selects those that go. A bound on the journal
    /// beside such a selection is refused.
    pub fn take_checkpoints(
        &mut self,
        found: &Vec<CheckpointFacts>,
        async_properties: &Vec<PropertyState>,
        now_milliseconds: i64,
        warnings: &mut Vec<String>,
    ) -> (taken: Result<(), Error>)
        requires
            old(self).well_formed(),
            old(self).stage() == SurveyStage::Checkpoints,
        ensures
            final(self).well_formed(),
            ({
                let options = old(self).options()@;
                let expiry = options.tasks.contains(MaintenanceTask::ExpiredCheckpoints);
                let expired = checkpoints::expired_names(found@, now_milliseconds, expiry);
                let unreferenced = checkpoints::unreferenced_names(
                    found@,
                    checkpoints::async_references(async_properties@),
                    now_milliseconds,
                    expiry,
                    options.tasks.contains(MaintenanceTask::UnreferencedCheckpoints),
                );
                &&& text::texts(final(warnings)@) == text::texts(old(warnings)@) + (if expiry {
                    checkpoints::timestamp_warnings(found@)
                } else {
                    Seq::empty()
                })
                &&& match taken {
                    Ok(_) => {
                        &&& final(self).keeps_journal(old(self))
                        &&& final(self).state().pending_repairs
                            == old(self).state().pending_repairs
                        &&& checkpoints::plans(
                            final(self).state().checkpoints,
                            expired,
                            unreferenced,
                        )
                        &&& final(self).stage() == after_checkpoints(
                            options,
                            final(self).state(),
                        )
                    },
                    Err(error) => options.journal_revision_retention is Some && *final(self)
                        == *old(self) && exists|refused: CheckpointPlan|
                        #![trigger checkpoints::plans(refused, expired, unreferenced)]
                        checkpoints::plans(refused, expired, unreferenced)
                            && refused.names@.len() > 0 && error.refuses(
                            survey::bound_beside_checkpoints_text(refused.names@.len()),
                        ),
                }
            }),
    {
        let plan = plan_checkpoints(
            found,
            async_properties,
            self.options,
            now_milliseconds,
            warnings,
        );
        match refuse_bound_beside_checkpoints(self.options, &plan) {
            Ok(_) => {},
            Err(error) => {
                return Err(error);
            },
        }
        self.state.checkpoints = plan;
        self.settle_checkpoints();
        Ok(())
    }

    /// Takes the certified number of an output archive.
    pub fn take_archive_number(&mut self, number: u32)
        requires
            old(self).well_formed(),
            old(self).stage() == SurveyStage::ArchiveNumber,
        ensures
            final(self).well_formed(),
            final(self).options() == old(self).options(),
            final(self).state() == (RepositoryState {
                checkpoint_archive_number: Some(number),
                ..old(self).state()
            }),
            final(self).stage() == after_archive_number(old(self).options()@, old(self).state()),
    {
        self.state.checkpoint_archive_number = Some(number);
        self.settle_archive_number();
    }

    /// Which proof about duplicates is needed.
    pub fn duplicate_check(&self) -> (check: DuplicateCheck)
        ensures
            check == survey::demands_of(
                self.options()@,
                self.state().checkpoints,
                self.state().index_available,
            ).duplicates,
    {
        survey_demands(self.options, &self.state.checkpoints, self.state.index_available).duplicates
    }

    /// Goes on once no active segment was found to be served twice.
    pub fn duplicates_rejected(&mut self)
        requires
            old(self).well_formed(),
            old(self).stage() == SurveyStage::Duplicates,
        ensures
            final(self).well_formed(),
            final(self).options() == old(self).options(),
            final(self).state() == old(self).state(),
            final(self).stage() == SurveyStage::Finished,
    {
        self.stage = SurveyStage::Finished;
    }

    /// What the survey established.
    pub fn finish(self) -> (state: RepositoryState)
        requires
            self.well_formed(),
            self.stage() == SurveyStage::Finished,
        ensures
            state == self.state(),
            !state.index_available ==> state.checkpoints.names@.len() == 0,
            state.checkpoint_archive_number is Some <==> (state.checkpoints.names@.len() > 0
                || self.options()@.compaction_kind is Some),
    {
        self.state
    }
}

} // verus!
