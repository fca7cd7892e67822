//! The session between a plan and its application: what is proved before the
//! lock is taken, again once it is held, and before the first byte moves.
use vstd::prelude::*;
use vstd::string::*;
use crate::apply::run::ApplyRun;
use crate::apply::session::ApplyStage;
use crate::apply_identity;
use crate::apply_identity::{
    planned_apply_identity_issue, validate_plan_apply_identity_for_credentials, ApplyCredentials,
    SourceMetadata,
};
use crate::error::Error;
use crate::options::{CompactionOptions, MaintenanceTask};
use crate::plan::CompactionPlan;
use crate::planning::survey;
use crate::planning::survey::attach_completed_repairs;
use crate::text;

verus! {

/// One step of preparing an application.
#[derive(Clone, Copy, Debug, PartialEq, Eq, Structural)]
pub enum PrepareStep {
    /// Refuse options that no run can carry out.
    ValidateOptions,
    /// Resolve the directory once to its canonical path.
    ResolveDirectory,
    /// Refuse a directory that is no repository.
    ValidateShape,
    /// Refuse a store version that cannot be read.
    CheckManifest,
    /// Exercise the durability that the run will rely on.
    ValidateEnvironment,
    /// Refuse to run as another user than the store's.
    ValidateIdentity,
    /// Take the repository lock.
    AcquireLock,
    /// Prove that the lock is still the one at the path.
    ValidateLock,
    /// Rebuild archive indexes, where that is selected and needed.
    Repair,
    /// Build the authoritative plan.
    BuildPlan,
    /// Refuse a plan whose replacements could not keep their owners.
    ValidatePlanIdentity,
}

/// The steps of preparing an application, in order: every check before the lock
/// is made again once it is held, because the path may have changed meanwhile.
pub open spec fn prepare_steps() -> Seq<PrepareStep> {
    seq![
        PrepareStep::ValidateOptions,
        PrepareStep::ResolveDirectory,
        PrepareStep::ValidateShape,
        PrepareStep::CheckManifest,
        PrepareStep::ValidateEnvironment,
        PrepareStep::ValidateIdentity,
        PrepareStep::AcquireLock,
        PrepareStep::ValidateShape,
        PrepareStep::CheckManifest,
        PrepareStep::ValidateEnvironment,
        PrepareStep::ValidateIdentity,
        PrepareStep::ValidateLock,
        PrepareStep::Repair,
        PrepareStep::BuildPlan,
        PrepareStep::ValidatePlanIdentity,
    ]
}

/// The steps of a preview, in order: read-only, and without the lock.
pub open spec fn preview_steps() -> Seq<PrepareStep> {
    seq![
        PrepareStep::ValidateOptions,
        PrepareStep::ResolveDirectory,
        PrepareStep::ValidateShape,
        PrepareStep::BuildPlan,
    ]
}

/// A preparation in the making.
#[derive(Clone, Copy, Debug, PartialEq, Eq, Structural)]
pub struct Preparation {
    previews: bool,
    position: usize,
}

impl Preparation {
    /// The steps, in order.
    pub closed spec fn steps(self) -> Seq<PrepareStep> {
        if self.previews {
            preview_steps()
        } else {
            prepare_steps()
        }
    }

    /// How many steps were taken.
    pub closed spec fn taken(self) -> nat {
        self.position as nat
    }

    /// Begins the preparation of an application.
    pub fn prepare() -> (preparation: Self)
        ensures
            preparation.steps() == prepare_steps(),
            preparation.taken() == 0,
    {
        Preparation { previews: false, position: 0 }
    }

    /// Begins a preview.
    pub fn preview() -> (preparation: Self)
        ensures
            preparation.steps() == preview_steps(),
            preparation.taken() == 0,
    {
        Preparation { previews: true, position: 0 }
    }

    /// The next step, or none when everything is prepared.
    pub fn next(&self) -> (step: Option<PrepareStep>)
        ensures
            step == if self.taken() < self.steps().len() {
                Some(self.steps()[self.taken() as int])
            } else {
                None
            },
    {
        if self.previews {
            match self.position {
                0 => Some(PrepareStep::ValidateOptions),
                1 => Some(PrepareStep::ResolveDirectory),
                2 => Some(PrepareStep::ValidateShape),
                3 => Some(PrepareStep::BuildPlan),
                _ => None,
            }
        } else {
            match self.position {
                0 => Some(PrepareStep::ValidateOptions),
                1 => Some(PrepareStep::ResolveDirectory),
                2 => Some(PrepareStep::ValidateShape),
                3 => Some(PrepareStep::CheckManifest),
                4 => Some(PrepareStep::ValidateEnvironment),
                5 => Some(PrepareStep::ValidateIdentity),
                6 => Some(PrepareStep::AcquireLock),
                7 => Some(PrepareStep::ValidateShape),
                8 => Some(PrepareStep::CheckManifest),
                9 => Some(PrepareStep::ValidateEnvironment),
                10 => Some(PrepareStep::ValidateIdentity),
                11 => Some(PrepareStep::ValidateLock),
                12 => Some(PrepareStep::Repair),
                13 => Some(PrepareStep::BuildPlan),
                14 => Some(PrepareStep::ValidatePlanIdentity),
                _ => None,
            }
        }
    }

    /// Goes on once the step was taken.
    pub fn done(&mut self)
        requires
            old(self).taken() < old(self).steps().len(),
        ensures
            final(self).steps() == old(self).steps(),
            final(self).taken() == old(self).taken() + 1,
    {
        self.position = self.position + 1;
    }

    /// Whether a failure now must name the archives that were already repaired:
    /// it must once the repair is done, because it is durable.
    pub fn repairs_are_durable(&self) -> (durable: bool)
        ensures
            durable == exists|i: int|
                0 <= i < self.taken() && i < self.steps().len() && #[trigger] self.steps()[i]
                    == PrepareStep::Repair,
    {
        proof {
            assert(prepare_steps()[12] == PrepareStep::Repair);
            if !self.previews && self.position > 12 {
                assert(self.steps()[12] == PrepareStep::Repair);
            }
        }
        !self.previews && self.position > 12
    }
}

/// Under the lock, everything that was proved before it is proved again, and
/// only then does the first mutation come: the repair.
pub proof fn law_checks_are_repeated_under_the_lock(check: PrepareStep)
    requires
        check == PrepareStep::ValidateShape || check == PrepareStep::CheckManifest || check
            == PrepareStep::ValidateEnvironment || check == PrepareStep::ValidateIdentity,
    ensures
        exists|before: int, held: int, repaired: int|
            0 <= before < 6 < held < repaired < prepare_steps().len()
                && #[trigger] prepare_steps()[before] == check
                && #[trigger] prepare_steps()[held] == check
                && #[trigger] prepare_steps()[repaired] == PrepareStep::Repair,
        prepare_steps()[6] == PrepareStep::AcquireLock,
{
    let steps = prepare_steps();
    assert(steps[12] == PrepareStep::Repair);
    if check == PrepareStep::ValidateShape {
        assert(steps[2] == check && steps[7] == check);
    } else if check == PrepareStep::CheckManifest {
        assert(steps[3] == check && steps[8] == check);
    } else if check == PrepareStep::ValidateEnvironment {
        assert(steps[4] == check && steps[9] == check);
    } else {
        assert(steps[5] == check && steps[10] == check);
    }
}

/// A preview takes no lock and repairs nothing.
pub proof fn law_a_preview_is_read_only(position: int)
    requires
        0 <= position < preview_steps().len(),
    ensures
        preview_steps()[position] != PrepareStep::AcquireLock,
        preview_steps()[position] != PrepareStep::Repair,
{
}

/// Whether archive indexes are rebuilt before planning.
///
/// Only when the task is selected and there is something to rebuild: a store
/// with nothing to repair comes out of a repair run byte-identical. An archive
/// that cannot be rebuilt dooms the run however it is retried, so it is refused
/// before any other is rewritten.
pub fn repair_before_planning(
    options: &CompactionOptions,
    unrepairable: Option<String>,
    repairable: usize,
) -> (decided: Result<bool, Error>)
    ensures
        match decided {
            Ok(repairs) => {
                &&& repairs == (options@.tasks.contains(MaintenanceTask::RepairArchives)
                    && repairable > 0)
                &&& options@.tasks.contains(MaintenanceTask::RepairArchives) ==> unrepairable
                    is None
            },
            Err(error) => options@.tasks.contains(MaintenanceTask::RepairArchives)
                && unrepairable is Some && error.refuses(unrepairable->0@),
        },
{
    if !options.contains(MaintenanceTask::RepairArchives) {
        return Ok(false);
    }
    match unrepairable {
        Some(details) => Err(Error::InvalidFormat { details }),
        None => Ok(repairable > 0),
    }
}

/// Refuses before the first rewrite when an archive that the repair would
/// replace cannot keep its owner, its group or its mode: ownership does not
/// change on a retry, so that finding out afterwards would never converge.
pub fn validate_repair_target_identity(
    targets: &Vec<SourceMetadata>,
    directory_gid: u32,
    directory_mode: u32,
    credentials: &ApplyCredentials,
) -> (checked: Result<(), Error>)
    ensures
        ({
            let groups = apply_identity::created_groups(
                directory_gid,
                directory_mode,
                credentials.effective_gid,
            );
            match checked {
                Ok(_) => forall|i: int|
                    0 <= i < targets@.len() ==> #[trigger] apply_identity::issue_at(
                        targets@,
                        groups,
                        *credentials,
                        i,
                    ) is None,
                Err(error) => exists|position: int| #[trigger]
                    apply_identity::is_first_issue(targets@, groups, *credentials, position)
                        && error.refuses(
                        apply_identity::issue_at(targets@, groups, *credentials, position)->0,
                    ),
            }
        }),
{
    match planned_apply_identity_issue(targets, directory_gid, directory_mode, credentials) {
        Some(details) => Err(Error::InvalidFormat { details }),
        None => Ok(()),
    }
}

/// A failure, with the repairs that came before it.
pub open spec fn after_repairs(raised: Error, failure: Error, repaired: Seq<Seq<char>>) -> bool {
    if repaired.len() == 0 {
        raised == failure
    } else {
        raised.refuses(survey::with_repairs(failure.message(), repaired))
    }
}

/// An authoritative plan, built under the repository lock. A run applies exactly
/// this plan.
#[derive(Debug)]
pub struct PreparedCompaction {
    options: CompactionOptions,
    plan: CompactionPlan,
    repaired: Vec<String>,
}

impl PreparedCompaction {
    /// The options.
    pub closed spec fn chosen(&self) -> CompactionOptions {
        self.options
    }

    /// The plan.
    pub closed spec fn planned(&self) -> CompactionPlan {
        self.plan
    }

    /// The archives whose index was rebuilt.
    pub closed spec fn rebuilt(&self) -> Seq<Seq<char>> {
        text::texts(self.repaired@)
    }

    /// Takes the plan as it was built under the lock. A refusal names the
    /// archives that were repaired before it: they are durable.
    pub fn prepare(
        options: CompactionOptions,
        repaired: Vec<String>,
        built: Result<CompactionPlan, Error>,
    ) -> (prepared: Result<Self, Error>)
        ensures
            match prepared {
                Ok(ready) => built matches Ok(plan) && ready.planned() == plan && ready.chosen()
                    == options && ready.rebuilt() == text::texts(repaired@),
                Err(raised) => built matches Err(failure) && after_repairs(
                    raised,
                    failure,
                    text::texts(repaired@),
                ),
            },
    {
        match built {
            Ok(plan) => Ok(PreparedCompaction { options, plan, repaired }),
            Err(failure) => Err(attach_completed_repairs(failure, &repaired)),
        }
    }

    /// Refuses a plan whose replacements could not keep their owners, or of which
    /// that could not be told. It can be told only now: the archives in question
    /// may be those that the repair just wrote.
    pub fn validate_plan_apply_identity(self, issue: Result<Option<String>, Error>) -> (validated:
        Result<Self, Error>)
        ensures
            match validated {
                Ok(ready) => issue matches Ok(None) && ready == self,
                Err(raised) => match issue {
                    Ok(found) => found is Some && exists|failure: Error| #[trigger]
                        after_repairs(raised, failure, self.rebuilt()) && failure.refuses(
                            found->0@
                                + "; conservatively refusing before planned repository mutations"@,
                        ),
                    Err(failure) => after_repairs(raised, failure, self.rebuilt()),
                },
            },
    {
        match issue {
            Ok(found) => match validate_plan_apply_identity_for_credentials(found) {
                Ok(_) => Ok(self),
                Err(failure) => {
                    let ghost stated = failure;
                    let raised = attach_completed_repairs(failure, &self.repaired);
                    assert(after_repairs(raised, stated, self.rebuilt()));
                    Err(raised)
                },
            },
            Err(failure) => Err(attach_completed_repairs(failure, &self.repaired)),
        }
    }

    /// The options that the plan was built for.
    pub fn options(&self) -> (options: &CompactionOptions)
        ensures
            *options == self.chosen(),
    {
        &self.options
    }

    /// The plan that callers display and confirm.
    pub fn plan(&self) -> (plan: &CompactionPlan)
        ensures
            *plan == self.planned(),
    {
        &self.plan
    }

    /// How many archive indexes were rebuilt already: before anything is
    /// applied, and durably.
    pub fn repaired_archives(&self) -> (count: usize)
        ensures
            count == self.rebuilt().len(),
    {
        self.repaired.len()
    }

    /// Begins to apply exactly this plan.
    pub fn apply(&self, retained_generations: i32) -> (run: ApplyRun<'_>)
        ensures
            run.well_formed(),
            run.plan() == self.planned(),
            run.options() == self.chosen(),
            run.retained_generations() == retained_generations,
            run.stage() == ApplyStage::CheckDirectory,
            run.findings().repaired_archives == self.rebuilt().len(),
    {
        ApplyRun::apply_prepared(
            &self.plan,
            &self.options,
            self.repaired.len(),
            retained_generations,
        )
    }
}

} // verus!
