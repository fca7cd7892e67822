//! Removing planned files: each target is proved to be the file that the plan
//! certified, twice, before it is unlinked.
use vstd::prelude::*;
use vstd::string::*;
use crate::error::Error;
use crate::plan;
use crate::plan::{DeletionFailureView, FileDeletionFailure, FileDeletionFailureKind};
use crate::planning::shape::same_fingerprint;
use crate::planning::{FileFingerprint, PlannedFileRemoval};
use crate::reclamation;
use crate::reclamation::add_estimate;

verus! {

/// What happens when a target cannot be certified.
#[derive(Clone, Copy, Debug, PartialEq, Eq, Structural)]
pub enum PlannedFileRemovalFailureMode {
    /// The run stops.
    RequireCertifiedTarget,
    /// The target stays, and the outcome says so.
    Partial,
}

/// What a proof of a target came to.
#[derive(Clone, Copy, Debug, PartialEq, Eq, Structural)]
pub enum PlannedFileTargetVerification {
    /// It is the planned file.
    Exact,
    /// It is gone.
    Absent,
}

/// What was seen of a target: of the file that is held open, and of the file
/// that its name leads to.
#[derive(Debug)]
pub enum TargetObservation {
    /// Reading either failed.
    Unreadable {
        /// Why.
        error: String,
    },
    /// The name leads nowhere.
    Absent,
    /// Both were seen.
    Seen {
        /// Whether the held file is a regular file.
        held_is_file: bool,
        /// Whether the name leads to a regular file.
        named_is_file: bool,
        /// What the held file looks like.
        held: FileFingerprint,
        /// What the named file looks like.
        named: FileFingerprint,
    },
}

/// What an operator reads about a target that is no regular file.
pub open spec fn irregular_text(path: Seq<char>) -> Seq<char> {
    "planned cleanup target "@ + path + " ceased to be a regular file"@
}

/// What an operator reads about a target that changed.
pub open spec fn changed_text(path: Seq<char>) -> Seq<char> {
    "planned cleanup target "@ + path
        + " changed after its redundancy/retention proof; refusing to unlink replacement recovery material"@
}

/// What a proof of a target comes to, or what it says of a target that it
/// rejects.
pub open spec fn proof_of(
    observation: TargetObservation,
    path: Seq<char>,
    expected: FileFingerprint,
) -> Result<PlannedFileTargetVerification, Seq<char>> {
    match observation {
        TargetObservation::Unreadable { error } => Err(error@),
        TargetObservation::Absent => Ok(PlannedFileTargetVerification::Absent),
        TargetObservation::Seen { held_is_file, named_is_file, held, named } => if !held_is_file
            || !named_is_file {
            Err("invalid segment-tar data: "@ + irregular_text(path))
        } else if held@ != expected@ || named@ != expected@ {
            Err("invalid segment-tar data: "@ + changed_text(path))
        } else {
            Ok(PlannedFileTargetVerification::Exact)
        },
    }
}

/// Proves that a held file and the file that its name leads to are both the
/// planned one.
pub fn verify_planned_file_target(
    observation: &TargetObservation,
    path: &str,
    expected: &FileFingerprint,
) -> (verified: Result<PlannedFileTargetVerification, Error>)
    ensures
        match verified {
            Ok(verification) => proof_of(*observation, path@, *expected) == Ok::<
                PlannedFileTargetVerification,
                Seq<char>,
            >(verification),
            Err(error) => proof_of(*observation, path@, *expected) == Err::<
                PlannedFileTargetVerification,
                Seq<char>,
            >(error.message()),
        },
{
    match observation {
        TargetObservation::Unreadable { error } => Err(
            Error::InputOutput { details: error.clone() },
        ),
        TargetObservation::Absent => Ok(PlannedFileTargetVerification::Absent),
        TargetObservation::Seen { held_is_file, named_is_file, held, named } => {
            if !*held_is_file || !*named_is_file {
                let mut details = String::from_str("planned cleanup target ");
                details.append(path);
                details.append(" ceased to be a regular file");
                assert(details@ =~= irregular_text(path@));
                return Err(Error::InvalidFormat { details });
            }
            if !same_fingerprint(held, expected) || !same_fingerprint(named, expected) {
                let mut details = String::from_str("planned cleanup target ");
                details.append(path);
                details.append(
                    " changed after its redundancy/retention proof; refusing to unlink replacement recovery material",
                );
                assert(details@ =~= changed_text(path@));
                return Err(Error::InvalidFormat { details });
            }
            Ok(PlannedFileTargetVerification::Exact)
        },
    }
}

/// What an operator reads about a target that another actor had removed.
pub open spec fn absent_detail() -> Seq<char> {
    "file was already absent when deletion was attempted"@
}

/// A deletion whose target was gone before.
pub open spec fn absent_failure(file_name: Seq<char>) -> DeletionFailureView {
    DeletionFailureView {
        file_name,
        error: absent_detail(),
        kind: FileDeletionFailureKind::AlreadyAbsent,
    }
}

/// A deletion whose target remains.
pub open spec fn retained_failure(file_name: Seq<char>, error: Seq<char>) -> DeletionFailureView {
    DeletionFailureView { file_name, error, kind: FileDeletionFailureKind::Retained }
}

/// What an operator reads when a failed deletion stops the run.
pub open spec fn fatal_text(failure: DeletionFailureView) -> Seq<char> {
    "planned cleanup deletion of "@ + failure.file_name + " failed: "@ + failure.error
}

/// Records a failed deletion, or stops the run.
pub fn record_planned_file_removal_failure(
    mode: PlannedFileRemovalFailureMode,
    failures: &mut Vec<FileDeletionFailure>,
    failure: FileDeletionFailure,
) -> (recorded: Result<(), Error>)
    ensures
        match mode {
            PlannedFileRemovalFailureMode::RequireCertifiedTarget => {
                &&& final(failures)@ == old(failures)@
                &&& recorded matches Err(error) && error.refuses(fatal_text(failure@))
            },
            PlannedFileRemovalFailureMode::Partial => {
                &&& recorded is Ok
                &&& plan::failure_views(final(failures)@) == plan::failure_views(
                    old(failures)@,
                ).push(failure@)
            },
        },
{
    match mode {
        PlannedFileRemovalFailureMode::RequireCertifiedTarget => {
            let mut details = String::from_str("planned cleanup deletion of ");
            details.append(failure.file_name());
            details.append(" failed: ");
            details.append(failure.error());
            assert(details@ =~= fatal_text(failure@));
            Err(Error::InvalidFormat { details })
        },
        PlannedFileRemovalFailureMode::Partial => {
            let ghost before = plan::failure_views(failures@);
            failures.push(failure);
            assert(plan::failure_views(failures@) =~= before.push(failure@));
            Ok(())
        },
    }
}

/// How far the removal of one file has come.
#[derive(Clone, Copy, Debug, PartialEq, Eq, Structural)]
pub enum RemovalPhase {
    /// The file is to be opened, without following a link.
    Open,
    /// The target is to be proved once.
    FirstProof,
    /// The target is to be proved again, at the last point before unlinking.
    SecondProof,
    /// The file is to be unlinked.
    Unlink,
}

/// How opening or unlinking a file went.
#[derive(Debug)]
pub enum FileOutcome {
    /// It worked.
    Done,
    /// The file is not there.
    NotFound,
    /// It failed otherwise.
    Failed {
        /// Why.
        error: String,
    },
}

/// How far a removal of planned files has come.
#[verifier::ext_equal]
pub struct RemovalView {
    /// The file that is dealt with now.
    pub position: nat,
    /// How far it has come.
    pub phase: RemovalPhase,
    /// How many files went.
    pub removed: nat,
    /// Which files did not go, or not by this run.
    pub failures: Seq<DeletionFailureView>,
    /// Where these files stand among the planned ones.
    pub failed: Seq<int>,
    /// How often the present file was proved to be the planned one.
    pub proofs: nat,
}

impl RemovalView {
    /// On to the next file, with a failure of the present one.
    pub open spec fn skipping(self, failure: DeletionFailureView) -> Self {
        RemovalView {
            position: self.position + 1,
            phase: RemovalPhase::Open,
            removed: self.removed,
            failures: self.failures.push(failure),
            failed: self.failed.push(self.position as int),
            proofs: 0,
        }
    }

    /// After the file was opened, or was not; nothing when the run stops.
    pub open spec fn after_open(
        self,
        name: Seq<char>,
        mode: PlannedFileRemovalFailureMode,
        outcome: FileOutcome,
    ) -> Option<Self> {
        match outcome {
            FileOutcome::Done => Some(RemovalView { phase: RemovalPhase::FirstProof, ..self }),
            FileOutcome::NotFound => Some(self.skipping(absent_failure(name))),
            FileOutcome::Failed { error } => if mode
                == PlannedFileRemovalFailureMode::RequireCertifiedTarget {
                None
            } else {
                Some(self.skipping(retained_failure(name, error@)))
            },
        }
    }

    /// After a proof of the target; nothing when the run stops.
    pub open spec fn after_proof(
        self,
        name: Seq<char>,
        mode: PlannedFileRemovalFailureMode,
        verdict: Result<PlannedFileTargetVerification, Seq<char>>,
    ) -> Option<Self> {
        match verdict {
            Ok(PlannedFileTargetVerification::Exact) => Some(
                RemovalView {
                    phase: if self.phase == RemovalPhase::FirstProof {
                        RemovalPhase::SecondProof
                    } else {
                        RemovalPhase::Unlink
                    },
                    proofs: self.proofs + 1,
                    ..self
                },
            ),
            Ok(PlannedFileTargetVerification::Absent) => Some(self.skipping(absent_failure(name))),
            Err(error) => if mode == PlannedFileRemovalFailureMode::RequireCertifiedTarget {
                None
            } else {
                Some(self.skipping(retained_failure(name, error)))
            },
        }
    }

    /// After the file was unlinked, or was not. A certified source that stays in
    /// place is never fatal.
    pub open spec fn after_unlink(self, name: Seq<char>, outcome: FileOutcome) -> Self {
        match outcome {
            FileOutcome::Done => RemovalView {
                position: self.position + 1,
                phase: RemovalPhase::Open,
                removed: self.removed + 1,
                failures: self.failures,
                failed: self.failed,
                proofs: 0,
            },
            FileOutcome::NotFound => self.skipping(absent_failure(name)),
            FileOutcome::Failed { error } => self.skipping(retained_failure(name, error@)),
        }
    }
}

/// A removal of planned files in the making.
pub struct PlannedFileRemovals {
    files: Vec<PlannedFileRemoval>,
    mode: PlannedFileRemovalFailureMode,
    position: usize,
    phase: RemovalPhase,
    removed: usize,
    failures: Vec<FileDeletionFailure>,
    failed: Ghost<Seq<int>>,
    proofs: Ghost<nat>,
}

impl View for PlannedFileRemovals {
    type V = RemovalView;

    closed spec fn view(&self) -> RemovalView {
        RemovalView {
            position: self.position as nat,
            phase: self.phase,
            removed: self.removed as nat,
            failures: plan::failure_views(self.failures@),
            failed: self.failed@,
            proofs: self.proofs@,
        }
    }
}

/// The names of some files.
pub open spec fn file_names(files: Seq<PlannedFileRemoval>) -> Seq<Seq<char>> {
    files.map_values(|file: PlannedFileRemoval| file.file_name@)
}

/// The failures are those of the files at some rising positions before one, in
/// that order.
pub open spec fn names_failed(
    names: Seq<Seq<char>>,
    failures: Seq<DeletionFailureView>,
    failed: Seq<int>,
    position: int,
) -> bool {
    &&& failed.len() == failures.len()
    &&& forall|i: int| 0 <= i < failed.len() ==> 0 <= #[trigger] failed[i] < position
    &&& forall|i: int, j: int|
        0 <= i < j < failed.len() ==> #[trigger] failed[i] < #[trigger] failed[j]
    &&& forall|i: int|
        0 <= i < failures.len() ==> (#[trigger] failures[i]).file_name
            == names[failed[i]]
}

/// The names of the files that went: those before a position that did not fail.
pub open spec fn unlinked_names(
    names: Seq<Seq<char>>,
    failed: Seq<int>,
    position: int,
) -> Set<Seq<char>> {
    Set::new(
        |name: Seq<char>|
            exists|i: int|
                0 <= i < position && !failed.contains(i) && #[trigger] names[i] == name,
    )
}

/// The deletion that stopped a run.
pub open spec fn stopped_by(error: Error, failure: DeletionFailureView) -> bool {
    error.refuses(fatal_text(failure))
}

impl PlannedFileRemovals {
    /// The planned files.
    pub closed spec fn files(&self) -> Seq<PlannedFileRemoval> {
        self.files@
    }

    /// What happens when a target cannot be certified.
    pub closed spec fn mode(&self) -> PlannedFileRemovalFailureMode {
        self.mode
    }

    /// Every file that was dealt with is counted once, failures are named in the
    /// order of their files, and the phase goes with the number of proofs.
    pub open spec fn well_formed(&self) -> bool {
        let state = self@;
        &&& state.position <= self.files().len() <= usize::MAX
        &&& state.removed + state.failures.len() == state.position
        &&& names_failed(
            file_names(self.files()),
            state.failures,
            state.failed,
            state.position as int,
        )
        &&& state.phase != RemovalPhase::Open ==> state.position < self.files().len()
        &&& state.proofs == match state.phase {
            RemovalPhase::Open => 0nat,
            RemovalPhase::FirstProof => 0nat,
            RemovalPhase::SecondProof => 1nat,
            RemovalPhase::Unlink => 2nat,
        }
    }

    /// Begins with the first file.
    pub fn remove_planned_files(
        files: Vec<PlannedFileRemoval>,
        mode: PlannedFileRemovalFailureMode,
    ) -> (removals: Self)
        ensures
            removals.well_formed(),
            removals.files() == files@,
            removals.mode() == mode,
            removals@ == (RemovalView {
                position: 0,
                phase: RemovalPhase::Open,
                removed: 0,
                failures: Seq::empty(),
                failed: Seq::empty(),
                proofs: 0,
            }),
    {
        let removals = PlannedFileRemovals {
            files,
            mode,
            position: 0,
            phase: RemovalPhase::Open,
            removed: 0,
            failures: Vec::new(),
            failed: Ghost(Seq::empty()),
            proofs: Ghost(0),
        };
        let count: usize = removals.files.len();
        assert(removals@.failures =~= Seq::empty());
        removals
    }

    /// The file that is dealt with now and how far it has come, or none when all
    /// were.
    pub fn current(&self) -> (current: Option<(&PlannedFileRemoval, RemovalPhase)>)
        requires
            self.well_formed(),
        ensures
            match current {
                Some((file, phase)) => self@.position < self.files().len() && *file
                    == self.files()[self@.position as int] && phase == self@.phase,
                None => self@.position == self.files().len() && self@.phase
                    == RemovalPhase::Open,
            },
    {
        if self.position < self.files.len() {
            Some((&self.files[self.position], self.phase))
        } else {
            None
        }
    }

    fn skip(&mut self, failure: FileDeletionFailure)
        requires
            old(self).well_formed(),
            old(self)@.position < old(self).files().len(),
            failure@.file_name == old(self).files()[old(self)@.position as int].file_name@,
        ensures
            final(self).well_formed(),
            final(self).files() == old(self).files(),
            final(self).mode() == old(self).mode(),
            final(self)@ == old(self)@.skipping(failure@),
    {
        let ghost before = plan::failure_views(self.failures@);
        self.failures.push(failure);
        assert(plan::failure_views(self.failures@) =~= before.push(failure@));
        self.failed = Ghost(self.failed@.push(self.position as int));
        self.position = self.position + 1;
        self.phase = RemovalPhase::Open;
        self.proofs = Ghost(0);
    }

    fn skip_absent(&mut self)
        requires
            old(self).well_formed(),
            old(self)@.position < old(self).files().len(),
        ensures
            final(self).well_formed(),
            final(self).files() == old(self).files(),
            final(self).mode() == old(self).mode(),
            final(self)@ == old(self)@.skipping(
                absent_failure(old(self).files()[old(self)@.position as int].file_name@),
            ),
    {
        let name = self.files[self.position].file_name.clone();
        self.skip(
            FileDeletionFailure::already_absent(
                name,
                String::from_str("file was already absent when deletion was attempted"),
            ),
        );
    }

    /// Takes how opening the file went. Absence already satisfies the deletion,
    /// and is reported without losing earlier ones.
    pub fn opened(&mut self, outcome: FileOutcome) -> (taken: Result<(), Error>)
        requires
            old(self).well_formed(),
            old(self)@.phase == RemovalPhase::Open,
            old(self)@.position < old(self).files().len(),
        ensures
            final(self).well_formed(),
            final(self).files() == old(self).files(),
            final(self).mode() == old(self).mode(),
            ({
                let name = old(self).files()[old(self)@.position as int].file_name@;
                match old(self)@.after_open(name, old(self).mode(), outcome) {
                    Some(state) => taken is Ok && final(self)@ == state,
                    None => final(self)@ == old(self)@ && (taken matches Err(error) && stopped_by(
                        error,
                        retained_failure(name, outcome->error@),
                    )),
                }
            }),
    {
        match outcome {
            FileOutcome::Done => {
                self.phase = RemovalPhase::FirstProof;
                Ok(())
            },
            FileOutcome::NotFound => {
                self.skip_absent();
                Ok(())
            },
            FileOutcome::Failed { error } => self.reject(error),
        }
    }

    fn reject(&mut self, error: String) -> (taken: Result<(), Error>)
        requires
            old(self).well_formed(),
            old(self)@.position < old(self).files().len(),
        ensures
            final(self).well_formed(),
            final(self).files() == old(self).files(),
            final(self).mode() == old(self).mode(),
            ({
                let failure = retained_failure(
                    old(self).files()[old(self)@.position as int].file_name@,
                    error@,
                );
                match old(self).mode() {
                    PlannedFileRemovalFailureMode::RequireCertifiedTarget => final(self)@ == old(
                        self,
                    )@ && (taken matches Err(refused) && stopped_by(refused, failure)),
                    PlannedFileRemovalFailureMode::Partial => taken is Ok && final(self)@ == old(
                        self,
                    )@.skipping(failure),
                }
            }),
    {
        let name = self.files[self.position].file_name.clone();
        let failure = FileDeletionFailure::retained(name, error);
        match self.mode {
            PlannedFileRemovalFailureMode::RequireCertifiedTarget => {
                record_planned_file_removal_failure(self.mode, &mut self.failures, failure)
            },
            PlannedFileRemovalFailureMode::Partial => {
                self.skip(failure);
                Ok(())
            },
        }
    }

    /// Takes what was seen of the target. Only a target that is exactly the
    /// planned file brings the removal further.
    pub fn observed(&mut self, path: &str, observation: &TargetObservation) -> (taken: Result<
        (),
        Error,
    >)
        requires
            old(self).well_formed(),
            old(self)@.phase == RemovalPhase::FirstProof || old(self)@.phase
                == RemovalPhase::SecondProof,
        ensures
            final(self).well_formed(),
            final(self).files() == old(self).files(),
            final(self).mode() == old(self).mode(),
            ({
                let file = old(self).files()[old(self)@.position as int];
                let verdict = proof_of(*observation, path@, file.fingerprint);
                match old(self)@.after_proof(file.file_name@, old(self).mode(), verdict) {
                    Some(state) => taken is Ok && final(self)@ == state,
                    None => final(self)@ == old(self)@ && (taken matches Err(error) && stopped_by(
                        error,
                        retained_failure(file.file_name@, verdict->Err_0),
                    )),
                }
            }),
    {
        match verify_planned_file_target(
            observation,
            path,
            &self.files[self.position].fingerprint,
        ) {
            Ok(PlannedFileTargetVerification::Exact) => {
                self.phase = match self.phase {
                    RemovalPhase::FirstProof => RemovalPhase::SecondProof,
                    _ => RemovalPhase::Unlink,
                };
                self.proofs = Ghost(self.proofs@ + 1);
                Ok(())
            },
            Ok(PlannedFileTargetVerification::Absent) => {
                self.skip_absent();
                Ok(())
            },
            Err(error) => {
                let message = error.to_text();
                self.reject(message)
            },
        }
    }

    /// Takes how unlinking the file went.
    pub fn unlinked(&mut self, outcome: FileOutcome)
        requires
            old(self).well_formed(),
            old(self)@.phase == RemovalPhase::Unlink,
        ensures
            final(self).well_formed(),
            final(self).files() == old(self).files(),
            final(self).mode() == old(self).mode(),
            final(self)@ == old(self)@.after_unlink(
                old(self).files()[old(self)@.position as int].file_name@,
                outcome,
            ),
    {
        match outcome {
            FileOutcome::Done => {
                self.removed = self.removed + 1;
                self.position = self.position + 1;
                self.phase = RemovalPhase::Open;
                self.proofs = Ghost(0);
            },
            FileOutcome::NotFound => {
                self.skip_absent();
            },
            FileOutcome::Failed { error } => {
                let name = self.files[self.position].file_name.clone();
                self.skip(FileDeletionFailure::retained(name, error));
            },
        }
    }

    /// How many files went, and which did not: each of these is one of the planned
    /// files, and they come in their order.
    pub fn finish(self) -> (outcome: (usize, Vec<FileDeletionFailure>))
        requires
            self.well_formed(),
            self@.position == self.files().len(),
        ensures
            outcome.0 == self@.removed,
            plan::failure_views(outcome.1@) == self@.failures,
            outcome.0 + outcome.1@.len() == self.files().len(),
            names_failed(
                file_names(self.files()),
                plan::failure_views(outcome.1@),
                self@.failed,
                self.files().len() as int,
            ),
    {
        (self.removed, self.failures)
    }
}

/// A file is unlinked only after it was proved to be the planned one twice in a
/// row.
pub proof fn law_unlinking_follows_two_exact_proofs(removals: PlannedFileRemovals)
    requires
        removals.well_formed(),
        removals@.phase == RemovalPhase::Unlink,
    ensures
        removals@.proofs == 2,
        removals@.position < removals.files().len(),
{
}

/// Every planned file went or is reported: at the end of a removal, a file that
/// no failure names was unlinked by this run.
pub proof fn law_every_planned_file_goes_or_is_reported(removals: PlannedFileRemovals, index: int)
    requires
        removals.well_formed(),
        removals@.position == removals.files().len(),
        0 <= index < removals.files().len(),
    ensures
        ({
            let name = removals.files()[index].file_name@;
            ||| unlinked_names(
                file_names(removals.files()),
                removals@.failed,
                removals@.position as int,
            ).contains(name)
            ||| exists|i: int|
                0 <= i < removals@.failures.len() && (#[trigger] removals@.failures[i]).file_name
                    == name
        }),
{
    let names = file_names(removals.files());
    assert(names[index] == removals.files()[index].file_name@);
    if removals@.failed.contains(index) {
        let i = choose|i: int| 0 <= i < removals@.failed.len() && removals@.failed[i] == index;
        assert(removals@.failures[i].file_name == names[index]);
    }
}

/// A target that is already gone never stops a run, in whichever phase that
/// shows, and is reported as such.
pub proof fn law_absence_is_never_fatal(
    state: RemovalView,
    name: Seq<char>,
    mode: PlannedFileRemovalFailureMode,
)
    ensures
        state.after_open(name, mode, FileOutcome::NotFound) == Some(
            state.skipping(absent_failure(name)),
        ),
        state.after_proof(name, mode, Ok(PlannedFileTargetVerification::Absent)) == Some(
            state.skipping(absent_failure(name)),
        ),
        state.after_unlink(name, FileOutcome::NotFound) == state.skipping(absent_failure(name)),
{
}

/// A target that changed is never unlinked by this run: it stops the run or is
/// reported as retained, and the run goes on with the next file.
pub proof fn law_changed_targets_are_never_unlinked(
    state: RemovalView,
    name: Seq<char>,
    mode: PlannedFileRemovalFailureMode,
    observation: TargetObservation,
    path: Seq<char>,
    expected: FileFingerprint,
)
    requires
        observation matches TargetObservation::Seen { held, named, .. } && (held@ != expected@
            || named@ != expected@),
    ensures
        match state.after_proof(name, mode, proof_of(observation, path, expected)) {
            Some(after) => after.position == state.position + 1 && after.removed
                == state.removed,
            None => true,
        },
{
}

/// The sum of some sizes.
pub open spec fn size_total(sizes: Seq<u64>) -> nat
    decreases sizes.len(),
{
    if sizes.len() == 0 {
        0
    } else {
        size_total(sizes.drop_last()) + sizes.last() as nat
    }
}

proof fn lemma_size_total_grows(sizes: Seq<u64>, count: int)
    requires
        0 <= count <= sizes.len(),
    ensures
        size_total(sizes.take(count)) <= size_total(sizes),
    decreases sizes.len(),
{
    if count == sizes.len() {
        assert(sizes.take(count) =~= sizes);
    } else {
        lemma_size_total_grows(sizes.drop_last(), count);
        assert(sizes.drop_last().take(count) =~= sizes.take(count));
    }
}

/// The bytes that recovery backups hold, given their sizes.
pub fn recovery_backup_file_bytes(sizes: &Vec<u64>) -> (bytes: Result<u64, Error>)
    ensures
        match bytes {
            Ok(total) => total == size_total(sizes@),
            Err(error) => size_total(sizes@) > u64::MAX && error.refuses(
                reclamation::overflow_text(),
            ),
        },
{
    let mut total: u64 = 0;
    let mut index: usize = 0;
    assert(sizes@.take(0) =~= Seq::empty());
    while index < sizes.len()
        invariant
            index <= sizes@.len(),
            total == size_total(sizes@.take(index as int)),
        decreases sizes@.len() - index,
    {
        proof {
            let longer = sizes@.take(index as int + 1);
            assert(longer.drop_last() =~= sizes@.take(index as int));
            assert(longer.last() == sizes@[index as int]);
            lemma_size_total_grows(sizes@, index as int + 1);
        }
        add_estimate(&mut total, sizes[index])?;
        index = index + 1;
    }
    assert(sizes@.take(index as int) =~= sizes@);
    Ok(total)
}

/// Whether an optional file is to be read: it is, when it is a regular file; it
/// is not, when it is not there; anything else is refused.
pub fn read_optional_regular_file(path: &str, exists: bool, is_regular_file: bool) -> (present:
    Result<bool, Error>)
    ensures
        match present {
            Ok(found) => found == exists && (exists ==> is_regular_file),
            Err(error) => exists && !is_regular_file && error.refuses(
                path@ + " is not a regular file"@,
            ),
        },
{
    if !exists {
        Ok(false)
    } else if is_regular_file {
        Ok(true)
    } else {
        let mut details = path.to_owned();
        details.append(" is not a regular file");
        Err(Error::InvalidFormat { details })
    }
}

} // verus!
