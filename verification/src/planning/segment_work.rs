//! Deciding a plan's segment work, one question to the store at a time.
use vstd::prelude::*;
use crate::error::Error;
use crate::generations;
use crate::generations::{
    validate_prospective_segment_plan, GenerationIndex, HeaderFacts, SegmentReferences,
    UnreadableRoot,
};
use crate::identifier::{
    CompactionKind, GarbageCollectionGeneration, ReclaimRule, RecordIdentifier, SegmentIdentifier,
    SegmentSet,
};
use crate::journal::proofs::JournalConvergence;
use crate::options::{CompactionOptions, MaintenanceTask};
use crate::plan::HistoryProtection;
use crate::planning::segments;
use crate::planning::segments::{
    convergence_gate, head_trace_needed, price_history_protection, protect_history,
    standalone_sweep_planned, trace_head_closure, HeadClosure,
};
use crate::planning::{CheckpointPlan, SegmentCompactionPlan, SegmentWork, StaleArchive};
use crate::reach;
use crate::trace;
use crate::trace::{extend_segment_closure, SegmentTrace};

verus! {

/// What deciding a plan's segment work needs: one head, one option set, and the
/// journal facts that the convergence gate reads.
#[derive(Clone, Copy, Debug)]
pub struct SegmentWorkInputs<'a> {
    /// The options.
    pub options: &'a CompactionOptions,
    /// The head.
    pub current_head: RecordIdentifier,
    /// Whether no archive waits for a repair of its index.
    pub index_available: bool,
    /// The checkpoints that go.
    pub checkpoints: &'a CheckpointPlan,
    /// The journal's roots that are retained.
    pub retained_roots: &'a Vec<RecordIdentifier>,
    /// What the journal contributes to the convergence decision.
    pub journal_convergence: JournalConvergence,
    /// Whether this run omits version histories from the copy.
    pub purge_selected: bool,
    /// How many generations a sweep keeps.
    pub retained_generations: i32,
}

/// What is asked of the store next.
#[derive(Clone, Copy, Debug, PartialEq, Eq, Structural)]
pub enum SegmentStage {
    /// Which archive files serve no active segment.
    StaleArchives,
    /// The generation in the head segment's header.
    Reference,
    /// The head's closure.
    HeadTrace,
    /// The sweep that retires residue.
    ResidueSweep,
    /// The sweep that follows the copy.
    PredictedSweep,
    /// The closure of the retained journal history, on top of the head's.
    HistoryTrace,
    /// The sweep without a copy.
    Sweep,
    /// What that sweep would free without the history's protection.
    Pricing,
    /// Whether the planned sweep keeps every retained root whole.
    Validation,
    /// Nothing; the work is decided.
    Finished,
}

/// What is asked after the convergence decision, when the residue was settled.
pub open spec fn after_residue(
    inputs: SegmentWorkInputs<'_>,
    kind: Option<CompactionKind>,
) -> SegmentStage {
    if kind is Some && inputs.index_available {
        SegmentStage::PredictedSweep
    } else {
        after_prediction(inputs, kind)
    }
}

/// What is asked when the copy's own sweep was settled.
pub open spec fn after_prediction(
    inputs: SegmentWorkInputs<'_>,
    kind: Option<CompactionKind>,
) -> SegmentStage {
    if segments::sweeps_standalone(inputs.index_available, inputs.options@, kind) {
        SegmentStage::HistoryTrace
    } else {
        SegmentStage::Finished
    }
}

/// What is asked after the convergence decision.
pub open spec fn after_gate(
    inputs: SegmentWorkInputs<'_>,
    kind: Option<CompactionKind>,
    residue_segments: usize,
) -> SegmentStage {
    if inputs.index_available && residue_segments != 0 {
        SegmentStage::ResidueSweep
    } else {
        after_residue(inputs, kind)
    }
}

/// What convergence decides from what the head's trace established.
pub open spec fn gate_of(inputs: SegmentWorkInputs<'_>, uniformly_compacted: bool) -> (
    Option<CompactionKind>,
    bool,
) {
    segments::gate(
        inputs.options@,
        uniformly_compacted,
        *inputs.checkpoints,
        inputs.journal_convergence,
        inputs.purge_selected,
    )
}

/// The segments of some records, in order.
pub open spec fn segments_of(records: Seq<RecordIdentifier>) -> Seq<SegmentIdentifier> {
    records.map_values(|record: RecordIdentifier| record.segment)
}

/// The segments that a trace of some roots starts from.
pub open spec fn root_segments(roots: Seq<RecordIdentifier>) -> Set<SegmentIdentifier> {
    segments_of(roots).to_set()
}

/// A plan's segment work in the making.
pub struct SegmentPlanner<'a> {
    inputs: SegmentWorkInputs<'a>,
    stage: SegmentStage,
    closure: SegmentSet,
    work: SegmentWork,
    uniform: Ghost<bool>,
}

impl<'a> SegmentPlanner<'a> {
    /// What the planner was given.
    pub closed spec fn inputs(&self) -> SegmentWorkInputs<'a> {
        self.inputs
    }

    /// What is asked next.
    pub closed spec fn stage(&self) -> SegmentStage {
        self.stage
    }

    /// The head's closure.
    pub closed spec fn closure(&self) -> SegmentSet {
        self.closure
    }

    /// Whether the head's trace found it compacted throughout.
    pub closed spec fn uniformly_compacted(&self) -> bool {
        self.uniform@
    }

    /// What is decided so far.
    pub closed spec fn work(&self) -> SegmentWork {
        self.work
    }

    /// Nothing is decided that the inputs and convergence do not call for.
    pub open spec fn well_formed(&self) -> bool {
        let work = self.work();
        let inputs = self.inputs();
        &&& self.closure().well_formed()
        &&& work.protected_history_segments.well_formed()
        &&& work.stale_archives@.len() > 0 ==> inputs.index_available
            && inputs.options@.tasks.contains(MaintenanceTask::StaleArchives)
        &&& work.residue_sweep is Some ==> inputs.index_available && work.residue_segments != 0
        &&& work.predicted_sweep is Some ==> inputs.index_available
            && work.effective_compaction_kind is Some
        &&& work.segment_plan is Some ==> segments::sweeps_standalone(
            inputs.index_available,
            inputs.options@,
            work.effective_compaction_kind,
        )
        &&& work.closure_indexed_bytes is Some ==> segments::traces_head(
            inputs.index_available,
            inputs.options@,
            *inputs.checkpoints,
        )
        &&& work.effective_compaction_kind is Some ==> work.effective_compaction_kind
            == inputs.options@.compaction_kind
        &&& match self.stage() {
            SegmentStage::StaleArchives => inputs.index_available
                && inputs.options@.tasks.contains(MaintenanceTask::StaleArchives),
            SegmentStage::HeadTrace => segments::traces_head(
                inputs.index_available,
                inputs.options@,
                *inputs.checkpoints,
            ),
            SegmentStage::ResidueSweep => inputs.index_available && work.residue_segments != 0,
            SegmentStage::PredictedSweep => inputs.index_available
                && work.effective_compaction_kind is Some,
            SegmentStage::HistoryTrace | SegmentStage::Sweep | SegmentStage::Pricing
            | SegmentStage::Validation => segments::sweeps_standalone(
                inputs.index_available,
                inputs.options@,
                work.effective_compaction_kind,
            ),
            _ => true,
        }
        &&& self.stage() == SegmentStage::StaleArchives || self.stage() == SegmentStage::Reference
            || self.stage() == SegmentStage::HeadTrace ==> work.residue_sweep is None
            && work.predicted_sweep is None && work.segment_plan is None
            && work.residue_segments == 0 && work.effective_compaction_kind is None
            && work.closure_indexed_bytes is None && !self.uniformly_compacted()
        &&& self.has_decided() && segments::traces_head(
            inputs.index_available,
            inputs.options@,
            *inputs.checkpoints,
        ) ==> self.closure().has(inputs.current_head.segment)
        &&& self.has_settled_residue() && inputs.index_available && work.residue_segments != 0
            ==> work.residue_sweep is Some
        &&& self.has_settled_prediction() && inputs.index_available
            && work.effective_compaction_kind is Some ==> work.predicted_sweep is Some
        &&& self.has_settled_sweep() && segments::sweeps_standalone(
            inputs.index_available,
            inputs.options@,
            work.effective_compaction_kind,
        ) ==> work.segment_plan is Some
        &&& self.has_decided() ==> (work.effective_compaction_kind, work.already_fully_compacted)
            == gate_of(inputs, self.uniformly_compacted())
    }

    /// Whether convergence was decided.
    pub open spec fn has_decided(&self) -> bool {
        self.stage() != SegmentStage::StaleArchives && self.stage() != SegmentStage::Reference
            && self.stage() != SegmentStage::HeadTrace
    }

    /// Whether nothing is asked any more about residue.
    pub open spec fn has_settled_residue(&self) -> bool {
        self.stage() == SegmentStage::PredictedSweep || self.has_settled_prediction()
    }

    /// Whether nothing is asked any more about the copy's own sweep.
    pub open spec fn has_settled_prediction(&self) -> bool {
        self.stage() == SegmentStage::HistoryTrace || self.stage() == SegmentStage::Sweep
            || self.has_settled_sweep()
    }

    /// Whether the sweep without a copy was planned, where one is called for.
    pub open spec fn has_settled_sweep(&self) -> bool {
        self.stage() == SegmentStage::Pricing || self.stage() == SegmentStage::Validation
            || self.stage() == SegmentStage::Finished
    }

    /// Begins: nothing is decided.
    pub fn plan_segment_work(inputs: SegmentWorkInputs<'a>) -> (planner: Self)
        ensures
            planner.well_formed(),
            planner.inputs() == inputs,
            planner.stage() == if inputs.index_available && inputs.options@.tasks.contains(
                MaintenanceTask::StaleArchives,
            ) {
                SegmentStage::StaleArchives
            } else {
                SegmentStage::Reference
            },
            planner.closure().listed() == Seq::<SegmentIdentifier>::empty(),
            planner.work().stale_archives@ == Seq::<StaleArchive>::empty(),
            planner.work().protected_history_segments.listed() == Seq::<
                SegmentIdentifier,
            >::empty(),
            planner.work().history_protection == (HistoryProtection {
                history_only_segments: 0,
                would_be_reclaimable_segments: 0,
                would_be_reclaimable_bytes: 0,
            }),
            !planner.work().already_fully_compacted,
    {
        let stage = if inputs.index_available && inputs.options.contains(
            MaintenanceTask::StaleArchives,
        ) {
            SegmentStage::StaleArchives
        } else {
            SegmentStage::Reference
        };
        SegmentPlanner {
            inputs,
            stage,
            closure: SegmentSet::new(),
            work: SegmentWork {
                stale_archives: Vec::new(),
                reference_generation: GarbageCollectionGeneration {
                    generation: 0,
                    full_generation: 0,
                    is_compacted: false,
                },
                segment_plan: None,
                residue_sweep: None,
                predicted_sweep: None,
                protected_history_segments: SegmentSet::new(),
                history_protection: HistoryProtection::default(),
                residue_segments: 0,
                closure_indexed_bytes: None,
                effective_compaction_kind: None,
                already_fully_compacted: false,
            },
            uniform: Ghost(false),
        }
    }

    /// What is asked next.
    pub fn asked(&self) -> (stage: SegmentStage)
        ensures
            stage == self.stage(),
    {
        self.stage
    }

    /// What is decided so far.
    pub fn decided(&self) -> (work: &SegmentWork)
        ensures
            *work == self.work(),
    {
        &self.work
    }

    /// The one rule of the run, which the check of the head's safety and the
    /// sweep without a copy both apply.
    pub fn reclaim_rule(&self) -> (rule: ReclaimRule)
        ensures
            rule == (ReclaimRule {
                reference: self.work().reference_generation,
                kind: CompactionKind::Full,
                retained_generations: self.inputs().retained_generations,
            }),
    {
        ReclaimRule {
            reference: self.work.reference_generation,
            kind: CompactionKind::Full,
            retained_generations: self.inputs.retained_generations,
        }
    }

    /// Takes the stale archives.
    pub fn supply_stale_archives(&mut self, stale_archives: Vec<StaleArchive>)
        requires
            old(self).well_formed(),
            old(self).stage() == SegmentStage::StaleArchives,
        ensures
            final(self).well_formed(),
            final(self).inputs() == old(self).inputs(),
            final(self).closure() == old(self).closure(),
            final(self).uniformly_compacted() == old(self).uniformly_compacted(),
            final(self).stage() == SegmentStage::Reference,
            final(self).work() == (SegmentWork { stale_archives, ..old(self).work() }),
    {
        self.work.stale_archives = stale_archives;
        self.stage = SegmentStage::Reference;
    }

    /// Takes the generation of the head segment. Where the head's closure is
    /// not needed, convergence is decided at once.
    pub fn supply_reference(&mut self, reference_generation: GarbageCollectionGeneration)
        requires
            old(self).well_formed(),
            old(self).stage() == SegmentStage::Reference,
        ensures
            final(self).well_formed(),
            final(self).inputs() == old(self).inputs(),
            final(self).closure() == old(self).closure(),
            final(self).uniformly_compacted() == old(self).uniformly_compacted(),
            ({
                let inputs = old(self).inputs();
                if segments::traces_head(
                    inputs.index_available,
                    inputs.options@,
                    *inputs.checkpoints,
                ) {
                    &&& final(self).stage() == SegmentStage::HeadTrace
                    &&& final(self).work() == (SegmentWork {
                        reference_generation,
                        ..old(self).work()
                    })
                } else {
                    let gate = gate_of(inputs, false);
                    &&& final(self).stage() == after_gate(inputs, gate.0, 0)
                    &&& final(self).work() == (SegmentWork {
                        reference_generation,
                        effective_compaction_kind: gate.0,
                        already_fully_compacted: gate.1,
                        ..old(self).work()
                    })
                }
            }),
    {
        self.work.reference_generation = reference_generation;
        if head_trace_needed(
            self.inputs.index_available,
            self.inputs.options,
            self.inputs.checkpoints,
        ) {
            self.stage = SegmentStage::HeadTrace;
        } else {
            self.pass_gate(false);
        }
    }

    /// Starts tracing what the head reaches, from the head's own segment.
    pub fn head_trace(&self) -> (trace: SegmentTrace)
        ensures
            trace.well_formed(),
            trace.settled() == Set::<SegmentIdentifier>::empty(),
            trace.roots() == set![self.inputs().current_head.segment],
            trace.references() == Map::<SegmentIdentifier, Seq<SegmentIdentifier>>::empty(),
            trace.awaits() is None,
    {
        let mut roots: Vec<SegmentIdentifier> = Vec::new();
        roots.push(self.inputs.current_head.segment);
        let trace = extend_segment_closure(SegmentSet::new(), &roots);
        assert(trace.settled() =~= Set::empty());
        assert(roots@[0] == self.inputs.current_head.segment);
        assert(trace.roots() =~= set![self.inputs.current_head.segment]);
        trace
    }

    /// Takes the finished trace of the head, with what the headers and the index
    /// say of the segments it reached, and refuses a head that the run's own rule
    /// would break. Then decides on convergence: after the facts, and before a
    /// prediction is spent on a copy that will not happen.
    pub fn supply_head_closure(
        &mut self,
        trace: SegmentTrace,
        headers: &Vec<Option<HeaderFacts>>,
        active_index_generations: &GenerationIndex,
        indexed_bytes: (u64, u64),
    ) -> (taken: Result<(), Error>)
        requires
            old(self).well_formed(),
            old(self).stage() == SegmentStage::HeadTrace,
            trace.well_formed(),
            trace.is_exhausted(),
            trace.settled() == Set::<SegmentIdentifier>::empty(),
            trace.roots() == set![old(self).inputs().current_head.segment],
            generations::headers_cover(trace.visited(), headers@),
        ensures
            final(self).well_formed(),
            match taken {
                Ok(_) => {
                    let residue = generations::ahead_count(
                        *active_index_generations,
                        old(self).work().reference_generation,
                        active_index_generations.listed(),
                    );
                    let reference = old(self).work().reference_generation;
                    let uniform = reference.is_compacted && generations::is_uniform(
                        trace.visited(),
                        *active_index_generations,
                        reference,
                    );
                    let gate = gate_of(old(self).inputs(), uniform);
                    &&& forall|i: int|
                        0 <= i < trace.visited().len() ==> #[trigger] generations::closure_fault_at(
                            trace.visited(),
                            headers@,
                            *active_index_generations,
                            i,
                        ) is None
                    &&& final(self).inputs() == old(self).inputs()
                    &&& final(self).closure().listed() == trace.visited()
                    &&& forall|segment: SegmentIdentifier| #[trigger]
                        final(self).closure().has(segment) <==> reach::reached(
                            trace.references(),
                            set![old(self).inputs().current_head.segment],
                            Set::empty(),
                            segment,
                        )
                    &&& final(self).uniformly_compacted() == uniform
                    &&& final(self).work().residue_segments == residue
                    &&& final(self).work() == (SegmentWork {
                        residue_segments: final(self).work().residue_segments,
                        closure_indexed_bytes: Some(indexed_bytes),
                        effective_compaction_kind: gate.0,
                        already_fully_compacted: gate.1,
                        ..old(self).work()
                    })
                    &&& final(self).stage() == after_gate(
                        old(self).inputs(),
                        gate.0,
                        final(self).work().residue_segments,
                    )
                },
                Err(error) => *final(self) == *old(self) && exists|position: int| #[trigger]
                    generations::is_first_closure_fault(
                        trace.visited(),
                        headers@,
                        *active_index_generations,
                        position,
                    ) && error.refuses(
                        generations::closure_fault_at(
                            trace.visited(),
                            headers@,
                            *active_index_generations,
                            position,
                        )->0,
                    ),
            },
    {
        let ghost references = trace.references();
        let segments = trace.finish();
        let closure = match trace_head_closure(
            segments,
            headers,
            active_index_generations,
            self.work.reference_generation,
            indexed_bytes,
        ) {
            Ok(closure) => closure,
            Err(error) => {
                return Err(error);
            },
        };
        proof {
            reach::lemma_root_is_reached(
                references,
                trace.roots(),
                trace.settled(),
                self.inputs.current_head.segment,
            );
            assert(closure.segments.has(self.inputs.current_head.segment));
        }
        self.take_head_closure(closure);
        Ok(())
    }

    fn take_head_closure(&mut self, closure: HeadClosure)
        requires
            old(self).well_formed(),
            old(self).stage() == SegmentStage::HeadTrace,
            closure.segments.well_formed(),
            closure.segments.has(old(self).inputs().current_head.segment),
        ensures
            final(self).well_formed(),
            final(self).inputs() == old(self).inputs(),
            final(self).closure() == closure.segments,
            final(self).uniformly_compacted() == closure.uniformly_compacted_at_reference,
            ({
                let gate = gate_of(old(self).inputs(), closure.uniformly_compacted_at_reference);
                &&& final(self).stage() == after_gate(
                    old(self).inputs(),
                    gate.0,
                    closure.residue_segments,
                )
                &&& final(self).work() == (SegmentWork {
                    residue_segments: closure.residue_segments,
                    closure_indexed_bytes: closure.indexed_bytes,
                    effective_compaction_kind: gate.0,
                    already_fully_compacted: gate.1,
                    ..old(self).work()
                })
            }),
    {
        let uniform = closure.uniformly_compacted_at_reference;
        self.work.residue_segments = closure.residue_segments;
        self.work.closure_indexed_bytes = closure.indexed_bytes;
        self.closure = closure.segments;
        self.pass_gate(uniform);
    }

    fn pass_gate(&mut self, uniformly_compacted: bool)
        ensures
            final(self).inputs == old(self).inputs,
            final(self).closure == old(self).closure,
            final(self).uniform@ == uniformly_compacted,
            ({
                let gate = gate_of(old(self).inputs, uniformly_compacted);
                &&& final(self).stage == after_gate(
                    old(self).inputs,
                    gate.0,
                    old(self).work.residue_segments,
                )
                &&& final(self).work == (SegmentWork {
                    effective_compaction_kind: gate.0,
                    already_fully_compacted: gate.1,
                    ..old(self).work
                })
            }),
    {
        let (kind, converged) = convergence_gate(
            self.inputs.options,
            uniformly_compacted,
            self.inputs.checkpoints,
            self.inputs.journal_convergence,
            self.inputs.purge_selected,
        );
        self.uniform = Ghost(uniformly_compacted);
        self.work.effective_compaction_kind = kind;
        self.work.already_fully_compacted = converged;
        if self.inputs.index_available && self.work.residue_segments != 0 {
            self.stage = SegmentStage::ResidueSweep;
        } else {
            self.settle_residue();
        }
    }

    fn settle_residue(&mut self)
        ensures
            final(self).inputs == old(self).inputs,
            final(self).closure == old(self).closure,
            final(self).uniform == old(self).uniform,
            final(self).work == old(self).work,
            final(self).stage == after_residue(
                old(self).inputs,
                old(self).work.effective_compaction_kind,
            ),
    {
        if self.work.effective_compaction_kind.is_some() && self.inputs.index_available {
            self.stage = SegmentStage::PredictedSweep;
        } else {
            self.settle_prediction();
        }
    }

    fn settle_prediction(&mut self)
        ensures
            final(self).inputs == old(self).inputs,
            final(self).closure == old(self).closure,
            final(self).uniform == old(self).uniform,
            final(self).work == old(self).work,
            final(self).stage == after_prediction(
                old(self).inputs,
                old(self).work.effective_compaction_kind,
            ),
    {
        self.stage = if standalone_sweep_planned(
            self.inputs.index_available,
            self.inputs.options,
            self.work.effective_compaction_kind,
        ) {
            SegmentStage::HistoryTrace
        } else {
            SegmentStage::Finished
        };
    }

    /// Takes the sweep that retires residue.
    pub fn supply_residue_sweep(&mut self, plan: SegmentCompactionPlan)
        requires
            old(self).well_formed(),
            old(self).stage() == SegmentStage::ResidueSweep,
        ensures
            final(self).well_formed(),
            final(self).inputs() == old(self).inputs(),
            final(self).closure() == old(self).closure(),
            final(self).uniformly_compacted() == old(self).uniformly_compacted(),
            final(self).stage() == after_residue(
                old(self).inputs(),
                old(self).work().effective_compaction_kind,
            ),
            final(self).work() == (SegmentWork { residue_sweep: Some(plan), ..old(self).work() }),
    {
        self.work.residue_sweep = Some(plan);
        self.settle_residue();
    }

    /// Takes the sweep that follows the copy.
    pub fn supply_predicted_sweep(&mut self, plan: SegmentCompactionPlan)
        requires
            old(self).well_formed(),
            old(self).stage() == SegmentStage::PredictedSweep,
        ensures
            final(self).well_formed(),
            final(self).inputs() == old(self).inputs(),
            final(self).closure() == old(self).closure(),
            final(self).uniformly_compacted() == old(self).uniformly_compacted(),
            final(self).stage() == after_prediction(
                old(self).inputs(),
                old(self).work().effective_compaction_kind,
            ),
            final(self).work() == (SegmentWork {
                predicted_sweep: Some(plan),
                ..old(self).work()
            }),
    {
        self.work.predicted_sweep = Some(plan);
        self.settle_prediction();
    }

    /// Starts tracing the retained journal history on top of the head's closure.
    pub fn history_trace(&self) -> (trace: SegmentTrace)
        requires
            self.well_formed(),
        ensures
            trace.well_formed(),
            trace.settled() == self.closure().listed().to_set(),
            trace.roots() == root_segments(self.inputs().retained_roots@),
            trace.references() == Map::<SegmentIdentifier, Seq<SegmentIdentifier>>::empty(),
            trace.awaits() is None,
    {
        let mut seen = SegmentSet::new();
        seen.add_all(&self.closure);
        let roots = self.inputs.retained_roots;
        let mut segments: Vec<SegmentIdentifier> = Vec::new();
        let mut index: usize = 0;
        while index < roots.len()
            invariant
                index <= roots@.len(),
                segments@ == segments_of(roots@).take(index as int),
            decreases roots@.len() - index,
        {
            segments.push(roots[index].segment);
            index = index + 1;
            assert(segments@ =~= segments_of(roots@).take(index as int));
        }
        assert(segments@ =~= segments_of(roots@));
        assert(Seq::<SegmentIdentifier>::empty().to_set().union(self.closure.listed().to_set())
            =~= self.closure.listed().to_set());
        extend_segment_closure(seen, &segments)
    }

    /// Takes the finished trace of the retained journal history on top of the
    /// head's closure: the data segments of both survive the sweep.
    pub fn supply_history_closure(&mut self, trace: SegmentTrace)
        requires
            old(self).well_formed(),
            old(self).stage() == SegmentStage::HistoryTrace,
            trace.well_formed(),
            trace.is_exhausted(),
            trace.settled() == old(self).closure().listed().to_set(),
            trace.roots() == root_segments(old(self).inputs().retained_roots@),
        ensures
            final(self).well_formed(),
            final(self).inputs() == old(self).inputs(),
            final(self).closure() == old(self).closure(),
            final(self).uniformly_compacted() == old(self).uniformly_compacted(),
            final(self).stage() == SegmentStage::Sweep,
            forall|segment: SegmentIdentifier| #[trigger]
                trace.visited().contains(segment) <==> old(self).closure().has(segment)
                    || reach::reached(
                    trace.references(),
                    root_segments(old(self).inputs().retained_roots@),
                    old(self).closure().listed().to_set(),
                    segment,
                ),
            final(self).work().protected_history_segments.listed() == segments::data_among(
                trace.visited(),
            ),
            final(self).work().history_protection.history_only_segments == segments::outside_count(
                trace.visited(),
                old(self).closure().listed(),
            ),
            final(self).work() == (SegmentWork {
                protected_history_segments: final(self).work().protected_history_segments,
                history_protection: HistoryProtection {
                    history_only_segments: final(self).work().history_protection.history_only_segments,
                    ..old(self).work().history_protection
                },
                ..old(self).work()
            }),
    {
        let retained = trace.finish();
        proof {
            assert forall|segment: SegmentIdentifier| #[trigger] trace.visited().contains(
                segment,
            ) <==> self.closure.has(segment) || reach::reached(
                trace.references(),
                root_segments(self.inputs.retained_roots@),
                self.closure.listed().to_set(),
                segment,
            ) by {
                assert(retained.has(segment) <==> trace.visited().contains(segment));
                assert(trace.settled().contains(segment) == self.closure.has(segment));
            }
        }
        let (protected, outside) = protect_history(&self.closure, &retained);
        self.work.protected_history_segments = protected;
        self.work.history_protection.history_only_segments = outside;
        self.stage = SegmentStage::Sweep;
    }

    /// Takes the sweep without a copy. Its protection is priced only when it
    /// protects something that the head does not reach already.
    pub fn supply_sweep(&mut self, plan: SegmentCompactionPlan)
        requires
            old(self).well_formed(),
            old(self).stage() == SegmentStage::Sweep,
        ensures
            final(self).well_formed(),
            final(self).inputs() == old(self).inputs(),
            final(self).closure() == old(self).closure(),
            final(self).uniformly_compacted() == old(self).uniformly_compacted(),
            final(self).stage() == if old(self).work().history_protection.history_only_segments
                != 0 {
                SegmentStage::Pricing
            } else {
                SegmentStage::Validation
            },
            final(self).work() == (SegmentWork { segment_plan: Some(plan), ..old(self).work() }),
    {
        self.work.segment_plan = Some(plan);
        self.stage = if self.work.history_protection.history_only_segments != 0 {
            SegmentStage::Pricing
        } else {
            SegmentStage::Validation
        };
    }

    /// Takes what the sweep frees, with and without the history's protection.
    pub fn supply_prices(&mut self, unvetoed: (usize, u64), vetoed: (usize, u64))
        requires
            old(self).well_formed(),
            old(self).stage() == SegmentStage::Pricing,
        ensures
            final(self).well_formed(),
            final(self).inputs() == old(self).inputs(),
            final(self).closure() == old(self).closure(),
            final(self).uniformly_compacted() == old(self).uniformly_compacted(),
            final(self).stage() == SegmentStage::Validation,
            ({
                let protection = final(self).work().history_protection;
                &&& protection.history_only_segments == old(
                    self,
                ).work().history_protection.history_only_segments
                &&& protection.would_be_reclaimable_segments == segments::less(
                    unvetoed.0 as int,
                    vetoed.0 as int,
                )
                &&& protection.would_be_reclaimable_bytes == segments::less(
                    unvetoed.1 as int,
                    vetoed.1 as int,
                )
                &&& final(self).work() == (SegmentWork {
                    history_protection: protection,
                    ..old(self).work()
                })
            }),
    {
        self.work.history_protection = price_history_protection(
            self.work.history_protection.history_only_segments,
            unvetoed,
            vetoed,
        );
        self.stage = SegmentStage::Validation;
    }

    /// Proves that the planned sweep keeps every retained root readable and
    /// leaves no live segment dangling, from what it takes away, and goes on.
    pub fn supply_validation(
        &mut self,
        unavailable: &SegmentSet,
        reclaimable: &SegmentSet,
        first_unreadable_root: &Option<UnreadableRoot>,
        segments: &Vec<SegmentReferences>,
    ) -> (validated: Result<(), Error>)
        requires
            old(self).well_formed(),
            old(self).stage() == SegmentStage::Validation,
            unavailable.well_formed(),
            reclaimable.well_formed(),
        ensures
            final(self).well_formed(),
            match validated {
                Ok(_) => {
                    &&& generations::is_safe_sweep(
                        unavailable.listed().to_set(),
                        reclaimable.listed().to_set(),
                        *first_unreadable_root,
                        segments@,
                    )
                    &&& final(self).inputs() == old(self).inputs()
                    &&& final(self).closure() == old(self).closure()
                    &&& final(self).uniformly_compacted() == old(self).uniformly_compacted()
                    &&& final(self).stage() == SegmentStage::Finished
                    &&& final(self).work() == old(self).work()
                },
                Err(error) => {
                    &&& *final(self) == *old(self)
                    &&& unavailable.listed().len() > 0
                    &&& generations::is_sweep_refusal(
                        error,
                        unavailable.listed().to_set(),
                        reclaimable.listed().to_set(),
                        *first_unreadable_root,
                        segments@,
                    )
                },
            },
    {
        match validate_prospective_segment_plan(
            unavailable,
            reclaimable,
            first_unreadable_root,
            segments,
        ) {
            Ok(_) => {
                self.stage = SegmentStage::Finished;
                Ok(())
            },
            Err(error) => Err(error),
        }
    }

    /// The decided work: of every kind of sweep there is a plan exactly where
    /// one is called for.
    pub fn finish(self) -> (work: SegmentWork)
        requires
            self.well_formed(),
            self.stage() == SegmentStage::Finished,
        ensures
            work == self.work(),
            work.residue_sweep is Some <==> self.inputs().index_available && work.residue_segments
                != 0,
            work.predicted_sweep is Some <==> self.inputs().index_available
                && work.effective_compaction_kind is Some,
            work.segment_plan is Some <==> segments::sweeps_standalone(
                self.inputs().index_available,
                self.inputs().options@,
                work.effective_compaction_kind,
            ),
    {
        self.work
    }
}

/// The head reaches nothing that the run's own rule discards. Of a finished
/// trace from the head's own segment whose closure has no fault, every data
/// segment that a path leads to is one that the rule keeps, and the index states
/// the generation of its header.
pub proof fn law_nothing_that_the_head_reaches_is_discarded(
    trace: SegmentTrace,
    head: RecordIdentifier,
    headers: Seq<Option<HeaderFacts>>,
    index: GenerationIndex,
    segment: SegmentIdentifier,
)
    requires
        trace.well_formed(),
        trace.is_exhausted(),
        trace.settled() == Set::<SegmentIdentifier>::empty(),
        trace.roots() == set![head.segment],
        generations::headers_cover(trace.visited(), headers),
        forall|i: int|
            0 <= i < trace.visited().len() ==> #[trigger] generations::closure_fault_at(
                trace.visited(),
                headers,
                index,
                i,
            ) is None,
        reach::reached(trace.references(), set![head.segment], Set::empty(), segment),
        segment.names_data(),
    ensures
        exists|i: int|
            0 <= i < trace.visited().len() && #[trigger] trace.visited()[i] == segment
                && headers[i] is Some && !headers[i]->0.reclaimable && index.generation(segment)
                == Some(headers[i]->0.generation),
{
    trace::law_a_finished_trace_visited_what_it_reaches(trace);
    assert(trace.visited().contains(segment));
    generations::law_validated_head_reaches_nothing_reclaimable(
        trace.visited(),
        headers,
        index,
        segment,
    );
}

/// A run that copies the head plans no sweep against the generation that the
/// copy supersedes, and a run without a copy predicts no copy's sweep.
pub proof fn law_copy_and_standalone_sweep_exclude_each_other(planner: SegmentPlanner<'_>)
    requires
        planner.well_formed(),
    ensures
        planner.work().segment_plan is Some ==> planner.work().effective_compaction_kind is None
            && planner.work().predicted_sweep is None,
        planner.work().predicted_sweep is Some ==> planner.work().segment_plan is None,
{
}

/// Without index metadata no sweep of any kind is planned.
pub proof fn law_missing_index_metadata_plans_no_sweep(planner: SegmentPlanner<'_>)
    requires
        planner.well_formed(),
        !planner.inputs().index_available,
    ensures
        planner.work().segment_plan is None,
        planner.work().residue_sweep is None,
        planner.work().predicted_sweep is None,
        planner.work().stale_archives@.len() == 0,
        planner.work().closure_indexed_bytes is None,
{
}

} // verus!
