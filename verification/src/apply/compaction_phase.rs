//! The copy that a run performs: the order of its steps, what each must find,
//! and what it leaves behind.
use vstd::prelude::*;
use vstd::slice::*;
use vstd::string::*;
use crate::apply::session::SweepCounts;
use crate::error::{refusal, Error};
use crate::identifier::{
    CompactionKind, GarbageCollectionGeneration, ReclaimRule, RecordIdentifier, SegmentIdentifier,
};
use crate::journal::rewrite::bytes_equal;
use crate::reclamation;
use crate::reclamation::compaction_target_generation;
use crate::text;
use crate::text::push_decimal;

verus! {

/// What the copy of a run did.
#[derive(Debug)]
pub struct CompactionPhaseOutcome {
    /// The head that the copy published.
    pub head_after: RecordIdentifier,
    /// The generation that the copy wrote into.
    pub target_generation: GarbageCollectionGeneration,
    /// Distinct node records that the copy rewrote.
    pub copied_nodes: u64,
    /// What the reclaim pass that follows the copy did.
    pub sweep: SweepCounts,
    /// The exact line that this cycle appended to its log.
    pub garbage_collection_entry: String,
}

/// One step of the copy.
#[derive(Clone, Copy, Debug, PartialEq, Eq, Structural)]
pub enum CopyStep {
    /// Open the store for writing, with the certified output archive.
    Open,
    /// Refuse a damaged source before the copy appends anything.
    PreflightSources,
    /// Copy the head into a fresh generation, additively.
    Copy,
    /// Publish the copied head, if the head has not moved.
    PublishHead,
    /// Make the published head durable.
    Flush,
    /// Reclaim what the copy supersedes.
    Reclaim,
    /// Close the store.
    Close,
    /// Make the directory durable.
    SyncArchives,
    /// Record the completed cycle in its log.
    RecordCycle,
    /// Make the log durable.
    SyncLog,
}

/// The steps of a copy, in order.
pub open spec fn copy_steps() -> Seq<CopyStep> {
    seq![
        CopyStep::Open,
        CopyStep::PreflightSources,
        CopyStep::Copy,
        CopyStep::PublishHead,
        CopyStep::Flush,
        CopyStep::Reclaim,
        CopyStep::Close,
        CopyStep::SyncArchives,
        CopyStep::RecordCycle,
        CopyStep::SyncLog,
    ]
}

/// What a copy knows and has done.
#[verifier::ext_equal]
pub struct CopyState {
    /// How many steps were taken.
    pub taken: nat,
    /// The head that is copied.
    pub head: RecordIdentifier,
    /// How much is copied.
    pub kind: CompactionKind,
    /// How many generations the reclaim pass keeps.
    pub retained_generations: i32,
    /// The number of the certified output archive.
    pub archive_number: u32,
    /// The generation that is written.
    pub target: GarbageCollectionGeneration,
    /// The copied head.
    pub new_head: RecordIdentifier,
    /// How many nodes were copied.
    pub copied_nodes: u64,
    /// What was reclaimed.
    pub sweep: SweepCounts,
    /// Bytes of archives before the copy.
    pub bytes_before: u64,
    /// Bytes of archives after the reclaim pass.
    pub bytes_after: u64,
    /// The line that records the cycle.
    pub entry: Seq<char>,
}

impl CopyState {
    /// Whether a step is the next.
    pub open spec fn awaits(self, step: CopyStep) -> bool {
        self.taken < copy_steps().len() && copy_steps()[self.taken as int] == step
    }

    /// One step further.
    pub open spec fn further(self) -> Self {
        CopyState { taken: self.taken + 1, ..self }
    }
}

/// What the record of a completed cycle states.
#[derive(Clone, Copy, Debug, PartialEq, Eq, Structural)]
pub struct CycleRecord {
    /// Bytes of archives that are left.
    pub archive_bytes: u64,
    /// Bytes that the cycle freed.
    pub reclaimed_bytes: u64,
    /// The generation that was written.
    pub generation: GarbageCollectionGeneration,
    /// How many nodes were copied.
    pub nodes: u64,
    /// The copied head.
    pub head: RecordIdentifier,
}

/// A copy in the making.
#[derive(Debug)]
pub struct CopyPhase {
    position: usize,
    head: RecordIdentifier,
    kind: CompactionKind,
    retained_generations: i32,
    archive_number: u32,
    target: GarbageCollectionGeneration,
    new_head: RecordIdentifier,
    copied_nodes: u64,
    sweep: SweepCounts,
    bytes_before: u64,
    bytes_after: u64,
    entry: String,
}

impl View for CopyPhase {
    type V = CopyState;

    closed spec fn view(&self) -> CopyState {
        CopyState {
            taken: self.position as nat,
            head: self.head,
            kind: self.kind,
            retained_generations: self.retained_generations,
            archive_number: self.archive_number,
            target: self.target,
            new_head: self.new_head,
            copied_nodes: self.copied_nodes,
            sweep: self.sweep,
            bytes_before: self.bytes_before,
            bytes_after: self.bytes_after,
            entry: self.entry@,
        }
    }
}

impl CopyPhase {
    /// Begins a copy of the planned head, into the certified output archive.
    pub fn apply_compaction_phase(
        head: RecordIdentifier,
        archive_number: Option<u32>,
        kind: CompactionKind,
        retained_generations: i32,
    ) -> (begun: Result<Self, Error>)
        ensures
            match begun {
                Ok(phase) => archive_number == Some(phase@.archive_number) && phase@.taken == 0
                    && phase@.head == head && phase@.kind == kind && phase@.retained_generations
                    == retained_generations,
                Err(error) => archive_number is None && error.refuses(
                    "the compaction phase has no certified output archive number"@,
                ),
            },
    {
        let certified = require_archive_number(HeadMutation::Copy, archive_number)?;
        Ok(
            CopyPhase {
                position: 0,
                head,
                kind,
                retained_generations,
                archive_number: certified,
                target: GarbageCollectionGeneration {
                    generation: 0,
                    full_generation: 0,
                    is_compacted: false,
                },
                new_head: head,
                copied_nodes: 0,
                sweep: SweepCounts {
                    rewritten_archives: 0,
                    removed_archives: 0,
                    removed_segments: 0,
                },
                bytes_before: 0,
                bytes_after: 0,
                entry: String::new(),
            },
        )
    }

    /// The next step, or none when the cycle is complete.
    pub fn next(&self) -> (step: Option<CopyStep>)
        ensures
            step == if self@.taken < copy_steps().len() {
                Some(copy_steps()[self@.taken as int])
            } else {
                None
            },
    {
        match self.position {
            0 => Some(CopyStep::Open),
            1 => Some(CopyStep::PreflightSources),
            2 => Some(CopyStep::Copy),
            3 => Some(CopyStep::PublishHead),
            4 => Some(CopyStep::Flush),
            5 => Some(CopyStep::Reclaim),
            6 => Some(CopyStep::Close),
            7 => Some(CopyStep::SyncArchives),
            8 => Some(CopyStep::RecordCycle),
            9 => Some(CopyStep::SyncLog),
            _ => None,
        }
    }

    /// The number of the certified output archive.
    pub fn archive_number(&self) -> (number: u32)
        ensures
            number == self@.archive_number,
    {
        self.archive_number
    }

    /// The generation that is written.
    pub fn target_generation(&self) -> (target: GarbageCollectionGeneration)
        ensures
            target == self@.target,
    {
        self.target
    }

    /// Goes on with the opened store: its head must be the planned one, and its
    /// generation decides which one is written.
    pub fn opened(
        &mut self,
        selected: RecordIdentifier,
        generation: Option<GarbageCollectionGeneration>,
    ) -> (checked: Result<(), Error>)
        requires
            old(self)@.awaits(CopyStep::Open),
        ensures
            match checked {
                Ok(_) => {
                    &&& selected == old(self)@.head
                    &&& generation matches Some(base)
                    &&& final(self)@ == (CopyState {
                        target: reclamation::target_generation(base, old(self)@.kind),
                        ..old(self)@.further()
                    })
                },
                Err(error) => final(self)@ == old(self)@ && if selected != old(self)@.head {
                    error.refuses(other_head_text(HeadMutation::Copy, old(self)@.head, selected))
                } else {
                    generation is None && error.refuses(
                        no_generation_text(old(self)@.head.segment),
                    )
                },
            },
    {
        match require_planned_head(HeadMutation::Copy, self.head, selected) {
            Ok(_) => {},
            Err(error) => {
                return Err(error);
            },
        }
        match require_head_generation(self.head.segment, generation) {
            Ok(base) => {
                self.target = compaction_target_generation(base, self.kind);
            },
            Err(error) => {
                return Err(error);
            },
        }
        self.position = self.position + 1;
        Ok(())
    }

    /// Goes on once every source was found sound.
    pub fn preflighted(&mut self)
        requires
            old(self)@.awaits(CopyStep::PreflightSources),
        ensures
            final(self)@ == old(self)@.further(),
    {
        self.position = self.position + 1;
    }

    /// Goes on with what was copied, and with what the archives measured before.
    pub fn copied(&mut self, bytes_before: u64, new_head: RecordIdentifier, copied_nodes: u64)
        requires
            old(self)@.awaits(CopyStep::Copy),
        ensures
            final(self)@ == (CopyState {
                bytes_before,
                new_head,
                copied_nodes,
                ..old(self)@.further()
            }),
    {
        self.bytes_before = bytes_before;
        self.new_head = new_head;
        self.copied_nodes = copied_nodes;
        self.position = self.position + 1;
    }

    /// Goes on once the copied head took the place of the planned one. Where
    /// another head had moved in, nothing was superseded and nothing is
    /// reclaimed.
    pub fn published(&mut self, published: bool) -> (checked: Result<(), Error>)
        requires
            old(self)@.awaits(CopyStep::PublishHead),
        ensures
            match checked {
                Ok(_) => published && final(self)@ == old(self)@.further(),
                Err(error) => !published && final(self)@ == old(self)@ && error.refuses(
                    "the head moved during the compaction phase"@,
                ),
            },
    {
        match require_published_head(published) {
            Ok(_) => {
                self.position = self.position + 1;
                Ok(())
            },
            Err(error) => Err(error),
        }
    }

    /// Goes on once the published head is durable.
    pub fn flushed(&mut self)
        requires
            old(self)@.awaits(CopyStep::Flush),
        ensures
            final(self)@ == old(self)@.further(),
    {
        self.position = self.position + 1;
    }

    /// The rule of the reclaim pass: it keeps the generation that was written.
    pub fn sweep_rule(&self) -> (rule: ReclaimRule)
        ensures
            rule == (ReclaimRule {
                reference: self@.target,
                kind: self@.kind,
                retained_generations: self@.retained_generations,
            }),
    {
        ReclaimRule {
            reference: self.target,
            kind: self.kind,
            retained_generations: self.retained_generations,
        }
    }

    /// Goes on with what was reclaimed.
    pub fn reclaimed(&mut self, sweep: SweepCounts)
        requires
            old(self)@.awaits(CopyStep::Reclaim),
        ensures
            final(self)@ == (CopyState { sweep, ..old(self)@.further() }),
    {
        self.sweep = sweep;
        self.position = self.position + 1;
    }

    /// Goes on once the store is closed.
    pub fn store_closed(&mut self)
        requires
            old(self)@.awaits(CopyStep::Close),
        ensures
            final(self)@ == old(self)@.further(),
    {
        self.position = self.position + 1;
    }

    /// Goes on once the directory is durable, with what the archives measure
    /// now.
    pub fn archives_synced(&mut self, bytes_after: u64)
        requires
            old(self)@.awaits(CopyStep::SyncArchives),
        ensures
            final(self)@ == (CopyState { bytes_after, ..old(self)@.further() }),
    {
        self.bytes_after = bytes_after;
        self.position = self.position + 1;
    }

    /// What the record of the cycle states.
    pub fn cycle_record(&self) -> (record: CycleRecord)
        ensures
            record == (CycleRecord {
                archive_bytes: self@.bytes_after,
                reclaimed_bytes: freed(self@.bytes_before, self@.bytes_after),
                generation: self@.target,
                nodes: self@.copied_nodes,
                head: self@.new_head,
            }),
    {
        CycleRecord {
            archive_bytes: self.bytes_after,
            reclaimed_bytes: reclaimed_bytes(self.bytes_before, self.bytes_after),
            generation: self.target,
            nodes: self.copied_nodes,
            head: self.new_head,
        }
    }

    /// Goes on once the cycle was recorded, with the exact line: it carries a
    /// time, and the final proof is about these bytes.
    pub fn recorded(&mut self, entry: String)
        requires
            old(self)@.awaits(CopyStep::RecordCycle),
        ensures
            final(self)@ == (CopyState { entry: entry@, ..old(self)@.further() }),
    {
        self.entry = entry;
        self.position = self.position + 1;
    }

    /// Goes on once the record is durable.
    pub fn log_synced(&mut self)
        requires
            old(self)@.awaits(CopyStep::SyncLog),
        ensures
            final(self)@ == old(self)@.further(),
    {
        self.position = self.position + 1;
    }

    /// What the completed copy did.
    pub fn finish(self) -> (outcome: CompactionPhaseOutcome)
        requires
            self@.taken == copy_steps().len(),
        ensures
            outcome.head_after == self@.new_head,
            outcome.target_generation == self@.target,
            outcome.copied_nodes == self@.copied_nodes,
            outcome.sweep == self@.sweep,
            outcome.garbage_collection_entry@ == self@.entry,
    {
        CompactionPhaseOutcome {
            head_after: self.new_head,
            target_generation: self.target,
            copied_nodes: self.copied_nodes,
            sweep: self.sweep,
            garbage_collection_entry: self.entry,
        }
    }
}

/// Nothing is reclaimed before the copied head is published and durable, no
/// source is copied before it is certified, and a cycle is recorded only once
/// its archives are durable.
pub proof fn law_reclamation_follows_the_published_head(
    certified: int,
    copied: int,
    published: int,
    flushed: int,
    reclaimed: int,
    synced: int,
    recorded: int,
)
    requires
        0 <= certified < copy_steps().len() && copy_steps()[certified]
            == CopyStep::PreflightSources,
        0 <= copied < copy_steps().len() && copy_steps()[copied] == CopyStep::Copy,
        0 <= published < copy_steps().len() && copy_steps()[published] == CopyStep::PublishHead,
        0 <= flushed < copy_steps().len() && copy_steps()[flushed] == CopyStep::Flush,
        0 <= reclaimed < copy_steps().len() && copy_steps()[reclaimed] == CopyStep::Reclaim,
        0 <= synced < copy_steps().len() && copy_steps()[synced] == CopyStep::SyncArchives,
        0 <= recorded < copy_steps().len() && copy_steps()[recorded] == CopyStep::RecordCycle,
    ensures
        certified < copied < published < flushed < reclaimed < synced < recorded,
{
}

/// Which mutation of the head a check belongs to.
#[derive(Clone, Copy, Debug, PartialEq, Eq, Structural)]
pub enum HeadMutation {
    /// The copy into a fresh generation.
    Copy,
    /// The removal of checkpoints.
    CheckpointRemoval,
}

/// Refuses to move the head without a certified output archive number.
pub fn require_archive_number(mutation: HeadMutation, number: Option<u32>) -> (required: Result<
    u32,
    Error,
>)
    ensures
        match required {
            Ok(certified) => number == Some(certified),
            Err(error) => number is None && error.refuses(
                match mutation {
                    HeadMutation::Copy =>
                        "the compaction phase has no certified output archive number"@,
                    HeadMutation::CheckpointRemoval =>
                        "checkpoint cleanup has no certified output archive number"@,
                },
            ),
        },
{
    match number {
        Some(certified) => Ok(certified),
        None => Err(
            match mutation {
                HeadMutation::Copy => refusal(
                    "the compaction phase has no certified output archive number",
                ),
                HeadMutation::CheckpointRemoval => refusal(
                    "checkpoint cleanup has no certified output archive number",
                ),
            },
        ),
    }
}

/// What an operator reads when the store opened at another head.
pub open spec fn other_head_text(
    mutation: HeadMutation,
    planned: RecordIdentifier,
    selected: RecordIdentifier,
) -> Seq<char> {
    (match mutation {
        HeadMutation::Copy => "the compaction phase expected head "@,
        HeadMutation::CheckpointRemoval => "cleanup expected checkpoint base head "@,
    }) + planned.text() + ", but strict writable open selected "@ + selected.text()
}

/// Refuses to move another head than the planned one.
pub fn require_planned_head(
    mutation: HeadMutation,
    planned: RecordIdentifier,
    selected: RecordIdentifier,
) -> (checked: Result<(), Error>)
    ensures
        match checked {
            Ok(_) => planned == selected,
            Err(error) => planned != selected && error.refuses(
                other_head_text(mutation, planned, selected),
            ),
        },
{
    if planned == selected {
        return Ok(());
    }
    let mut details = String::new();
    match mutation {
        HeadMutation::Copy => {
            details.append("the compaction phase expected head ");
        },
        HeadMutation::CheckpointRemoval => {
            details.append("cleanup expected checkpoint base head ");
        },
    }
    planned.push_text(&mut details);
    details.append(", but strict writable open selected ");
    selected.push_text(&mut details);
    assert(details@ =~= other_head_text(mutation, planned, selected));
    Err(Error::InvalidFormat { details })
}

/// What an operator reads when a segment states no generation.
pub open spec fn no_generation_text(segment: SegmentIdentifier) -> Seq<char> {
    "the head segment "@ + segment.text() + " carries no generation triple"@
}

/// Refuses to copy a head whose segment states no generation.
pub fn require_head_generation(
    segment: SegmentIdentifier,
    generation: Option<GarbageCollectionGeneration>,
) -> (checked: Result<GarbageCollectionGeneration, Error>)
    ensures
        match checked {
            Ok(base) => generation == Some(base),
            Err(error) => generation is None && error.refuses(no_generation_text(segment)),
        },
{
    match generation {
        Some(base) => Ok(base),
        None => {
            let mut details = String::from_str("the head segment ");
            segment.push_text(&mut details);
            details.append(" carries no generation triple");
            assert(details@ =~= no_generation_text(segment));
            Err(Error::InvalidFormat { details })
        },
    }
}

/// Refuses a copy whose head could not be published because another moved in.
pub fn require_published_head(published: bool) -> (checked: Result<(), Error>)
    ensures
        match checked {
            Ok(_) => published,
            Err(error) => !published && error.refuses(
                "the head moved during the compaction phase"@,
            ),
        },
{
    if published {
        Ok(())
    } else {
        Err(refusal("the head moved during the compaction phase"))
    }
}

/// What an operator reads when another number of checkpoints was there.
pub open spec fn other_count_text(planned: nat, removed: u64) -> Seq<char> {
    "cleanup planned to remove "@ + text::decimal(planned)
        + " checkpoints, but the locked head contained "@ + text::decimal(removed as nat)
}

/// Refuses a removal that found another number of checkpoints.
pub fn require_removed_checkpoints(planned: usize, removed: u64) -> (checked: Result<(), Error>)
    ensures
        match checked {
            Ok(_) => removed == planned,
            Err(error) => removed != planned && error.refuses(
                other_count_text(planned as nat, removed),
            ),
        },
{
    if removed == planned as u64 {
        return Ok(());
    }
    let mut details = String::from_str("cleanup planned to remove ");
    push_decimal(&mut details, planned as u64);
    details.append(" checkpoints, but the locked head contained ");
    push_decimal(&mut details, removed);
    assert(details@ =~= other_count_text(planned as nat, removed));
    Err(Error::InvalidFormat { details })
}

/// The bytes that a cycle freed.
pub open spec fn freed(before: u64, after: u64) -> u64 {
    if before >= after {
        (before - after) as u64
    } else {
        0
    }
}

/// The bytes that a cycle freed.
pub fn reclaimed_bytes(before: u64, after: u64) -> (bytes: u64)
    ensures
        bytes == freed(before, after),
{
    before.saturating_sub(after)
}

/// The bytes of an optional file; none are those of a file that is not there.
pub open spec fn contents(file: Option<Vec<u8>>) -> Seq<u8> {
    match file {
        Some(bytes) => bytes@,
        None => Seq::empty(),
    }
}

/// The log of cycles is as a run must leave it: untouched without a copy, and
/// grown by exactly the cycle's line with one.
pub open spec fn cycle_log_holds(
    before: Option<Vec<u8>>,
    after: Option<Vec<u8>>,
    entry: Option<Seq<u8>>,
) -> bool {
    match entry {
        None => (before is Some) == (after is Some) && contents(before) == contents(after),
        Some(line) => contents(after) == contents(before) + line,
    }
}

/// The bytes that a cycle adds to its log.
pub open spec fn entry_of(compaction: Option<CompactionPhaseOutcome>) -> Option<Seq<u8>> {
    match compaction {
        Some(phase) => Some(vstd::utf8::encode_utf8(phase.garbage_collection_entry@)),
        None => None,
    }
}

/// What an operator reads when the log of cycles is not as it must be.
pub open spec fn cycle_log_text(copied: bool) -> Seq<char> {
    if copied {
        "the completed compaction did not append exactly its own gc.log entry"@
    } else {
        "a run that did not compact changed gc.log, which is reserved for completed compaction cycles"@
    }
}

fn bytes_of(file: &Option<Vec<u8>>) -> (bytes: Option<&[u8]>)
    ensures
        match bytes {
            Some(slice) => *file is Some && slice@ == contents(*file),
            None => *file is None,
        },
{
    match file {
        Some(bytes) => Some(bytes.as_slice()),
        None => None,
    }
}

fn is_extended(before: Option<&[u8]>, after: Option<&[u8]>, line: &[u8]) -> (extended: bool)
    ensures
        extended == ({
            let first = match before {
                Some(bytes) => bytes@,
                None => Seq::empty(),
            };
            let second = match after {
                Some(bytes) => bytes@,
                None => Seq::empty(),
            };
            second == first + line@
        }),
{
    let ghost first = match before {
        Some(bytes) => bytes@,
        None => Seq::empty(),
    };
    let ghost second = match after {
        Some(bytes) => bytes@,
        None => Seq::empty(),
    };
    let before_length: usize = match before {
        Some(bytes) => bytes.len(),
        None => 0,
    };
    let after_length: usize = match after {
        Some(bytes) => bytes.len(),
        None => 0,
    };
    if after_length < before_length || after_length - before_length != line.len() {
        assert(second.len() != first.len() + line@.len());
        return false;
    }
    if let Some(bytes) = after {
        let head = slice_subrange(bytes, 0, before_length);
        let tail = slice_subrange(bytes, before_length, after_length);
        assert(second =~= head@ + tail@);
        let head_kept = match before {
            Some(earlier) => bytes_equal(head, earlier),
            None => true,
        };
        assert(head_kept == (head@ == first)) by {
            if before is None {
                assert(head@ =~= first);
            }
        }
        let tail_added = bytes_equal(tail, line);
        proof {
            if second == first + line@ {
                assert(head@ =~= second.take(before_length as int));
                assert((first + line@).take(first.len() as int) =~= first);
                assert(tail@ =~= second.skip(before_length as int));
                assert((first + line@).skip(first.len() as int) =~= line@);
            }
        }
        head_kept && tail_added
    } else {
        assert(first + line@ =~= second);
        true
    }
}

/// Refuses a log of cycles that a run without a copy changed, or to which a copy
/// added anything but its own line.
pub fn verify_gc_log_delta(
    before: &Option<Vec<u8>>,
    after: &Option<Vec<u8>>,
    compaction: &Option<CompactionPhaseOutcome>,
) -> (verified: Result<(), Error>)
    ensures
        match verified {
            Ok(_) => cycle_log_holds(*before, *after, entry_of(*compaction)),
            Err(error) => !cycle_log_holds(*before, *after, entry_of(*compaction))
                && error.refuses(cycle_log_text(*compaction is Some)),
        },
{
    let first = bytes_of(before);
    let second = bytes_of(after);
    match compaction {
        None => {
            let same = match (first, second) {
                (Some(left), Some(right)) => bytes_equal(left, right),
                (None, None) => true,
                _ => false,
            };
            if same {
                Ok(())
            } else {
                Err(
                    refusal(
                        "a run that did not compact changed gc.log, which is reserved for completed compaction cycles",
                    ),
                )
            }
        },
        Some(phase) => {
            let line = phase.garbage_collection_entry.as_str();
            if is_extended(first, second, line.as_bytes()) {
                Ok(())
            } else {
                Err(
                    refusal(
                        "the completed compaction did not append exactly its own gc.log entry",
                    ),
                )
            }
        },
    }
}

} // verus!
