//! Predicting what a compaction would reclaim, and proving the head never
//! reaches a segment the sweep would remove.
use vstd::prelude::*;
use vstd::string::*;
use crate::error::{refusal, Error};
use crate::identifier::{CompactionKind, GarbageCollectionGeneration};
use crate::plan::RetainedReclaimable;
use crate::planning::PlannedArchiveSweep;
use crate::text;
use crate::text::push_decimal;

verus! {

/// The generation counter after this one; it wraps.
pub open spec fn next_counter(counter: i32) -> i32 {
    if counter == i32::MAX {
        i32::MIN
    } else {
        (counter + 1) as i32
    }
}

/// The generation a compaction writes into: the next one, compacted; the full
/// counter moves for a full compaction only.
pub open spec fn target_generation(
    base: GarbageCollectionGeneration,
    kind: CompactionKind,
) -> GarbageCollectionGeneration {
    GarbageCollectionGeneration {
        generation: next_counter(base.generation),
        full_generation: match kind {
            CompactionKind::Full => next_counter(base.full_generation),
            CompactionKind::Tail => base.full_generation,
        },
        is_compacted: true,
    }
}

/// The generation a compaction of this kind writes into.
///
/// Named once, because the plan states it and the application writes it: two
/// spellings of the same arithmetic is how a plan comes to describe a
/// generation the run does not produce.
pub fn compaction_target_generation(
    base: GarbageCollectionGeneration,
    kind: CompactionKind,
) -> (target: GarbageCollectionGeneration)
    ensures
        target == target_generation(base, kind),
{
    match kind {
        CompactionKind::Full => GarbageCollectionGeneration {
            generation: base.generation.wrapping_add(1),
            full_generation: base.full_generation.wrapping_add(1),
            is_compacted: true,
        },
        CompactionKind::Tail => GarbageCollectionGeneration {
            generation: base.generation.wrapping_add(1),
            full_generation: base.full_generation,
            is_compacted: true,
        },
    }
}

/// A running total with an amount added, unless it overflows.
pub open spec fn charged(total: u64, amount: u64) -> Option<u64> {
    if total + amount <= u64::MAX {
        Some((total + amount) as u64)
    } else {
        None
    }
}

/// What an operator reads when a running total overflows.
pub open spec fn overflow_text() -> Seq<char> {
    "cleanup byte estimate overflow"@
}

/// Adds an amount to a running total.
pub fn add_estimate(total: &mut u64, amount: u64) -> (added: Result<(), Error>)
    ensures
        match charged(*old(total), amount) {
            Some(sum) => added is Ok && *final(total) == sum,
            None => *final(total) == *old(total) && (added matches Err(error) && error.refuses(
                overflow_text(),
            )),
        },
{
    match total.checked_add(amount) {
        Some(sum) => {
            *total = sum;
            Ok(())
        },
        None => Err(refusal("cleanup byte estimate overflow")),
    }
}

/// How many segments a sweep entry speaks of.
pub open spec fn swept_segments(sweep: PlannedArchiveSweep) -> usize {
    match sweep {
        PlannedArchiveSweep::Remove { segment_count, .. } => segment_count,
        PlannedArchiveSweep::Rewrite { segment_count, .. } => segment_count,
        PlannedArchiveSweep::DeferredBySavings { segment_count, .. } => segment_count,
        PlannedArchiveSweep::DeferredAtLastGeneration { segment_count, .. } => segment_count,
        PlannedArchiveSweep::BlockedByOccupiedGeneration { segment_count, .. } => segment_count,
    }
}

/// Whether a sweep entry declines what it could reclaim, and the bytes it
/// leaves.
pub open spec fn declined_bytes(sweep: PlannedArchiveSweep) -> Option<u64> {
    match sweep {
        PlannedArchiveSweep::DeferredBySavings { eligible_entry_bytes, .. } => Some(
            eligible_entry_bytes,
        ),
        PlannedArchiveSweep::DeferredAtLastGeneration { eligible_entry_bytes, .. } => Some(
            eligible_entry_bytes,
        ),
        PlannedArchiveSweep::BlockedByOccupiedGeneration { eligible_entry_bytes, .. } => Some(
            eligible_entry_bytes,
        ),
        _ => None,
    }
}

/// The counts of declined segments after one more sweep entry.
pub open spec fn declined_counts(
    retained: RetainedReclaimable,
    sweep: PlannedArchiveSweep,
) -> RetainedReclaimable {
    match sweep {
        PlannedArchiveSweep::DeferredBySavings { segment_count, .. } => RetainedReclaimable {
            below_savings_gate: (retained.below_savings_gate + segment_count) as usize,
            ..retained
        },
        PlannedArchiveSweep::DeferredAtLastGeneration { segment_count, .. } =>
            RetainedReclaimable {
            at_last_generation: (retained.at_last_generation + segment_count) as usize,
            ..retained
        },
        PlannedArchiveSweep::BlockedByOccupiedGeneration { segment_count, .. } =>
            RetainedReclaimable {
            blocked_by_occupied_generation: (retained.blocked_by_occupied_generation
                + segment_count) as usize,
            ..retained
        },
        _ => retained,
    }
}

/// How a warning about a declined archive starts.
pub open spec fn declined_prefix(file_name: Seq<char>, segments: usize, size: Seq<char>) -> Seq<
    char,
> {
    file_name + ": "@ + text::decimal(segments as nat) + " reclaimable segments ("@ + size
        + ") retained because "@
}

/// The warning that names a declined archive.
pub open spec fn declined_text(sweep: PlannedArchiveSweep) -> Seq<char> {
    match sweep {
        PlannedArchiveSweep::DeferredBySavings {
            file_name,
            segment_count,
            eligible_size,
            ..
        } => declined_prefix(file_name@, segment_count, eligible_size@)
            + "savings do not exceed Oak's 25% rewrite gate"@,
        PlannedArchiveSweep::DeferredAtLastGeneration {
            file_name,
            segment_count,
            eligible_size,
            ..
        } => declined_prefix(file_name@, segment_count, eligible_size@)
            + "archive generation z cannot be rewritten"@,
        PlannedArchiveSweep::BlockedByOccupiedGeneration {
            file_name,
            occupied_name,
            segment_count,
            eligible_size,
            ..
        } => declined_prefix(file_name@, segment_count, eligible_size@) + occupied_name@
            + " already exists"@,
        _ => Seq::empty(),
    }
}

fn start_declined(file_name: &String, segments: usize, size: &String) -> (warning: String)
    ensures
        warning@ == declined_prefix(file_name@, segments, size@),
{
    let mut warning = file_name.clone();
    warning.append(": ");
    push_decimal(&mut warning, segments as u64);
    warning.append(" reclaimable segments (");
    warning.append(size.as_str());
    warning.append(") retained because ");
    warning
}

/// Whether the counts have room for a sweep entry.
pub open spec fn has_room(retained: RetainedReclaimable, sweep: PlannedArchiveSweep) -> bool {
    &&& retained.below_savings_gate + swept_segments(sweep) <= usize::MAX
    &&& retained.at_last_generation + swept_segments(sweep) <= usize::MAX
    &&& retained.blocked_by_occupied_generation + swept_segments(sweep) <= usize::MAX
}

/// Records one non-actionable disposition: counted, and named in a warning.
pub fn retained_reclaimable_from(
    planned: &PlannedArchiveSweep,
    retained: &mut RetainedReclaimable,
    warnings: &mut Vec<String>,
) -> (recorded: Result<(), Error>)
    requires
        has_room(*old(retained), *planned),
    ensures
        match declined_bytes(*planned) {
            None => {
                &&& recorded is Ok
                &&& *final(retained) == *old(retained)
                &&& final(warnings)@ == old(warnings)@
            },
            Some(bytes) => match charged(old(retained).bytes, bytes) {
                Some(sum) => {
                    &&& recorded is Ok
                    &&& *final(retained) == (RetainedReclaimable {
                        bytes: sum,
                        ..declined_counts(*old(retained), *planned)
                    })
                    &&& text::texts(final(warnings)@) == text::texts(old(warnings)@).push(
                        declined_text(*planned),
                    )
                },
                None => {
                    &&& recorded matches Err(error) && error.refuses(overflow_text())
                    &&& *final(retained) == declined_counts(*old(retained), *planned)
                    &&& final(warnings)@ == old(warnings)@
                },
            },
        },
{
    let ghost before = text::texts(warnings@);
    match planned {
        PlannedArchiveSweep::DeferredBySavings {
            file_name,
            segment_count,
            eligible_entry_bytes,
            eligible_size,
        } => {
            retained.below_savings_gate = retained.below_savings_gate + *segment_count;
            add_estimate(&mut retained.bytes, *eligible_entry_bytes)?;
            let mut warning = start_declined(file_name, *segment_count, eligible_size);
            warning.append("savings do not exceed Oak's 25% rewrite gate");
            warnings.push(warning);
        },
        PlannedArchiveSweep::DeferredAtLastGeneration {
            file_name,
            segment_count,
            eligible_entry_bytes,
            eligible_size,
        } => {
            retained.at_last_generation = retained.at_last_generation + *segment_count;
            add_estimate(&mut retained.bytes, *eligible_entry_bytes)?;
            let mut warning = start_declined(file_name, *segment_count, eligible_size);
            warning.append("archive generation z cannot be rewritten");
            warnings.push(warning);
        },
        PlannedArchiveSweep::BlockedByOccupiedGeneration {
            file_name,
            occupied_name,
            segment_count,
            eligible_entry_bytes,
            eligible_size,
        } => {
            retained.blocked_by_occupied_generation = retained.blocked_by_occupied_generation
                + *segment_count;
            add_estimate(&mut retained.bytes, *eligible_entry_bytes)?;
            let mut warning = start_declined(file_name, *segment_count, eligible_size);
            warning.append(occupied_name.as_str());
            warning.append(" already exists");
            warnings.push(warning);
        },
        PlannedArchiveSweep::Remove { .. } => {
            return Ok(());
        },
        PlannedArchiveSweep::Rewrite { .. } => {
            return Ok(());
        },
    }
    assert(text::texts(warnings@) =~= before.push(declined_text(*planned)));
    Ok(())
}

} // verus!
