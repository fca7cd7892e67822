//! Deletions that a run planned and did not achieve, gathered in a stable order.
use vstd::prelude::*;
use vstd::string::*;
use crate::order;
use crate::order::{insert_name, text_precedes};
use crate::plan;
use crate::plan::{DeletionFailureView, FileDeletionFailure, FileDeletionFailureKind};
use crate::text;
use crate::text::text_eq;

verus! {

/// A deletion that a sweep of segments did not achieve.
#[derive(Debug)]
pub struct SegmentDeletionFailure {
    /// The file.
    pub file_name: String,
    /// Why.
    pub error: String,
    /// Whether it was gone before.
    pub target_was_already_absent: bool,
}

/// A sweep's failures as an outcome states them.
pub open spec fn translated(failures: Seq<SegmentDeletionFailure>) -> Seq<DeletionFailureView> {
    failures.map_values(
        |failure: SegmentDeletionFailure|
            DeletionFailureView {
                file_name: failure.file_name@,
                error: failure.error@,
                kind: if failure.target_was_already_absent {
                    FileDeletionFailureKind::AlreadyAbsent
                } else {
                    FileDeletionFailureKind::Retained
                },
            },
    )
}

/// Failures are ordered by file, and then by what went wrong.
pub open spec fn failure_less(left: DeletionFailureView, right: DeletionFailureView) -> bool {
    order::text_less(left.file_name, right.file_name) || left.file_name == right.file_name
        && order::text_less(left.error, right.error)
}

/// A failure put in its place: after all that do not come after it.
pub open spec fn placed(
    sorted: Seq<DeletionFailureView>,
    failure: DeletionFailureView,
) -> Seq<DeletionFailureView>
    decreases sorted.len(),
{
    if sorted.len() == 0 || !failure_less(failure, sorted.last()) {
        sorted.push(failure)
    } else {
        placed(sorted.drop_last(), failure).push(sorted.last())
    }
}

/// Failures in order; those that compare as equal stay as they were.
pub open spec fn sorted_failures(failures: Seq<DeletionFailureView>) -> Seq<DeletionFailureView>
    decreases failures.len(),
{
    if failures.len() == 0 {
        Seq::empty()
    } else {
        placed(sorted_failures(failures.drop_last()), failures.last())
    }
}

/// Failures without those that merely repeat the one before them.
pub open spec fn without_repeats(failures: Seq<DeletionFailureView>) -> Seq<DeletionFailureView>
    decreases failures.len(),
{
    if failures.len() <= 1 {
        failures
    } else {
        let earlier = without_repeats(failures.drop_last());
        if failures.last() == failures[failures.len() - 2] {
            earlier
        } else {
            earlier.push(failures.last())
        }
    }
}

/// Failures in order, each once.
pub open spec fn collected(failures: Seq<DeletionFailureView>) -> Seq<DeletionFailureView> {
    without_repeats(sorted_failures(failures))
}

/// The files that some failures name.
pub open spec fn names_of(failures: Seq<DeletionFailureView>) -> Set<Seq<char>> {
    failures.map_values(|failure: DeletionFailureView| failure.file_name).to_set()
}

fn precedes(left: &FileDeletionFailure, right: &FileDeletionFailure) -> (less: bool)
    ensures
        less == failure_less(left@, right@),
{
    if text_precedes(left.file_name(), right.file_name()) {
        return true;
    }
    text_eq(left.file_name(), right.file_name()) && text_precedes(left.error(), right.error())
}

proof fn lemma_placed(
    sorted: Seq<DeletionFailureView>,
    failure: DeletionFailureView,
    position: int,
)
    requires
        0 <= position <= sorted.len(),
        forall|i: int| position <= i < sorted.len() ==> failure_less(failure, #[trigger] sorted[i]),
        position > 0 ==> !failure_less(failure, sorted[position - 1]),
    ensures
        placed(sorted, failure) == sorted.insert(position, failure),
    decreases sorted.len(),
{
    if position == sorted.len() {
        assert(sorted.insert(position, failure) =~= sorted.push(failure));
    } else {
        lemma_placed(sorted.drop_last(), failure, position);
        assert(sorted.insert(position, failure) =~= sorted.drop_last().insert(
            position,
            failure,
        ).push(sorted.last()));
    }
}

fn place(sorted: &mut Vec<FileDeletionFailure>, failure: FileDeletionFailure)
    ensures
        plan::failure_views(final(sorted)@) == placed(plan::failure_views(old(sorted)@), failure@),
{
    let ghost before = plan::failure_views(sorted@);
    let ghost value = failure@;
    let mut position: usize = sorted.len();
    while position > 0 && precedes(&failure, &sorted[position - 1])
        invariant
            position <= sorted@.len(),
            before == plan::failure_views(sorted@),
            value == failure@,
            forall|i: int|
                position <= i < before.len() ==> failure_less(value, #[trigger] before[i]),
        decreases position,
    {
        position = position - 1;
    }
    proof {
        lemma_placed(before, value, position as int);
    }
    sorted.insert(position, failure);
    assert(plan::failure_views(sorted@) =~= before.insert(position as int, value));
}

fn same_failure(left: &FileDeletionFailure, right: &FileDeletionFailure) -> (same: bool)
    ensures
        same == (left@ == right@),
{
    text_eq(left.file_name(), right.file_name()) && text_eq(left.error(), right.error())
        && left.target_was_already_absent() == right.target_was_already_absent()
}

/// Adds failures to a sorted list, one by one.
fn place_all(
    sorted: &mut Vec<FileDeletionFailure>,
    more: &Vec<FileDeletionFailure>,
    Ghost(earlier): Ghost<Seq<DeletionFailureView>>,
)
    requires
        plan::failure_views(old(sorted)@) == sorted_failures(earlier),
    ensures
        plan::failure_views(final(sorted)@) == sorted_failures(
            earlier + plan::failure_views(more@),
        ),
{
    let ghost views = plan::failure_views(more@);
    let mut index: usize = 0;
    assert(earlier + views.take(0) =~= earlier);
    while index < more.len()
        invariant
            index <= more@.len(),
            views == plan::failure_views(more@),
            plan::failure_views(sorted@) == sorted_failures(earlier + views.take(index as int)),
        decreases more@.len() - index,
    {
        let failure = more[index].copy();
        proof {
            let longer = earlier + views.take(index as int + 1);
            assert(longer.drop_last() =~= earlier + views.take(index as int));
            assert(longer.last() == views[index as int]);
        }
        place(sorted, failure);
        index = index + 1;
    }
    assert(views.take(index as int) =~= views);
}

proof fn lemma_placed_names(sorted: Seq<DeletionFailureView>, failure: DeletionFailureView)
    ensures
        names_of(placed(sorted, failure)) == names_of(sorted).insert(failure.file_name),
    decreases sorted.len(),
{
    let name = |entry: DeletionFailureView| entry.file_name;
    if sorted.len() == 0 || !failure_less(failure, sorted.last()) {
        assert(sorted.push(failure).map_values(name) =~= sorted.map_values(name).push(
            failure.file_name,
        ));
        sorted.map_values(name).lemma_push_to_set_commute(failure.file_name);
    } else {
        let rest = sorted.drop_last();
        lemma_placed_names(rest, failure);
        let inner = placed(rest, failure);
        assert(inner.push(sorted.last()).map_values(name) =~= inner.map_values(name).push(
            sorted.last().file_name,
        ));
        inner.map_values(name).lemma_push_to_set_commute(sorted.last().file_name);
        assert(sorted.map_values(name) =~= rest.map_values(name).push(sorted.last().file_name));
        rest.map_values(name).lemma_push_to_set_commute(sorted.last().file_name);
        assert(names_of(rest).insert(failure.file_name).insert(sorted.last().file_name)
            =~= names_of(rest).insert(sorted.last().file_name).insert(failure.file_name));
    }
}

proof fn lemma_sorted_names(failures: Seq<DeletionFailureView>)
    ensures
        names_of(sorted_failures(failures)) == names_of(failures),
    decreases failures.len(),
{
    let name = |entry: DeletionFailureView| entry.file_name;
    if failures.len() == 0 {
        assert(failures.map_values(name) =~= Seq::empty());
        assert(sorted_failures(failures).map_values(name) =~= Seq::empty());
    } else {
        let rest = failures.drop_last();
        lemma_sorted_names(rest);
        lemma_placed_names(sorted_failures(rest), failures.last());
        assert(failures.map_values(name) =~= rest.map_values(name).push(
            failures.last().file_name,
        ));
        rest.map_values(name).lemma_push_to_set_commute(failures.last().file_name);
    }
}

/// Gathers every deletion that was planned and not achieved, in a stable order
/// and without repetition, and the distinct files that are concerned.
pub fn collect_deletion_failures(
    segment_failures: &Vec<SegmentDeletionFailure>,
    stale_archives: &Vec<FileDeletionFailure>,
    temporaries: &Vec<FileDeletionFailure>,
    recovery_backups: &Vec<FileDeletionFailure>,
) -> (gathered: (Vec<FileDeletionFailure>, Vec<String>))
    ensures
        ({
            let reported = translated(segment_failures@) + plan::failure_views(stale_archives@)
                + plan::failure_views(temporaries@) + plan::failure_views(recovery_backups@);
            &&& plan::failure_views(gathered.0@) == collected(reported)
            &&& order::ascending(text::texts(gathered.1@))
            &&& text::texts(gathered.1@).to_set() == names_of(reported)
        }),
{
    let ghost swept = translated(segment_failures@);
    let mut sorted: Vec<FileDeletionFailure> = Vec::new();
    let mut index: usize = 0;
    assert(swept.take(0) =~= Seq::empty());
    assert(plan::failure_views(sorted@) =~= Seq::empty());
    while index < segment_failures.len()
        invariant
            index <= segment_failures@.len(),
            swept == translated(segment_failures@),
            plan::failure_views(sorted@) == sorted_failures(swept.take(index as int)),
        decreases segment_failures@.len() - index,
    {
        let failure = &segment_failures[index];
        let file_name = failure.file_name.clone();
        let error = failure.error.clone();
        let told = if failure.target_was_already_absent {
            FileDeletionFailure::already_absent(file_name, error)
        } else {
            FileDeletionFailure::retained(file_name, error)
        };
        proof {
            let longer = swept.take(index as int + 1);
            assert(longer.drop_last() =~= swept.take(index as int));
            assert(longer.last() == told@);
        }
        place(&mut sorted, told);
        index = index + 1;
    }
    assert(swept.take(index as int) =~= swept);
    place_all(&mut sorted, stale_archives, Ghost(swept));
    let ghost second = swept + plan::failure_views(stale_archives@);
    place_all(&mut sorted, temporaries, Ghost(second));
    let ghost third = second + plan::failure_views(temporaries@);
    place_all(&mut sorted, recovery_backups, Ghost(third));
    let ghost reported = third + plan::failure_views(recovery_backups@);
    let ghost views = plan::failure_views(sorted@);
    let mut distinct: Vec<FileDeletionFailure> = Vec::new();
    let mut names: Vec<String> = Vec::new();
    let mut position: usize = 0;
    let ghost name = |entry: DeletionFailureView| entry.file_name;
    proof {
        assert(views.take(0) =~= Seq::empty());
        assert(plan::failure_views(distinct@) =~= Seq::empty());
        assert(views.take(0).map_values(name) =~= Seq::empty());
        assert(text::texts(names@) =~= Seq::empty());
        assert(text::texts(names@).to_set() =~= names_of(views.take(0)));
    }
    while position < sorted.len()
        invariant
            position <= sorted@.len(),
            views == plan::failure_views(sorted@),
            name == (|entry: DeletionFailureView| entry.file_name),
            plan::failure_views(distinct@) == without_repeats(views.take(position as int)),
            order::ascending(text::texts(names@)),
            text::texts(names@).to_set() == names_of(views.take(position as int)),
        decreases sorted@.len() - position,
    {
        let failure = &sorted[position];
        let ghost known = plan::failure_views(distinct@);
        let ghost taken = views.take(position as int);
        let ghost next = views.take(position as int + 1);
        proof {
            assert(next.drop_last() =~= taken);
            assert(next.last() == failure@);
            assert(next.map_values(name) =~= taken.map_values(name).push(failure@.file_name));
            taken.map_values(name).lemma_push_to_set_commute(failure@.file_name);
        }
        let repeats = position > 0 && same_failure(failure, &sorted[position - 1]);
        if !repeats {
            distinct.push(failure.copy());
            assert(plan::failure_views(distinct@) =~= known.push(failure@));
        }
        insert_name(&mut names, failure.file_name().to_owned());
        position = position + 1;
    }
    proof {
        assert(views.take(position as int) =~= views);
        lemma_sorted_names(reported);
    }
    (distinct, names)
}

} // verus!
