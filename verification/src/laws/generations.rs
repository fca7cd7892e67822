//! What a stated generation decides: whether a closure counts as compacted, and
//! which segments an interrupted compaction left ahead of the head.
use vstd::prelude::*;
use crate::generations;
use crate::generations::GenerationIndex;
use crate::identifier::{
    CompactionKind, GarbageCollectionGeneration, SegmentIdentifier, SegmentSet,
};
use crate::reclamation;

verus! {

/// A closure counts as uniformly compacted exactly if the reference is compacted
/// and the index states, for every data segment of the closure, the reference's
/// generation, its full generation and that it is compacted. One data segment
/// that differs in any of the three, or of which nothing is stated, is enough to
/// say that it is not.
pub proof fn law_a_uniform_closure_agrees_in_all_three_fields(
    closure: SegmentSet,
    index: GenerationIndex,
    reference: GarbageCollectionGeneration,
    uniform: bool,
)
    requires
        uniform == (reference.is_compacted && generations::is_uniform(
            closure.listed(),
            index,
            reference,
        )),
    ensures
        uniform ==> reference.is_compacted,
        uniform ==> forall|i: int|
            0 <= i < closure.listed().len() && (#[trigger] closure.listed()[i]).least_significant
                / 0x1000_0000_0000_0000 == 0xA ==> {
                &&& index.generation(closure.listed()[i]) is Some
                &&& index.generation(closure.listed()[i])->0.generation == reference.generation
                &&& index.generation(closure.listed()[i])->0.full_generation
                    == reference.full_generation
                &&& index.generation(closure.listed()[i])->0.is_compacted
            },
        !uniform && reference.is_compacted ==> exists|i: int|
            0 <= i < closure.listed().len() && (#[trigger] closure.listed()[i]).least_significant
                / 0x1000_0000_0000_0000 == 0xA && {
                ||| index.generation(closure.listed()[i]) is None
                ||| index.generation(closure.listed()[i])->0.generation != reference.generation
                ||| index.generation(closure.listed()[i])->0.full_generation
                    != reference.full_generation
                ||| !index.generation(closure.listed()[i])->0.is_compacted
            },
{
    if !uniform && reference.is_compacted {
        let i = choose|i: int|
            0 <= i < closure.listed().len() && (#[trigger] closure.listed()[i]).names_data()
                && index.generation(closure.listed()[i]) != Some(reference);
        assert(0 <= i < closure.listed().len() && closure.listed()[i].least_significant
            / 0x1000_0000_0000_0000 == 0xA);
    }
}

/// A compaction of either kind writes the next generation and marks it as
/// compacted; only a full one moves the full generation. The counters wrap from
/// the largest value to the smallest.
pub proof fn law_a_compaction_writes_the_next_generation(
    base: GarbageCollectionGeneration,
    kind: CompactionKind,
)
    ensures
        ({
            let target = reclamation::target_generation(base, kind);
            &&& target.is_compacted
            &&& base.generation < 0x7fff_ffff ==> target.generation == base.generation + 1
            &&& base.generation == 0x7fff_ffff ==> target.generation == -0x8000_0000
            &&& kind is Tail ==> target.full_generation == base.full_generation
            &&& kind is Full && base.full_generation < 0x7fff_ffff ==> target.full_generation
                == base.full_generation + 1
            &&& kind is Full && base.full_generation == 0x7fff_ffff ==> target.full_generation
                == -0x8000_0000
        }),
{
}

proof fn lemma_ahead_count_parts(
    index: GenerationIndex,
    reference: GarbageCollectionGeneration,
    first: Seq<SegmentIdentifier>,
    second: Seq<SegmentIdentifier>,
)
    ensures
        generations::ahead_count(index, reference, first + second) == generations::ahead_count(
            index,
            reference,
            first,
        ) + generations::ahead_count(index, reference, second),
    decreases second.len(),
{
    if second.len() == 0 {
        assert(first + second =~= first);
    } else {
        assert((first + second).drop_last() =~= first + second.drop_last());
        lemma_ahead_count_parts(index, reference, first, second.drop_last());
    }
}

proof fn lemma_ahead_count_without(
    index: GenerationIndex,
    reference: GarbageCollectionGeneration,
    listed: Seq<SegmentIdentifier>,
    position: int,
)
    requires
        0 <= position < listed.len(),
    ensures
        generations::ahead_count(index, reference, listed) == generations::ahead_count(
            index,
            reference,
            listed.remove(position),
        ) + if generations::is_ahead(index, reference, listed[position]) {
            1nat
        } else {
            0nat
        },
{
    let before = listed.take(position);
    let after = listed.skip(position + 1);
    let one = seq![listed[position]];
    assert(listed =~= (before + one) + after);
    assert(listed.remove(position) =~= before + after);
    lemma_ahead_count_parts(index, reference, before + one, after);
    lemma_ahead_count_parts(index, reference, before, one);
    lemma_ahead_count_parts(index, reference, before, after);
    assert(one.drop_last() =~= Seq::empty());
    assert(generations::ahead_count(index, reference, one.drop_last()) == 0);
}

/// Whatever a compaction wrote before it died counts as ahead of the head, a tail
/// compaction's output no less than a full one's: each listed data segment that
/// the index states at the generation that a compaction of the head writes into
/// adds one to the count, short of a wrap of the counter.
pub proof fn law_the_output_of_either_kind_is_ahead(
    index: GenerationIndex,
    reference: GarbageCollectionGeneration,
    kind: CompactionKind,
    position: int,
    count: usize,
)
    requires
        count == generations::ahead_count(index, reference, index.listed()),
        0 <= position < index.listed().len(),
        index.listed()[position].least_significant / 0x1000_0000_0000_0000 == 0xA,
        index.generation(index.listed()[position]) == Some(
            reclamation::target_generation(reference, kind),
        ),
        reference.generation < 0x7fff_ffff,
    ensures
        count > 0,
        count == generations::ahead_count(
            index,
            reference,
            index.listed().remove(position),
        ) + 1,
{
    lemma_ahead_count_without(index, reference, index.listed(), position);
}

/// A listed segment adds nothing to the count where it holds no data, where the
/// index states nothing of it, or where its generation is the head's own or an
/// earlier one, whatever its full generation is.
pub proof fn law_nothing_else_is_ahead(
    index: GenerationIndex,
    reference: GarbageCollectionGeneration,
    position: int,
    count: usize,
)
    requires
        count == generations::ahead_count(index, reference, index.listed()),
        0 <= position < index.listed().len(),
        ({
            ||| index.listed()[position].least_significant / 0x1000_0000_0000_0000 != 0xA
            ||| index.generation(index.listed()[position]) is None
            ||| index.generation(index.listed()[position])->0.generation <= reference.generation
        }),
    ensures
        count == generations::ahead_count(index, reference, index.listed().remove(position)),
{
    lemma_ahead_count_without(index, reference, index.listed(), position);
}

/// The places of a list at which a data segment stands whose stated generation is
/// later than the reference's.
pub open spec fn later_places(
    index: GenerationIndex,
    reference: GarbageCollectionGeneration,
    listed: Seq<SegmentIdentifier>,
) -> Set<int> {
    Set::new(
        |i: int|
            {
                &&& 0 <= i < listed.len()
                &&& listed[i].least_significant / 0x1000_0000_0000_0000 == 0xA
                &&& index.generation(listed[i]) is Some
                &&& index.generation(listed[i])->0.generation > reference.generation
            },
    )
}

/// The count is that of the listed data segments whose stated generation is later
/// than the head's, each place once.
pub proof fn law_the_count_is_that_of_the_later_places(
    index: GenerationIndex,
    reference: GarbageCollectionGeneration,
    listed: Seq<SegmentIdentifier>,
)
    ensures
        later_places(index, reference, listed).finite(),
        generations::ahead_count(index, reference, listed) == later_places(
            index,
            reference,
            listed,
        ).len(),
    decreases listed.len(),
{
    let places = later_places(index, reference, listed);
    if listed.len() == 0 {
        assert(places =~= Set::empty());
    } else {
        let shorter = listed.drop_last();
        law_the_count_is_that_of_the_later_places(index, reference, shorter);
        let earlier = later_places(index, reference, shorter);
        let last = listed.len() - 1;
        if listed[last].least_significant / 0x1000_0000_0000_0000 == 0xA && index.generation(
            listed[last],
        ) is Some && index.generation(listed[last])->0.generation > reference.generation {
            assert(places =~= earlier.insert(last));
        } else {
            assert(places =~= earlier);
        }
    }
}

} // verus!
