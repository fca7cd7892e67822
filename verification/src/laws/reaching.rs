//! What it is to be reached: the least that holds the roots and what they refer to.
use vstd::prelude::*;
use crate::reach;

verus! {

/// Every root is reached.
pub proof fn law_every_root_is_reached<K>(
    references: Map<K, Seq<K>>,
    roots: Set<K>,
    settled: Set<K>,
    key: K,
)
    requires
        roots.contains(key),
    ensures
        reach::reached(references, roots, settled, key),
{
    let path = seq![key];
    assert(reach::is_path(references, roots, settled, path));
    assert(path.last() == key);
}

/// What a reached key refers to is reached, unless the key was settled before.
pub proof fn law_what_is_referred_to_is_reached<K>(
    references: Map<K, Seq<K>>,
    roots: Set<K>,
    settled: Set<K>,
    key: K,
    place: int,
)
    requires
        reach::reached(references, roots, settled, key),
        !settled.contains(key),
        references.contains_key(key),
        0 <= place < references[key].len(),
    ensures
        reach::reached(references, roots, settled, references[key][place]),
{
    let path = choose|path: Seq<K>| #[trigger]
        reach::is_path(references, roots, settled, path) && path.last() == key;
    let longer = path.push(references[key][place]);
    assert(references[key].contains(references[key][place]));
    assert forall|i: int| 0 <= i < longer.len() - 1 implies #[trigger] reach::step_exists(
        references,
        settled,
        longer,
        i,
    ) by {
        assert(longer[i] == path[i]);
        if i < path.len() - 1 {
            assert(reach::step_exists(references, settled, path, i));
            assert(longer[i + 1] == path[i + 1]);
        }
    }
    assert(reach::is_path(references, roots, settled, longer));
    assert(longer.last() == references[key][place]);
}

/// Nothing else is reached: what holds the roots, and with each of its keys that was not
/// settled before all that the key refers to, holds everything that is reached.
pub proof fn law_nothing_else_is_reached<K>(
    references: Map<K, Seq<K>>,
    roots: Set<K>,
    settled: Set<K>,
    enough: Set<K>,
    key: K,
)
    requires
        roots.subset_of(enough),
        forall|from: K, place: int|
            enough.contains(from) && !settled.contains(from) && references.contains_key(from) && 0
                <= place < references[from].len() ==> enough.contains(
                #[trigger] references[from][place],
            ),
        reach::reached(references, roots, settled, key),
    ensures
        enough.contains(key),
{
    let path = choose|path: Seq<K>| #[trigger]
        reach::is_path(references, roots, settled, path) && path.last() == key;
    lemma_stays(references, roots, settled, enough, path, path.len() - 1);
}

proof fn lemma_stays<K>(
    references: Map<K, Seq<K>>,
    roots: Set<K>,
    settled: Set<K>,
    enough: Set<K>,
    path: Seq<K>,
    place: int,
)
    requires
        roots.subset_of(enough),
        forall|from: K, place: int|
            enough.contains(from) && !settled.contains(from) && references.contains_key(from) && 0
                <= place < references[from].len() ==> enough.contains(
                #[trigger] references[from][place],
            ),
        reach::is_path(references, roots, settled, path),
        0 <= place < path.len(),
    ensures
        enough.contains(path[place]),
    decreases place,
{
    if place > 0 {
        lemma_stays(references, roots, settled, enough, path, place - 1);
        assert(reach::step_exists(references, settled, path, place - 1));
        let from = path[place - 1];
        let at = choose|at: int|
            0 <= at < references[from].len() && references[from][at] == path[place];
        assert(enough.contains(references[from][at]));
    }
}

} // verus!
