//! Following references: what a trace that visits each key once has reached
//! when nothing is left to visit.
use vstd::prelude::*;

verus! {

/// Whether a path leads from a root along references, through keys that were
/// not settled before.
pub open spec fn is_path<K>(
    references: Map<K, Seq<K>>,
    roots: Set<K>,
    settled: Set<K>,
    path: Seq<K>,
) -> bool {
    &&& path.len() > 0
    &&& roots.contains(path[0])
    &&& forall|i: int|
        0 <= i < path.len() - 1 ==> #[trigger] step_exists(references, settled, path, i)
}

/// Whether a path's step follows a reference of an unsettled key.
pub open spec fn step_exists<K>(
    references: Map<K, Seq<K>>,
    settled: Set<K>,
    path: Seq<K>,
    i: int,
) -> bool {
    &&& !settled.contains(path[i])
    &&& references.contains_key(path[i])
    &&& references[path[i]].contains(path[i + 1])
}

/// Whether some path leads to a key.
pub open spec fn reached<K>(
    references: Map<K, Seq<K>>,
    roots: Set<K>,
    settled: Set<K>,
    key: K,
) -> bool {
    exists|path: Seq<K>| #[trigger] is_path(references, roots, settled, path) && path.last() == key
}

/// What a trace keeps true: it has seen and will visit only what a path leads
/// to, and it forgets nothing that a visited key refers to.
pub open spec fn tracing<K>(
    settled: Set<K>,
    roots: Set<K>,
    references: Map<K, Seq<K>>,
    seen: Set<K>,
    pending: Seq<K>,
    awaited: Option<K>,
) -> bool {
    &&& settled.subset_of(seen)
    &&& forall|key: K| #[trigger]
        seen.contains(key) && !settled.contains(key) ==> reached(references, roots, settled, key)
    &&& forall|i: int|
        0 <= i < pending.len() ==> reached(references, roots, settled, #[trigger] pending[i])
    &&& forall|key: K| #[trigger]
        roots.contains(key) ==> seen.contains(key) || pending.contains(key)
    &&& forall|key: K|
        #[trigger] references.contains_key(key) <==> seen.contains(key) && !settled.contains(key)
            && awaited != Some(key)
    &&& forall|key: K, i: int|
        references.contains_key(key) && 0 <= i < references[key].len() ==> seen.contains(
            #[trigger] references[key][i],
        ) || pending.contains(references[key][i])
    &&& awaited is Some ==> seen.contains(awaited->0) && !settled.contains(awaited->0)
}

/// A trace that has nothing left to visit has seen what was settled before and
/// exactly what paths lead to.
pub proof fn lemma_trace_is_complete<K>(
    settled: Set<K>,
    roots: Set<K>,
    references: Map<K, Seq<K>>,
    seen: Set<K>,
)
    requires
        tracing(settled, roots, references, seen, Seq::empty(), None),
    ensures
        forall|key: K| #[trigger]
            seen.contains(key) <==> settled.contains(key) || reached(
                references,
                roots,
                settled,
                key,
            ),
{
    assert forall|key: K| reached(references, roots, settled, key) implies #[trigger] seen.contains(
        key,
    ) by {
        let path = choose|path: Seq<K>| #[trigger]
            is_path(references, roots, settled, path) && path.last() == key;
        lemma_path_is_seen(settled, roots, references, seen, path, path.len() - 1);
    }
}

proof fn lemma_path_is_seen<K>(
    settled: Set<K>,
    roots: Set<K>,
    references: Map<K, Seq<K>>,
    seen: Set<K>,
    path: Seq<K>,
    index: int,
)
    requires
        tracing(settled, roots, references, seen, Seq::empty(), None),
        is_path(references, roots, settled, path),
        0 <= index < path.len(),
    ensures
        seen.contains(path[index]),
    decreases index,
{
    if index == 0 {
        assert(roots.contains(path[0]));
        assert(!Seq::<K>::empty().contains(path[0]));
    } else {
        lemma_path_is_seen(settled, roots, references, seen, path, index - 1);
        assert(step_exists(references, settled, path, index - 1));
        let found = references[path[index - 1]];
        let i = choose|i: int| 0 <= i < found.len() && found[i] == path[index];
        assert(!Seq::<K>::empty().contains(references[path[index - 1]][i]));
    }
}

/// More references keep every path.
pub proof fn lemma_reached_grows<K>(
    references: Map<K, Seq<K>>,
    more: Map<K, Seq<K>>,
    roots: Set<K>,
    settled: Set<K>,
    key: K,
)
    requires
        references.submap_of(more),
        reached(references, roots, settled, key),
    ensures
        reached(more, roots, settled, key),
{
    let path = choose|path: Seq<K>| #[trigger]
        is_path(references, roots, settled, path) && path.last() == key;
    assert forall|i: int| 0 <= i < path.len() - 1 implies #[trigger] step_exists(
        more,
        settled,
        path,
        i,
    ) by {
        assert(step_exists(references, settled, path, i));
        assert(references.contains_key(path[i]) && more.contains_key(path[i]));
        assert(references[path[i]] == more[path[i]]);
    }
    assert(is_path(more, roots, settled, path));
}

/// A root is reached.
pub proof fn lemma_root_is_reached<K>(
    references: Map<K, Seq<K>>,
    roots: Set<K>,
    settled: Set<K>,
    key: K,
)
    requires
        roots.contains(key),
    ensures
        reached(references, roots, settled, key),
{
    let path = seq![key];
    assert(is_path(references, roots, settled, path));
}

/// What an unsettled reached key refers to is reached.
pub proof fn lemma_reference_is_reached<K>(
    references: Map<K, Seq<K>>,
    roots: Set<K>,
    settled: Set<K>,
    key: K,
    target: K,
)
    requires
        reached(references, roots, settled, key),
        !settled.contains(key),
        references.contains_key(key),
        references[key].contains(target),
    ensures
        reached(references, roots, settled, target),
{
    let path = choose|path: Seq<K>| #[trigger]
        is_path(references, roots, settled, path) && path.last() == key;
    let longer = path.push(target);
    assert forall|i: int| 0 <= i < longer.len() - 1 implies #[trigger] step_exists(
        references,
        settled,
        longer,
        i,
    ) by {
        if i < path.len() - 1 {
            assert(step_exists(references, settled, path, i));
        }
    }
    assert(is_path(references, roots, settled, longer));
    assert(longer.last() == target);
}

/// A trace starts with nothing seen but what was settled, and the roots to
/// visit.
pub proof fn lemma_trace_starts<K>(settled: Set<K>, roots: Seq<K>)
    ensures
        tracing(settled, roots.to_set(), Map::empty(), settled, roots, None),
{
    assert forall|i: int| 0 <= i < roots.len() implies reached(
        Map::empty(),
        roots.to_set(),
        settled,
        #[trigger] roots[i],
    ) by {
        assert(roots.to_set().contains(roots[i]));
        lemma_root_is_reached(Map::empty(), roots.to_set(), settled, roots[i]);
    }
}

/// A trace can start from one more key while it awaits nothing.
pub proof fn lemma_trace_gains_root<K>(
    settled: Set<K>,
    roots: Set<K>,
    references: Map<K, Seq<K>>,
    seen: Set<K>,
    pending: Seq<K>,
    root: K,
)
    requires
        tracing(settled, roots, references, seen, pending, None),
    ensures
        tracing(settled, roots.insert(root), references, seen, pending.push(root), None),
{
    let more = roots.insert(root);
    let longer = pending.push(root);
    assert forall|key: K| reached(references, roots, settled, key) implies #[trigger] reached(
        references,
        more,
        settled,
        key,
    ) by {
        let path = choose|path: Seq<K>| #[trigger]
            is_path(references, roots, settled, path) && path.last() == key;
        assert(is_path(references, more, settled, path));
    }
    lemma_root_is_reached(references, more, settled, root);
    assert forall|i: int| 0 <= i < longer.len() implies reached(
        references,
        more,
        settled,
        #[trigger] longer[i],
    ) by {
        if i < pending.len() {
            assert(reached(references, roots, settled, pending[i]));
        }
    }
    assert(longer.last() == root);
    assert forall|key: K| pending.contains(key) implies longer.contains(key) by {
        let i = choose|i: int| 0 <= i < pending.len() && pending[i] == key;
        assert(longer[i] == key);
    }
}

/// A visited key joins what is seen, and leaves what is pending if it is
/// unseen; one that was seen before only leaves what is pending.
pub proof fn lemma_trace_visits<K>(
    settled: Set<K>,
    roots: Set<K>,
    references: Map<K, Seq<K>>,
    seen: Set<K>,
    pending: Seq<K>,
    index: int,
)
    requires
        tracing(settled, roots, references, seen, pending, None),
        0 <= index < pending.len(),
    ensures
        seen.contains(pending[index]) ==> tracing(
            settled,
            roots,
            references,
            seen,
            pending.remove(index),
            None,
        ),
        !seen.contains(pending[index]) ==> tracing(
            settled,
            roots,
            references,
            seen.insert(pending[index]),
            pending.remove(index),
            Some(pending[index]),
        ),
{
    let key = pending[index];
    let rest = pending.remove(index);
    assert forall|i: int| 0 <= i < rest.len() implies reached(
        references,
        roots,
        settled,
        #[trigger] rest[i],
    ) by {
        if i < index {
            assert(rest[i] == pending[i]);
        } else {
            assert(rest[i] == pending[i + 1]);
        }
    }
    assert forall|other: K| pending.contains(other) implies rest.contains(other) || other
        == key by {
        let i = choose|i: int| 0 <= i < pending.len() && pending[i] == other;
        if i < index {
            assert(rest[i] == other);
        } else if i > index {
            assert(rest[i - 1] == other);
        }
    }
    assert(reached(references, roots, settled, pending[index]));
}

/// Once the references of a visited key are known they are pending.
pub proof fn lemma_trace_learns<K>(
    settled: Set<K>,
    roots: Set<K>,
    references: Map<K, Seq<K>>,
    seen: Set<K>,
    pending: Seq<K>,
    key: K,
    found: Seq<K>,
)
    requires
        tracing(settled, roots, references, seen, pending, Some(key)),
    ensures
        tracing(settled, roots, references.insert(key, found), seen, pending + found, None),
{
    let more = references.insert(key, found);
    let longer = pending + found;
    assert(!references.contains_key(key));
    assert(references.submap_of(more));
    assert forall|other: K| #[trigger] seen.contains(other) && !settled.contains(other) implies
        reached(more, roots, settled, other) by {
        lemma_reached_grows(references, more, roots, settled, other);
    }
    assert forall|i: int| 0 <= i < longer.len() implies reached(
        more,
        roots,
        settled,
        #[trigger] longer[i],
    ) by {
        if i < pending.len() {
            assert(longer[i] == pending[i]);
            lemma_reached_grows(references, more, roots, settled, pending[i]);
        } else {
            assert(seen.contains(key));
            assert(more[key].contains(found[i - pending.len()]));
            lemma_reference_is_reached(more, roots, settled, key, found[i - pending.len()]);
        }
    }
    assert forall|other: K| pending.contains(other) implies longer.contains(other) by {
        let i = choose|i: int| 0 <= i < pending.len() && pending[i] == other;
        assert(longer[i] == other);
    }
    assert forall|other: K, i: int|
        more.contains_key(other) && 0 <= i < more[other].len() implies seen.contains(
        #[trigger] more[other][i],
    ) || longer.contains(more[other][i]) by {
        if other == key {
            assert(longer[pending.len() + i] == found[i]);
        } else {
            assert(references.contains_key(other));
            assert(references[other][i] == more[other][i]);
        }
    }
}

} // verus!
