//! A repository directory as the files that it holds: what is said of the bytes
//! on disk is said of this model.
use vstd::prelude::*;

verus! {

/// The files of a directory: their names, and the bytes under each.
pub type Files = Map<Seq<char>, Seq<u8>>;

/// A name leads to the same bytes in both, or to nothing in either.
pub open spec fn same_file(before: Files, after: Files, name: Seq<char>) -> bool {
    &&& before.contains_key(name) == after.contains_key(name)
    &&& before.contains_key(name) ==> before[name] == after[name]
}

/// Directories that agree on every name are the same.
pub proof fn lemma_same_files(before: Files, after: Files)
    requires
        forall|name: Seq<char>| #[trigger] same_file(before, after, name),
    ensures
        before == after,
{
    assert forall|name: Seq<char>| #[trigger] before.contains_key(name) == after.contains_key(
        name,
    ) by {
        assert(same_file(before, after, name));
    }
    assert forall|name: Seq<char>| #[trigger] before.contains_key(name) implies before[name]
        == after[name] by {
        assert(same_file(before, after, name));
    }
    assert(before =~= after);
}

} // verus!
