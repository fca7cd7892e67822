//! What lies above and below a path.
use vstd::prelude::*;
use crate::planning::paths;

verus! {

/// The places at which a path has a slash.
pub open spec fn slashes(path: Seq<char>) -> Set<int> {
    Set::new(|i: int| 0 <= i < path.len() && path[i] == '/')
}

/// Whether a path continues another with a slash and anything more.
pub open spec fn continues(path: Seq<char>, above: Seq<char>) -> bool {
    &&& above.len() < path.len()
    &&& forall|i: int| 0 <= i < above.len() ==> path[i] == above[i]
    &&& path[above.len() as int] == '/'
}

/// A path lies within another exactly if it is that path or continues it with a
/// slash: a longer name that merely starts alike lies outside.
pub proof fn law_within_is_equal_or_continued(path: Seq<char>, root: Seq<char>)
    ensures
        paths::lies_within(path, root) <==> path == root || continues(path, root),
{
    if paths::lies_within(path, root) {
        assert forall|i: int| 0 <= i < root.len() implies path[i] == root[i] by {
            assert(path.take(root.len() as int)[i] == path[i]);
        }
        if path.len() == root.len() {
            assert(path =~= root);
        }
    }
    if path == root || continues(path, root) {
        assert(path.take(root.len() as int) =~= root);
    }
}

/// The depth of a path is how often a slash occurs in it.
pub proof fn law_depth_counts_the_slashes(path: Seq<char>)
    ensures
        slashes(path).finite(),
        paths::depth(path) == slashes(path).len(),
    decreases path.len(),
{
    if path.len() == 0 {
        assert(slashes(path) =~= Set::empty());
    } else {
        let shorter = path.drop_last();
        let end = path.len() - 1;
        law_depth_counts_the_slashes(shorter);
        if path[end] == '/' {
            assert(slashes(path) =~= slashes(shorter).insert(end));
        } else {
            assert(slashes(path) =~= slashes(shorter));
        }
    }
}

/// The ancestors of a path are exactly the paths with a slash of their own that it
/// continues.
pub proof fn law_ancestors_are_what_a_path_continues(path: Seq<char>, above: Seq<char>)
    ensures
        paths::ancestors(path).contains(above) <==> continues(path, above) && above.contains('/'),
    decreases path.len(),
{
    let all = paths::ancestors(path);
    if path.len() == 0 {
        assert(!all.contains(above));
    } else {
        let shorter = path.drop_last();
        let end = path.len() - 1;
        let earlier = paths::ancestors(shorter);
        law_ancestors_are_what_a_path_continues(shorter, above);
        law_depth_counts_the_slashes(shorter);
        assert(paths::depth(shorter) > 0 <==> shorter.contains('/')) by {
            if shorter.contains('/') {
                let i = choose|i: int| 0 <= i < shorter.len() && shorter[i] == '/';
                assert(slashes(shorter).contains(i));
                if slashes(shorter).len() == 0 {
                    assert(slashes(shorter) =~= Set::empty());
                }
            } else {
                assert(slashes(shorter) =~= Set::empty());
            }
        }
        if above.len() < end {
            assert(continues(path, above) <==> continues(shorter, above));
            assert(above != shorter);
        } else if above.len() == end {
            assert(!continues(shorter, above));
            if continues(path, above) {
                assert(above =~= shorter);
            }
            if above == shorter && path[end] == '/' {
                assert(continues(path, above));
            }
        } else {
            assert(!continues(path, above) && !continues(shorter, above));
            assert(above != shorter);
        }
        if path[end] == '/' && paths::depth(shorter) > 0 {
            assert(all == earlier.push(shorter));
            assert(all.contains(above) <==> earlier.contains(above) || above == shorter) by {
                if earlier.contains(above) {
                    let i = choose|i: int| 0 <= i < earlier.len() && earlier[i] == above;
                    assert(all[i] == above);
                }
                assert(all[earlier.len() as int] == shorter);
            }
        } else {
            assert(all == earlier);
        }
    }
}

/// The path above another is what comes before its last slash, where anything does.
pub proof fn law_the_parent_ends_at_the_last_slash(path: Seq<char>, slash: int)
    requires
        0 <= slash < path.len(),
        path[slash] == '/',
        forall|i: int| slash < i < path.len() ==> path[i] != '/',
    ensures
        slash > 0 ==> paths::parent(path) == Some(path.take(slash)),
        slash == 0 ==> paths::parent(path) is None,
    decreases path.len(),
{
    if slash < path.len() - 1 {
        assert(path.last() != '/');
        law_the_parent_ends_at_the_last_slash(path.drop_last(), slash);
        assert(path.drop_last().take(slash) =~= path.take(slash));
    } else {
        assert(path.drop_last() =~= path.take(slash));
    }
}

/// A path without a slash has nothing above it.
pub proof fn law_a_bare_name_has_no_parent(path: Seq<char>)
    requires
        !path.contains('/'),
    ensures
        paths::parent(path) is None,
    decreases path.len(),
{
    if path.len() > 0 {
        assert(path[path.len() - 1] != '/');
        assert forall|i: int| 0 <= i < path.drop_last().len() implies path.drop_last()[i]
            != '/' by {
            assert(path[i] != '/');
        }
        law_a_bare_name_has_no_parent(path.drop_last());
    }
}

} // verus!
