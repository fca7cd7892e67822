//! Paths below version storage.
use vstd::prelude::*;
use vstd::string::*;
use crate::number;
use crate::number::parse_dashed_identifier;

verus! {

/// Reads a content identifier — `8-4-4-4-12` hexadecimal — as its 128 bits,
/// of either case.
pub fn parse_identifier(text: &str) -> (identifier: Option<u128>)
    ensures
        identifier == number::identifier_value(text.spec_bytes()),
{
    parse_dashed_identifier(text.as_bytes())
}

/// Whether a path lies within the subtree at a root, or is the root.
pub open spec fn lies_within(path: Seq<char>, root: Seq<char>) -> bool {
    &&& root.len() <= path.len()
    &&& path.take(root.len() as int) == root
    &&& path.len() > root.len() ==> path[root.len() as int] == '/'
}

/// Whether a path lies within the subtree at a root, or is the root.
pub fn within(path: &str, root: &str) -> (inside: bool)
    ensures
        inside == lies_within(path@, root@),
{
    let path_length = path.unicode_len();
    let root_length = root.unicode_len();
    if root_length > path_length {
        return false;
    }
    let start = path.substring_char(0, root_length).to_owned();
    assert(path@.subrange(0, root_length as int) =~= path@.take(root_length as int));
    if !(start == root.to_owned()) {
        return false;
    }
    path_length == root_length || path.get_char(root_length) == '/'
}

/// How many slashes a path has.
pub open spec fn depth(path: Seq<char>) -> nat
    decreases path.len(),
{
    if path.len() == 0 {
        0
    } else {
        depth(path.drop_last()) + if path.last() == '/' {
            1nat
        } else {
            0nat
        }
    }
}

/// Counts the slashes of a path.
pub fn path_depth(path: &str) -> (count: usize)
    ensures
        count == depth(path@),
{
    let length = path.unicode_len();
    let mut count: usize = 0;
    let mut index: usize = 0;
    assert(path@.take(0) =~= Seq::empty());
    while index < length
        invariant
            length == path@.len(),
            index <= length,
            count <= index,
            count == depth(path@.take(index as int)),
        decreases length - index,
    {
        assert(path@.take(index as int + 1).drop_last() =~= path@.take(index as int));
        if path.get_char(index) == '/' {
            count = count + 1;
        }
        index = index + 1;
    }
    assert(path@.take(index as int) =~= path@);
    count
}

/// The proper ancestors of a path, the first slash's excepted: what comes
/// before each further slash.
pub open spec fn ancestors(path: Seq<char>) -> Seq<Seq<char>>
    decreases path.len(),
{
    if path.len() == 0 {
        Seq::empty()
    } else {
        let earlier = ancestors(path.drop_last());
        if path.last() == '/' && depth(path.drop_last()) > 0 {
            earlier.push(path.drop_last())
        } else {
            earlier
        }
    }
}

/// The proper ancestors of a history path, excluding the root itself:
/// `/xx/yy/zz/uuid` yields `/xx`, `/xx/yy`, `/xx/yy/zz`.
pub fn intermediate_prefixes(path: &str) -> (prefixes: Vec<String>)
    ensures
        crate::text::texts(prefixes@) == ancestors(path@),
{
    let length = path.unicode_len();
    let mut prefixes: Vec<String> = Vec::new();
    let mut slashes: usize = 0;
    let mut index: usize = 0;
    assert(path@.take(0) =~= Seq::empty());
    assert(crate::text::texts(prefixes@) =~= ancestors(path@.take(0)));
    while index < length
        invariant
            length == path@.len(),
            index <= length,
            slashes <= index,
            slashes == depth(path@.take(index as int)),
            crate::text::texts(prefixes@) == ancestors(path@.take(index as int)),
        decreases length - index,
    {
        let ghost before = crate::text::texts(prefixes@);
        let ghost shorter = path@.take(index as int);
        assert(path@.take(index as int + 1).drop_last() =~= shorter);
        if path.get_char(index) == '/' {
            if slashes > 0 {
                let prefix = path.substring_char(0, index).to_owned();
                assert(path@.subrange(0, index as int) =~= shorter);
                prefixes.push(prefix);
                assert(crate::text::texts(prefixes@) =~= before.push(shorter));
            }
            slashes = slashes + 1;
        }
        index = index + 1;
    }
    assert(path@.take(index as int) =~= path@);
    prefixes
}

/// Ancestors are ever longer, and shorter than the path.
pub proof fn lemma_ancestors_are_distinct(path: Seq<char>)
    ensures
        forall|i: int, j: int|
            0 <= i < j < ancestors(path).len() ==> (#[trigger] ancestors(path)[i]).len() < (
            #[trigger] ancestors(path)[j]).len(),
        forall|i: int|
            0 <= i < ancestors(path).len() ==> (#[trigger] ancestors(path)[i]).len() < path.len(),
    decreases path.len(),
{
    if path.len() > 0 {
        lemma_ancestors_are_distinct(path.drop_last());
        let earlier = ancestors(path.drop_last());
        let all = ancestors(path);
        assert forall|i: int| 0 <= i < all.len() implies (#[trigger] all[i]).len() < path.len() by {
            if i < earlier.len() {
                assert(all[i] == earlier[i]);
            }
        }
        assert forall|i: int, j: int| 0 <= i < j < all.len() implies (#[trigger] all[i]).len() < (
        #[trigger] all[j]).len() by {
            assert(all[i] == earlier[i]);
            if j < earlier.len() {
                assert(all[j] == earlier[j]);
            }
        }
    }
}

/// The path above a path: what comes before its last slash, unless that slash
/// is its first character or there is none.
pub open spec fn parent(path: Seq<char>) -> Option<Seq<char>>
    decreases path.len(),
{
    if path.len() == 0 {
        None
    } else if path.last() == '/' {
        if path.len() == 1 {
            None
        } else {
            Some(path.drop_last())
        }
    } else {
        parent(path.drop_last())
    }
}

/// The path above a path.
pub fn parent_path(path: &str) -> (above: Option<String>)
    ensures
        match above {
            Some(text) => parent(path@) == Some(text@),
            None => parent(path@) is None,
        },
{
    let mut length = path.unicode_len();
    assert(path@.take(path@.len() as int) =~= path@);
    while length > 0
        invariant
            length <= path@.len(),
            parent(path@.take(length as int)) == parent(path@),
        decreases length,
    {
        let ghost shown = path@.take(length as int);
        assert(shown.drop_last() =~= path@.take(length as int - 1));
        if path.get_char(length - 1) == '/' {
            if length == 1 {
                return None;
            }
            assert(path@.subrange(0, length as int - 1) =~= path@.take(length as int - 1));
            return Some(path.substring_char(0, length - 1).to_owned());
        }
        length = length - 1;
    }
    None
}

/// The path above another has fewer slashes.
pub proof fn lemma_parent_is_shallower(path: Seq<char>)
    requires
        parent(path) is Some,
    ensures
        depth(path) == depth(parent(path)->0) + 1,
    decreases path.len(),
{
    if path.last() != '/' {
        lemma_parent_is_shallower(path.drop_last());
    }
}

} // verus!
