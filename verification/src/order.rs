//! Lists of names kept in byte order without repetition.
use vstd::prelude::*;
use vstd::string::*;
use vstd::utf8::*;
use crate::text;

verus! {

/// Lexicographic order of byte sequences.
pub open spec fn bytes_less(left: Seq<u8>, right: Seq<u8>) -> bool
    decreases left.len(),
{
    if right.len() == 0 {
        false
    } else if left.len() == 0 {
        true
    } else if left[0] != right[0] {
        left[0] < right[0]
    } else {
        bytes_less(left.drop_first(), right.drop_first())
    }
}

/// The order of names: the lexicographic order of their UTF-8 bytes.
pub open spec fn text_less(left: Seq<char>, right: Seq<char>) -> bool {
    bytes_less(encode_utf8(left), encode_utf8(right))
}

/// Names in strictly ascending order, so none occurs twice.
pub open spec fn ascending(names: Seq<Seq<char>>) -> bool {
    forall|i: int, j: int|
        0 <= i < j < names.len() ==> text_less(#[trigger] names[i], #[trigger] names[j])
}

/// Two byte strings are equal, or exactly one comes first.
pub proof fn lemma_bytes_total(left: Seq<u8>, right: Seq<u8>)
    ensures
        left == right || bytes_less(left, right) || bytes_less(right, left),
        !(bytes_less(left, right) && bytes_less(right, left)),
        !bytes_less(left, left),
    decreases left.len(),
{
    if left.len() > 0 {
        lemma_bytes_total(left.drop_first(), left.drop_first());
    }
    if left.len() > 0 && right.len() > 0 {
        lemma_bytes_total(left.drop_first(), right.drop_first());
        if left[0] == right[0] && left.drop_first() == right.drop_first() {
            assert(left =~= seq![left[0]] + left.drop_first());
            assert(right =~= seq![right[0]] + right.drop_first());
        }
    } else if left.len() == 0 && right.len() == 0 {
        assert(left =~= right);
    }
}

/// The order of byte strings is transitive.
pub proof fn lemma_bytes_transitive(first: Seq<u8>, second: Seq<u8>, third: Seq<u8>)
    requires
        bytes_less(first, second),
        bytes_less(second, third),
    ensures
        bytes_less(first, third),
    decreases first.len(),
{
    if first.len() > 0 && second.len() > 0 && third.len() > 0 && first[0] == second[0]
        && second[0] == third[0] {
        lemma_bytes_transitive(first.drop_first(), second.drop_first(), third.drop_first());
    }
}

/// Any two names are equal or ordered, in one direction only.
pub proof fn lemma_text_total(left: Seq<char>, right: Seq<char>)
    ensures
        left == right || text_less(left, right) || text_less(right, left),
        !(text_less(left, right) && text_less(right, left)),
        !text_less(left, left),
{
    lemma_bytes_total(encode_utf8(left), encode_utf8(right));
    lemma_bytes_total(encode_utf8(left), encode_utf8(left));
    encode_utf8_decode_utf8(left);
    encode_utf8_decode_utf8(right);
}

/// The order of names is transitive.
pub proof fn lemma_text_transitive(first: Seq<char>, second: Seq<char>, third: Seq<char>)
    requires
        text_less(first, second),
        text_less(second, third),
    ensures
        text_less(first, third),
{
    lemma_bytes_transitive(encode_utf8(first), encode_utf8(second), encode_utf8(third));
}

/// The members of an ascending list determine it: two ascending lists with the
/// same members are the same list.
pub proof fn law_members_determine_a_sorted_list(left: Seq<Seq<char>>, right: Seq<Seq<char>>)
    requires
        ascending(left),
        ascending(right),
        left.to_set() == right.to_set(),
    ensures
        left == right,
    decreases left.len(),
{
    if left.len() == 0 {
        if right.len() > 0 {
            assert(right.to_set().contains(right[0]));
            assert(left.to_set().contains(right[0]));
        }
        assert(left =~= right);
    } else {
        assert(left.to_set().contains(left.last()));
        assert(right.to_set().contains(left.last()));
        assert(right.len() > 0);
        assert(right.to_set().contains(right.last()));
        assert(left.to_set().contains(right.last()));
        let i = choose|i: int| 0 <= i < right.len() && right[i] == left.last();
        let j = choose|j: int| 0 <= j < left.len() && left[j] == right.last();
        lemma_text_total(left.last(), right.last());
        if left.last() != right.last() {
            assert(text_less(right[i], right.last()));
            assert(text_less(left[j], left.last()));
        }
        let shorter_left = left.drop_last();
        let shorter_right = right.drop_last();
        assert forall|name: Seq<char>| shorter_left.to_set().contains(name)
            == shorter_right.to_set().contains(name) by {
            if shorter_left.contains(name) {
                let k = choose|k: int| 0 <= k < shorter_left.len() && shorter_left[k] == name;
                assert(left[k] == name);
                assert(text_less(left[k], left.last()));
                lemma_text_total(name, name);
                assert(left.to_set().contains(name));
                let m = choose|m: int| 0 <= m < right.len() && right[m] == name;
                assert(m != right.len() - 1);
                assert(shorter_right[m] == name);
            }
            if shorter_right.contains(name) {
                let k = choose|k: int| 0 <= k < shorter_right.len() && shorter_right[k] == name;
                assert(right[k] == name);
                assert(text_less(right[k], right.last()));
                lemma_text_total(name, name);
                assert(right.to_set().contains(name));
                let m = choose|m: int| 0 <= m < left.len() && left[m] == name;
                assert(m != left.len() - 1);
                assert(shorter_left[m] == name);
            }
        }
        assert(shorter_left.to_set() =~= shorter_right.to_set());
        law_members_determine_a_sorted_list(shorter_left, shorter_right);
        assert(left =~= shorter_left.push(left.last()));
        assert(right =~= shorter_right.push(right.last()));
    }
}

proof fn lemma_bytes_less_skip(left: Seq<u8>, right: Seq<u8>, count: int)
    requires
        0 <= count <= left.len(),
        count <= right.len(),
        forall|i: int| 0 <= i < count ==> left[i] == right[i],
    ensures
        bytes_less(left, right) == bytes_less(left.skip(count), right.skip(count)),
    decreases count,
{
    if count == 0 {
        assert(left.skip(0) =~= left);
        assert(right.skip(0) =~= right);
    } else {
        assert(left[0] == right[0]);
        lemma_bytes_less_skip(left.drop_first(), right.drop_first(), count - 1);
        assert(left.drop_first().skip(count - 1) =~= left.skip(count));
        assert(right.drop_first().skip(count - 1) =~= right.skip(count));
    }
}

/// Whether the first byte string comes before the second.
pub fn bytes_precede(left: &[u8], right: &[u8]) -> (less: bool)
    ensures
        less == bytes_less(left@, right@),
{
    let mut index: usize = 0;
    while index < left.len() && index < right.len() && left[index] == right[index]
        invariant
            index <= left@.len(),
            index <= right@.len(),
            forall|i: int| 0 <= i < index ==> left@[i] == right@[i],
        decreases left@.len() - index,
    {
        index = index + 1;
    }
    proof {
        lemma_bytes_less_skip(left@, right@, index as int);
    }
    if index == right.len() {
        false
    } else if index == left.len() {
        true
    } else {
        left[index] < right[index]
    }
}

/// Whether the first name comes before the second.
pub fn text_precedes(left: &str, right: &str) -> (less: bool)
    ensures
        less == text_less(left@, right@),
{
    bytes_precede(left.as_bytes(), right.as_bytes())
}

/// Whether a list holds a name.
pub fn list_contains(names: &Vec<String>, name: &String) -> (found: bool)
    ensures
        found == text::texts(names@).contains(name@),
{
    let mut index: usize = 0;
    while index < names.len()
        invariant
            index <= names@.len(),
            forall|i: int| 0 <= i < index ==> text::texts(names@)[i] != name@,
        decreases names@.len() - index,
    {
        if names[index] == *name {
            assert(text::texts(names@)[index as int] == name@);
            return true;
        }
        index = index + 1;
    }
    false
}

/// Adds a name to an ascending list unless the list holds it already.
pub fn insert_name(names: &mut Vec<String>, name: String)
    requires
        ascending(text::texts(old(names)@)),
    ensures
        ascending(text::texts(final(names)@)),
        text::texts(final(names)@).to_set() == text::texts(old(names)@).to_set().insert(name@),
{
    let ghost before = text::texts(names@);
    let mut index: usize = 0;
    while index < names.len() && text_precedes(names[index].as_str(), name.as_str())
        invariant
            index <= names@.len(),
            text::texts(names@) == before,
            ascending(before),
            forall|i: int| 0 <= i < index ==> text_less(#[trigger] before[i], name@),
        decreases names@.len() - index,
    {
        index = index + 1;
    }
    if index < names.len() && names[index] == name {
        assert(before[index as int] == name@);
        assert(before.to_set().insert(name@) =~= before.to_set());
        return;
    }
    proof {
        assert forall|i: int| index <= i < before.len() implies text_less(
            name@,
            #[trigger] before[i],
        ) by {
            lemma_text_total(before[index as int], name@);
            if i > index {
                lemma_text_transitive(name@, before[index as int], before[i]);
            }
        }
    }
    let ghost value = name@;
    names.insert(index, name);
    proof {
        let after = text::texts(names@);
        assert(after =~= before.insert(index as int, value));
        assert forall|i: int, j: int| 0 <= i < j < after.len() implies text_less(
            #[trigger] after[i],
            #[trigger] after[j],
        ) by {
            let left = if i < index { i } else { i - 1 };
            let right = if j < index { j } else { j - 1 };
            if i != index {
                assert(after[i] == before[left]);
            }
            if j != index {
                assert(after[j] == before[right]);
            }
        }
        assert forall|text: Seq<char>| after.to_set().contains(text)
            == before.to_set().insert(value).contains(text) by {
            if after.contains(text) {
                let k = choose|k: int| 0 <= k < after.len() && after[k] == text;
                if k < index {
                    assert(before[k] == text);
                } else if k > index {
                    assert(before[k - 1] == text);
                }
            }
            if before.contains(text) {
                let k = choose|k: int| 0 <= k < before.len() && before[k] == text;
                if k < index {
                    assert(after[k] == text);
                } else {
                    assert(after[k + 1] == text);
                }
            }
            assert(after[index as int] == value);
        }
        assert(after.to_set() =~= before.to_set().insert(value));
    }
}

/// The members of a list in byte order, each once.
pub fn sorted_distinct(names: &Vec<String>) -> (sorted: Vec<String>)
    ensures
        ascending(text::texts(sorted@)),
        text::texts(sorted@).to_set() == text::texts(names@).to_set(),
{
    let mut sorted: Vec<String> = Vec::new();
    let mut index: usize = 0;
    assert(text::texts(sorted@).to_set() =~= text::texts(names@).take(0).to_set());
    while index < names.len()
        invariant
            index <= names@.len(),
            ascending(text::texts(sorted@)),
            text::texts(sorted@).to_set() == text::texts(names@).take(index as int).to_set(),
        decreases names@.len() - index,
    {
        insert_name(&mut sorted, names[index].clone());
        proof {
            let shorter = text::texts(names@).take(index as int);
            let longer = text::texts(names@).take(index as int + 1);
            assert(longer =~= shorter.push(text::texts(names@)[index as int]));
            shorter.lemma_push_to_set_commute(text::texts(names@)[index as int]);
        }
        index = index + 1;
    }
    assert(text::texts(names@).take(names@.len() as int) =~= text::texts(names@));
    sorted
}

} // verus!
