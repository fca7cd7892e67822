//! Which checkpoints a run removes, in terms of the properties that it reads.
use vstd::prelude::*;
use vstd::string::*;
use crate::checkpoints;
use crate::checkpoints::CheckpointFacts;
use crate::content::{PropertyState, PropertyValue, PropertyValues};
use crate::planning::CheckpointPlan;
use crate::text;

verus! {

/// Whether a property has this text as its one string, or as a string at any
/// place among many values.
pub open spec fn holds_string(property: PropertyState, wanted: Seq<char>) -> bool {
    match property.values {
        PropertyValues::Single(value) => value matches PropertyValue::String(string) && string@
            == wanted,
        PropertyValues::Multiple(values) => exists|k: int|
            0 <= k < values@.len() && (#[trigger] values@[k] matches PropertyValue::String(string)
                && string@ == wanted),
    }
}

/// Whether some property of `/:async` has this text as a string.
pub open spec fn async_holds(properties: Seq<PropertyState>, wanted: Seq<char>) -> bool {
    exists|p: int| 0 <= p < properties.len() && #[trigger] holds_string(properties[p], wanted)
}

/// Whether the timestamp of a checkpoint is one number, and an earlier one than
/// now.
pub open spec fn has_run_out(checkpoint: CheckpointFacts, now_milliseconds: i64) -> bool {
    &&& checkpoint.timestamp matches Some(property)
    &&& property.values matches PropertyValues::Single(value)
    &&& value matches PropertyValue::Long(timestamp)
    &&& timestamp < now_milliseconds
}

/// Every string value of every property of `/:async` is among the collected
/// references, at whatever place it stands; and nothing else is.
pub proof fn law_every_async_string_is_a_reference(
    properties: Seq<PropertyState>,
    referenced: Seq<String>,
    property: int,
)
    requires
        text::texts(referenced).to_set() == checkpoints::async_references(properties),
        0 <= property < properties.len(),
    ensures
        match properties[property].values {
            PropertyValues::Single(value) => value matches PropertyValue::String(string)
                ==> text::texts(referenced).contains(string@),
            PropertyValues::Multiple(values) => forall|k: int|
                0 <= k < values@.len() && #[trigger] values@[k] is String ==> text::texts(
                    referenced,
                ).contains(values@[k]->String_0@),
        },
        forall|name: Seq<char>| #[trigger]
            text::texts(referenced).contains(name) ==> async_holds(properties, name),
{
    let collected = text::texts(referenced);
    match properties[property].values {
        PropertyValues::Single(value) => {
            if let PropertyValue::String(string) = value {
                assert(holds_string(properties[property], string@));
                lemma_references(properties, string@);
                assert(collected.to_set().contains(string@));
            }
        },
        PropertyValues::Multiple(values) => {
            assert forall|k: int|
                0 <= k < values@.len() && #[trigger] values@[k] is String implies collected.contains(
                values@[k]->String_0@,
            ) by {
                let wanted = values@[k]->String_0@;
                assert(holds_string(properties[property], wanted));
                lemma_references(properties, wanted);
                assert(collected.to_set().contains(wanted));
            }
        },
    }
    assert forall|name: Seq<char>| #[trigger] collected.contains(name) implies async_holds(
        properties,
        name,
    ) by {
        assert(collected.to_set().contains(name));
        lemma_references(properties, name);
    }
}

proof fn lemma_references(properties: Seq<PropertyState>, wanted: Seq<char>)
    ensures
        checkpoints::async_references(properties).contains(wanted) <==> async_holds(
            properties,
            wanted,
        ),
{
    assert forall|p: int|
        0 <= p < properties.len() implies #[trigger] checkpoints::referenced_by(
        properties[p],
    ).contains(wanted) == holds_string(properties[p], wanted) by {
        let all = properties[p].all();
        match properties[p].values {
            PropertyValues::Single(value) => {
                assert(all[0] == value);
            },
            PropertyValues::Multiple(values) => {
                assert(all == values@);
            },
        }
    }
    if checkpoints::async_references(properties).contains(wanted) {
        let p = choose|p: int|
            0 <= p < properties.len() && #[trigger] checkpoints::referenced_by(
                properties[p],
            ).contains(wanted);
        assert(holds_string(properties[p], wanted));
    }
    if async_holds(properties, wanted) {
        let p = choose|p: int|
            0 <= p < properties.len() && #[trigger] holds_string(properties[p], wanted);
        assert(checkpoints::referenced_by(properties[p]).contains(wanted));
    }
}

proof fn lemma_run_out(checkpoint: CheckpointFacts, now_milliseconds: i64)
    ensures
        checkpoints::is_expired(checkpoint, now_milliseconds) == has_run_out(
            checkpoint,
            now_milliseconds,
        ),
{
}

/// A run removes a checkpoint exactly if it may: as expired, where expiry is
/// selected and one of its name has a single number before now as its timestamp;
/// or as unreferenced, where that is selected and no string of `/:async` is its
/// name.
pub proof fn law_a_checkpoint_goes_exactly_if_expired_or_unreferenced(
    found: Seq<CheckpointFacts>,
    async_properties: Seq<PropertyState>,
    now_milliseconds: i64,
    expiry: bool,
    references: bool,
    plan: CheckpointPlan,
    name: Seq<char>,
)
    requires
        checkpoints::plans(
            plan,
            checkpoints::expired_names(found, now_milliseconds, expiry),
            checkpoints::unreferenced_names(
                found,
                checkpoints::async_references(async_properties),
                now_milliseconds,
                expiry,
                references,
            ),
        ),
    ensures
        text::texts(plan.names@).contains(name) <==> {
            ||| expiry && exists|i: int|
                0 <= i < found.len() && (#[trigger] found[i]).name@ == name && has_run_out(
                    found[i],
                    now_milliseconds,
                )
            ||| references && !async_holds(async_properties, name) && exists|i: int|
                0 <= i < found.len() && (#[trigger] found[i]).name@ == name
        },
{
    lemma_references(async_properties, name);
    let expired = checkpoints::expired_names(found, now_milliseconds, expiry);
    let unreferenced = checkpoints::unreferenced_names(
        found,
        checkpoints::async_references(async_properties),
        now_milliseconds,
        expiry,
        references,
    );
    assert(text::texts(plan.names@).contains(name) <==> text::texts(plan.names@).to_set().contains(
        name,
    ));
    if expired.contains(name) {
        let i = choose|i: int|
            0 <= i < found.len() && (#[trigger] found[i]).name@ == name && checkpoints::is_expired(
                found[i],
                now_milliseconds,
            );
        lemma_run_out(found[i], now_milliseconds);
    }
    if expiry && exists|i: int|
        0 <= i < found.len() && (#[trigger] found[i]).name@ == name && has_run_out(
            found[i],
            now_milliseconds,
        ) {
        let i = choose|i: int|
            0 <= i < found.len() && (#[trigger] found[i]).name@ == name && has_run_out(
                found[i],
                now_milliseconds,
            );
        lemma_run_out(found[i], now_milliseconds);
        assert(expired.contains(name));
    } else if references && !async_holds(async_properties, name) && exists|i: int|
        0 <= i < found.len() && (#[trigger] found[i]).name@ == name {
        let i = choose|i: int| 0 <= i < found.len() && (#[trigger] found[i]).name@ == name;
        let first = found.take(i + 1);
        if checkpoints::expired_names(first, now_milliseconds, expiry).contains(name) {
            let j = choose|j: int|
                0 <= j < first.len() && (#[trigger] first[j]).name@ == name
                    && checkpoints::is_expired(first[j], now_milliseconds);
            lemma_run_out(first[j], now_milliseconds);
            assert(found[j] == first[j]);
        }
        assert(unreferenced.contains(name));
    }
}

/// A checkpoint that a string of `/:async` names is spared as long as none of its
/// name has expired, wherever among the values the string stands.
pub proof fn law_a_referenced_unexpired_checkpoint_stays(
    found: Seq<CheckpointFacts>,
    async_properties: Seq<PropertyState>,
    now_milliseconds: i64,
    expiry: bool,
    references: bool,
    plan: CheckpointPlan,
    checkpoint: int,
    property: int,
)
    requires
        checkpoints::plans(
            plan,
            checkpoints::expired_names(found, now_milliseconds, expiry),
            checkpoints::unreferenced_names(
                found,
                checkpoints::async_references(async_properties),
                now_milliseconds,
                expiry,
                references,
            ),
        ),
        0 <= checkpoint < found.len(),
        0 <= property < async_properties.len(),
        holds_string(async_properties[property], found[checkpoint].name@),
        forall|i: int|
            0 <= i < found.len() && (#[trigger] found[i]).name@ == found[checkpoint].name@
                ==> !has_run_out(found[i], now_milliseconds),
    ensures
        !text::texts(plan.names@).contains(found[checkpoint].name@),
{
    law_a_checkpoint_goes_exactly_if_expired_or_unreferenced(
        found,
        async_properties,
        now_milliseconds,
        expiry,
        references,
        plan,
        found[checkpoint].name@,
    );
    assert(async_holds(async_properties, found[checkpoint].name@));
}

/// Where no two checkpoints share a name, the plan counts as expired those whose
/// timestamp has run out, and as unreferenced those that go for no other reason
/// than that nothing refers to them.
pub proof fn law_removed_checkpoints_count_by_their_reason(
    found: Seq<CheckpointFacts>,
    async_properties: Seq<PropertyState>,
    now_milliseconds: i64,
    expiry: bool,
    references: bool,
    plan: CheckpointPlan,
)
    requires
        forall|i: int, j: int|
            0 <= i < j < found.len() ==> (#[trigger] found[i]).name@ != (
            #[trigger] found[j]).name@,
        checkpoints::plans(
            plan,
            checkpoints::expired_names(found, now_milliseconds, expiry),
            checkpoints::unreferenced_names(
                found,
                checkpoints::async_references(async_properties),
                now_milliseconds,
                expiry,
                references,
            ),
        ),
    ensures
        plan.expired == places(
            found,
            |checkpoint: CheckpointFacts| expiry && has_run_out(checkpoint, now_milliseconds),
        ).len(),
        plan.unreferenced == places(
            found,
            |checkpoint: CheckpointFacts|
                references && !async_holds(async_properties, checkpoint.name@) && !(expiry
                    && has_run_out(checkpoint, now_milliseconds)),
        ).len(),
{
    let expired = checkpoints::expired_names(found, now_milliseconds, expiry);
    let unreferenced = checkpoints::unreferenced_names(
        found,
        checkpoints::async_references(async_properties),
        now_milliseconds,
        expiry,
        references,
    );
    let outlived = |checkpoint: CheckpointFacts| expiry && has_run_out(checkpoint, now_milliseconds);
    let orphaned = |checkpoint: CheckpointFacts|
        references && !async_holds(async_properties, checkpoint.name@) && !(expiry && has_run_out(
            checkpoint,
            now_milliseconds,
        ));
    assert forall|name: Seq<char>| expired.contains(name) <==> #[trigger] named_so(
        found,
        outlived,
        name,
    ) by {
        if expired.contains(name) {
            let i = choose|i: int|
                0 <= i < found.len() && (#[trigger] found[i]).name@ == name
                    && checkpoints::is_expired(found[i], now_milliseconds);
            lemma_run_out(found[i], now_milliseconds);
        }
        if named_so(found, outlived, name) {
            let i = choose|i: int|
                0 <= i < found.len() && (#[trigger] found[i]).name@ == name && outlived(found[i]);
            lemma_run_out(found[i], now_milliseconds);
        }
    }
    lemma_places_of_names(found, outlived, expired);
    assert forall|name: Seq<char>| unreferenced.contains(name) <==> #[trigger] named_so(
        found,
        orphaned,
        name,
    ) by {
        lemma_references(async_properties, name);
        if unreferenced.contains(name) {
            let i = choose|i: int|
                0 <= i < found.len() && (#[trigger] found[i]).name@ == name
                    && !checkpoints::expired_names(
                    found.take(i + 1),
                    now_milliseconds,
                    expiry,
                ).contains(name);
            lemma_run_out(found[i], now_milliseconds);
            assert(found.take(i + 1)[i] == found[i]);
            assert(orphaned(found[i]));
        }
        if named_so(found, orphaned, name) {
            let i = choose|i: int|
                0 <= i < found.len() && (#[trigger] found[i]).name@ == name && orphaned(found[i]);
            lemma_run_out(found[i], now_milliseconds);
            let first = found.take(i + 1);
            if checkpoints::expired_names(first, now_milliseconds, expiry).contains(name) {
                let j = choose|j: int|
                    0 <= j < first.len() && (#[trigger] first[j]).name@ == name
                        && checkpoints::is_expired(first[j], now_milliseconds);
                assert(found[j] == first[j]);
                assert(j == i);
            }
        }
    }
    lemma_places_of_names(found, orphaned, unreferenced);
}

/// The places of the checkpoints that some condition holds of.
pub open spec fn places(
    found: Seq<CheckpointFacts>,
    condition: spec_fn(CheckpointFacts) -> bool,
) -> Set<int> {
    Set::new(|i: int| 0 <= i < found.len() && condition(found[i]))
}

spec fn named_so(
    found: Seq<CheckpointFacts>,
    condition: spec_fn(CheckpointFacts) -> bool,
    name: Seq<char>,
) -> bool {
    exists|i: int|
        0 <= i < found.len() && (#[trigger] found[i]).name@ == name && condition(found[i])
}

proof fn lemma_places_of_names(
    found: Seq<CheckpointFacts>,
    condition: spec_fn(CheckpointFacts) -> bool,
    names: Set<Seq<char>>,
)
    requires
        forall|i: int, j: int|
            0 <= i < j < found.len() ==> (#[trigger] found[i]).name@ != (
            #[trigger] found[j]).name@,
        forall|name: Seq<char>| names.contains(name) <==> #[trigger] named_so(
            found,
            condition,
            name,
        ),
    ensures
        places(found, condition).finite(),
        names.finite(),
        places(found, condition).len() == names.len(),
    decreases found.len(),
{
    if found.len() == 0 {
        assert(places(found, condition) =~= Set::empty());
        assert forall|name: Seq<char>| !names.contains(name) by {
            assert(!named_so(found, condition, name));
        }
        assert(names =~= Set::empty());
    } else {
        let shorter = found.drop_last();
        let last = found.last();
        let kept = names.remove(last.name@);
        assert forall|name: Seq<char>| kept.contains(name) <==> #[trigger] named_so(
            shorter,
            condition,
            name,
        ) by {
            assert(names.contains(name) <==> named_so(found, condition, name));
            if named_so(shorter, condition, name) {
                let i = choose|i: int|
                    0 <= i < shorter.len() && (#[trigger] shorter[i]).name@ == name && condition(
                        shorter[i],
                    );
                assert(found[i] == shorter[i]);
                assert(named_so(found, condition, name));
            }
            if kept.contains(name) {
                let i = choose|i: int|
                    0 <= i < found.len() && (#[trigger] found[i]).name@ == name && condition(
                        found[i],
                    );
                assert(i < shorter.len());
                assert(found[i] == shorter[i]);
            }
        }
        lemma_places_of_names(shorter, condition, kept);
        let end = found.len() - 1;
        assert(names.contains(last.name@) <==> named_so(found, condition, last.name@));
        if condition(last) {
            assert(found[end] == last);
            assert(named_so(found, condition, last.name@));
            assert(places(found, condition) =~= places(shorter, condition).insert(end));
            assert(names =~= kept.insert(last.name@));
        } else {
            assert(places(found, condition) =~= places(shorter, condition));
            if names.contains(last.name@) {
                let i = choose|i: int|
                    0 <= i < found.len() && (#[trigger] found[i]).name@ == last.name@ && condition(
                        found[i],
                    );
                assert(i == end);
            }
            assert(kept =~= names);
        }
    }
}

/// Of a checkpoint whose timestamp is no single number, and of no other, expiry
/// says so: in one warning, which tells a missing timestamp from a malformed one.
pub proof fn law_a_timestamp_that_says_nothing_is_warned_about(
    earlier: Seq<CheckpointFacts>,
    checkpoint: CheckpointFacts,
)
    ensures
        checkpoints::timestamp_warnings(Seq::empty()).len() == 0,
        checkpoints::timestamp_warnings(earlier.push(checkpoint))
            == checkpoints::timestamp_warnings(earlier) + match checkpoint.timestamp {
            None => seq![
                "checkpoint "@ + checkpoint.name@
                    + " has no timestamp and was not selected by expiry"@,
            ],
            Some(property) => match property.values {
                PropertyValues::Single(PropertyValue::Long(_)) => Seq::empty(),
                _ => seq![
                    "checkpoint "@ + checkpoint.name@
                        + " has a malformed timestamp and was not selected by expiry"@,
                ],
            },
        },
{
    assert(earlier.push(checkpoint).drop_last() =~= earlier);
}

} // verus!
