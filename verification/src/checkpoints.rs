//! Planning checkpoint removal, including the asynchronous references that
//! still hold a checkpoint.
use vstd::prelude::*;
use vstd::string::*;
use crate::content::{PropertyState, PropertyValue, PropertyValues};
use crate::options::{CompactionOptions, MaintenanceTask};
use crate::order;
use crate::order::{insert_name, list_contains};
use crate::planning::CheckpointPlan;
use crate::text;

verus! {

/// One checkpoint of the store.
#[derive(Debug)]
pub struct CheckpointFacts {
    /// Its name.
    pub name: String,
    /// Its `timestamp` property, when it has one.
    pub timestamp: Option<PropertyState>,
}

/// The timestamp of a checkpoint, when it is a single number.
pub open spec fn valid_timestamp(checkpoint: CheckpointFacts) -> Option<i64> {
    match checkpoint.timestamp {
        Some(property) => match property.values {
            PropertyValues::Single(PropertyValue::Long(timestamp)) => Some(timestamp),
            _ => None,
        },
        None => None,
    }
}

/// Whether a checkpoint's valid timestamp is strictly before now.
pub open spec fn is_expired(checkpoint: CheckpointFacts, now_milliseconds: i64) -> bool {
    valid_timestamp(checkpoint) matches Some(timestamp) && now_milliseconds > timestamp
}

/// The warning about a checkpoint whose timestamp says nothing.
pub open spec fn timestamp_warning(checkpoint: CheckpointFacts) -> Option<Seq<char>> {
    if valid_timestamp(checkpoint) is Some {
        None
    } else if checkpoint.timestamp is Some {
        Some(
            "checkpoint "@ + checkpoint.name@
                + " has a malformed timestamp and was not selected by expiry"@,
        )
    } else {
        Some(
            "checkpoint "@ + checkpoint.name@ + " has no timestamp and was not selected by expiry"@,
        )
    }
}

/// The warnings about checkpoints whose timestamp says nothing, in order.
pub open spec fn timestamp_warnings(checkpoints: Seq<CheckpointFacts>) -> Seq<Seq<char>>
    decreases checkpoints.len(),
{
    if checkpoints.len() == 0 {
        Seq::empty()
    } else {
        let earlier = timestamp_warnings(checkpoints.drop_last());
        match timestamp_warning(checkpoints.last()) {
            Some(warning) => earlier.push(warning),
            None => earlier,
        }
    }
}

/// The names that expiry selects.
pub open spec fn expired_names(
    checkpoints: Seq<CheckpointFacts>,
    now_milliseconds: i64,
    selected: bool,
) -> Set<Seq<char>> {
    Set::new(
        |name: Seq<char>|
            selected && exists|i: int|
                0 <= i < checkpoints.len() && (#[trigger] checkpoints[i]).name@ == name
                    && is_expired(checkpoints[i], now_milliseconds),
    )
}

/// The names that only the missing reference selects: not referenced, and not
/// expired.
pub open spec fn unreferenced_names(
    checkpoints: Seq<CheckpointFacts>,
    referenced: Set<Seq<char>>,
    now_milliseconds: i64,
    expiry_selected: bool,
    selected: bool,
) -> Set<Seq<char>> {
    Set::new(
        |name: Seq<char>|
            selected && !referenced.contains(name) && exists|i: int|
                0 <= i < checkpoints.len() && (#[trigger] checkpoints[i]).name@ == name
                    && !expired_names(
                    checkpoints.take(i + 1),
                    now_milliseconds,
                    expiry_selected,
                ).contains(name),
    )
}

/// The strings that a value of `/:async` state refers to.
pub open spec fn referenced_by(property: PropertyState) -> Set<Seq<char>> {
    Set::new(
        |name: Seq<char>|
            exists|i: int|
                0 <= i < property.all().len() && (#[trigger] property.all()[i] matches
                    PropertyValue::String(value) && value@ == name),
    )
}

/// The strings that the `/:async` state refers to.
pub open spec fn async_references(properties: Seq<PropertyState>) -> Set<Seq<char>> {
    Set::new(
        |name: Seq<char>|
            exists|i: int|
                0 <= i < properties.len() && #[trigger] referenced_by(properties[i]).contains(name),
    )
}

/// Collects the string values, single or multiple, of the `/:async` state.
pub fn async_checkpoint_references(properties: &Vec<PropertyState>) -> (referenced: Vec<String>)
    ensures
        text::texts(referenced@).to_set() == async_references(properties@),
{
    let mut referenced: Vec<String> = Vec::new();
    let mut index: usize = 0;
    assert(text::texts(referenced@).to_set() =~= async_references(properties@.take(0)));
    while index < properties.len()
        invariant
            index <= properties@.len(),
            text::texts(referenced@).to_set() == async_references(properties@.take(index as int)),
        decreases properties@.len() - index,
    {
        let property = &properties[index];
        let ghost before = text::texts(referenced@);
        let mut position: usize = 0;
        while position < property.value_count()
            invariant
                position <= property.all().len(),
                forall|name: Seq<char>|
                    text::texts(referenced@).contains(name) <==> before.contains(name) || exists|
                        i: int,
                    |
                        0 <= i < position && (#[trigger] property.all()[i] matches
                            PropertyValue::String(value) && value@ == name),
            decreases property.all().len() - position,
        {
            let ghost middle = text::texts(referenced@);
            match property.value_at(position) {
                PropertyValue::String(value) => {
                    referenced.push(value.clone());
                    assert(text::texts(referenced@) =~= middle.push(value@));
                },
                _ => {},
            }
            proof {
                let after = text::texts(referenced@);
                assert forall|name: Seq<char>| after.contains(name) <==> before.contains(name)
                    || exists|i: int|
                    0 <= i < position + 1 && (#[trigger] property.all()[i] matches
                        PropertyValue::String(value) && value@ == name) by {
                    if after.contains(name) {
                        let k = choose|k: int| 0 <= k < after.len() && after[k] == name;
                        if k < middle.len() {
                            assert(middle[k] == name);
                            assert(middle.contains(name));
                        } else {
                            assert(property.all()[position as int] matches PropertyValue::String(
                                value,
                            ) && value@ == name);
                        }
                    }
                    if middle.contains(name) {
                        let k = choose|k: int| 0 <= k < middle.len() && middle[k] == name;
                        assert(after[k] == name);
                    }
                    if before.contains(name) {
                        assert(middle.contains(name));
                    }
                    if exists|i: int|
                        0 <= i < position + 1 && (#[trigger] property.all()[i] matches
                            PropertyValue::String(value) && value@ == name) {
                        let i = choose|i: int|
                            0 <= i < position + 1 && (#[trigger] property.all()[i] matches
                                PropertyValue::String(value) && value@ == name);
                        if i < position {
                            assert(middle.contains(name));
                        } else {
                            assert(after[middle.len() as int] == name);
                        }
                    }
                }
            }
            position = position + 1;
        }
        proof {
            let shorter = properties@.take(index as int);
            let longer = properties@.take(index as int + 1);
            let after = text::texts(referenced@);
            assert forall|name: Seq<char>| after.to_set().contains(name) == async_references(
                longer,
            ).contains(name) by {
                assert(before.to_set().contains(name) == async_references(shorter).contains(name));
                if async_references(longer).contains(name) {
                    let i = choose|i: int|
                        0 <= i < longer.len() && #[trigger] referenced_by(longer[i]).contains(name);
                    if i < index {
                        assert(referenced_by(shorter[i]).contains(name));
                    } else {
                        assert(longer[i] == *property);
                    }
                }
                if async_references(shorter).contains(name) {
                    let i = choose|i: int|
                        0 <= i < shorter.len() && #[trigger] referenced_by(shorter[i]).contains(
                            name,
                        );
                    assert(referenced_by(longer[i]).contains(name));
                }
                if referenced_by(*property).contains(name) {
                    assert(referenced_by(longer[index as int]).contains(name));
                }
            }
            assert(after.to_set() =~= async_references(longer));
        }
        index = index + 1;
    }
    assert(properties@.take(index as int) =~= properties@);
    referenced
}

/// Milliseconds since the epoch, for a clock that may stand before it or too
/// far after it.
pub fn clamped_milliseconds(since_epoch: Option<u128>) -> (milliseconds: i64)
    ensures
        milliseconds == match since_epoch {
            Some(elapsed) => if elapsed > i64::MAX {
                i64::MAX as int
            } else {
                elapsed as int
            },
            None => 0int,
        },
{
    match since_epoch {
        Some(elapsed) => {
            if elapsed > i64::MAX as u128 {
                i64::MAX
            } else {
                elapsed as i64
            }
        },
        None => 0,
    }
}

/// Whether a plan names exactly the checkpoints that the options select.
pub open spec fn plans(
    plan: CheckpointPlan,
    expired: Set<Seq<char>>,
    unreferenced: Set<Seq<char>>,
) -> bool {
    &&& order::ascending(text::texts(plan.names@))
    &&& text::texts(plan.names@).to_set() == expired.union(unreferenced)
    &&& plan.expired == expired.len()
    &&& plan.unreferenced == unreferenced.len()
}

proof fn lemma_ascending_distinct(names: Seq<Seq<char>>)
    requires
        order::ascending(names),
    ensures
        names.no_duplicates(),
        names.to_set().finite(),
        names.to_set().len() == names.len(),
{
    assert forall|i: int, j: int| 0 <= i < j < names.len() implies names[i] != names[j] by {
        assert(order::text_less(names[i], names[j]));
        order::lemma_text_total(names[i], names[i]);
    }
    names.unique_seq_to_set();
    vstd::seq_lib::seq_to_set_is_finite(names);
}

fn timestamp_of(checkpoint: &CheckpointFacts) -> (timestamp: Option<i64>)
    ensures
        timestamp == valid_timestamp(*checkpoint),
{
    match &checkpoint.timestamp {
        Some(property) => match &property.values {
            PropertyValues::Single(PropertyValue::Long(timestamp)) => Some(*timestamp),
            _ => None,
        },
        None => None,
    }
}

/// Selects the checkpoints that a run removes: the expired ones, and the
/// unreferenced ones where that task is selected too. The async state is read
/// only for the latter.
pub fn plan_checkpoints(
    checkpoints: &Vec<CheckpointFacts>,
    async_properties: &Vec<PropertyState>,
    options: &CompactionOptions,
    now_milliseconds: i64,
    warnings: &mut Vec<String>,
) -> (plan: CheckpointPlan)
    ensures
        ({
            let expiry = options@.tasks.contains(MaintenanceTask::ExpiredCheckpoints);
            let references = options@.tasks.contains(MaintenanceTask::UnreferencedCheckpoints);
            &&& plans(
                plan,
                expired_names(checkpoints@, now_milliseconds, expiry),
                unreferenced_names(
                    checkpoints@,
                    async_references(async_properties@),
                    now_milliseconds,
                    expiry,
                    references,
                ),
            )
            &&& text::texts(final(warnings)@) == text::texts(old(warnings)@) + (if expiry {
                timestamp_warnings(checkpoints@)
            } else {
                Seq::empty()
            })
        }),
{
    let expiry = options.contains(MaintenanceTask::ExpiredCheckpoints);
    let by_reference = options.contains(MaintenanceTask::UnreferencedCheckpoints);
    let referenced = if by_reference {
        async_checkpoint_references(async_properties)
    } else {
        Vec::new()
    };
    let ghost kept = async_references(async_properties@);
    let ghost warned_before = text::texts(warnings@);
    let mut expired: Vec<String> = Vec::new();
    let mut unreferenced: Vec<String> = Vec::new();
    let mut index: usize = 0;
    proof {
        let none = checkpoints@.take(0);
        assert(text::texts(expired@).to_set() =~= expired_names(none, now_milliseconds, expiry));
        assert(text::texts(unreferenced@).to_set() =~= unreferenced_names(
            none,
            kept,
            now_milliseconds,
            expiry,
            by_reference,
        ));
        assert(warned_before + (if expiry {
            timestamp_warnings(none)
        } else {
            Seq::empty()
        }) =~= warned_before);
    }
    while index < checkpoints.len()
        invariant
            index <= checkpoints@.len(),
            by_reference ==> text::texts(referenced@).to_set() == kept,
            order::ascending(text::texts(expired@)),
            order::ascending(text::texts(unreferenced@)),
            text::texts(expired@).to_set() == expired_names(
                checkpoints@.take(index as int),
                now_milliseconds,
                expiry,
            ),
            text::texts(unreferenced@).to_set() == unreferenced_names(
                checkpoints@.take(index as int),
                kept,
                now_milliseconds,
                expiry,
                by_reference,
            ),
            text::texts(warnings@) == warned_before + (if expiry {
                timestamp_warnings(checkpoints@.take(index as int))
            } else {
                Seq::empty()
            }),
        decreases checkpoints@.len() - index,
    {
        let checkpoint = &checkpoints[index];
        let ghost shorter = checkpoints@.take(index as int);
        let ghost longer = checkpoints@.take(index as int + 1);
        proof {
            assert(longer.drop_last() =~= shorter);
            assert(longer.last() == *checkpoint);
        }
        if expiry {
            let ghost warned = text::texts(warnings@);
            match timestamp_of(checkpoint) {
                Some(timestamp) => {
                    if now_milliseconds > timestamp {
                        insert_name(&mut expired, checkpoint.name.clone());
                    }
                },
                None => {
                    let mut warning = String::from_str("checkpoint ");
                    warning.append(checkpoint.name.as_str());
                    if checkpoint.timestamp.is_some() {
                        warning.append(" has a malformed timestamp and was not selected by expiry");
                    } else {
                        warning.append(" has no timestamp and was not selected by expiry");
                    }
                    let ghost stated = warning@;
                    warnings.push(warning);
                    proof {
                        assert(timestamp_warning(*checkpoint) == Some(stated));
                        assert(text::texts(warnings@) =~= warned.push(stated));
                    }
                },
            }
            assert(text::texts(warnings@) =~= warned_before + timestamp_warnings(longer));
        }
        proof {
            assert forall|name: Seq<char>| text::texts(expired@).to_set().contains(name)
                == expired_names(longer, now_milliseconds, expiry).contains(name) by {
                lemma_expired_step(shorter, *checkpoint, now_milliseconds, expiry, name);
                assert(shorter.push(*checkpoint) =~= longer);
            }
            assert(text::texts(expired@).to_set() =~= expired_names(
                longer,
                now_milliseconds,
                expiry,
            ));
        }
        if by_reference && !list_contains(&referenced, &checkpoint.name) && !list_contains(
            &expired,
            &checkpoint.name,
        ) {
            insert_name(&mut unreferenced, checkpoint.name.clone());
        }
        proof {
            assert(by_reference ==> (text::texts(referenced@).contains(checkpoint.name@)
                == kept.contains(checkpoint.name@)));
            assert(text::texts(expired@).to_set().contains(checkpoint.name@) == text::texts(
                expired@,
            ).contains(checkpoint.name@));
            assert forall|name: Seq<char>| text::texts(unreferenced@).to_set().contains(name)
                == unreferenced_names(
                longer,
                kept,
                now_milliseconds,
                expiry,
                by_reference,
            ).contains(name) by {
                lemma_unreferenced_step(
                    shorter,
                    *checkpoint,
                    kept,
                    now_milliseconds,
                    expiry,
                    by_reference,
                    name,
                );
                assert(shorter.push(*checkpoint) =~= longer);
            }
            assert(text::texts(unreferenced@).to_set() =~= unreferenced_names(
                longer,
                kept,
                now_milliseconds,
                expiry,
                by_reference,
            ));
        }
        index = index + 1;
    }
    assert(checkpoints@.take(index as int) =~= checkpoints@);
    proof {
        lemma_ascending_distinct(text::texts(expired@));
        lemma_ascending_distinct(text::texts(unreferenced@));
    }
    let expired_count: usize = expired.len();
    let unreferenced_count: usize = unreferenced.len();
    let mut names = expired;
    let mut position: usize = 0;
    let ghost first = text::texts(names@).to_set();
    assert(first =~= first.union(text::texts(unreferenced@).take(0).to_set()));
    while position < unreferenced.len()
        invariant
            position <= unreferenced@.len(),
            order::ascending(text::texts(names@)),
            text::texts(names@).to_set() == first.union(
                text::texts(unreferenced@).take(position as int).to_set(),
            ),
        decreases unreferenced@.len() - position,
    {
        insert_name(&mut names, unreferenced[position].clone());
        proof {
            let taken = text::texts(unreferenced@).take(position as int);
            let next = text::texts(unreferenced@)[position as int];
            assert(text::texts(unreferenced@).take(position as int + 1) =~= taken.push(next));
            taken.lemma_push_to_set_commute(next);
            assert(first.union(taken.to_set()).insert(next) =~= first.union(
                taken.to_set().insert(next),
            ));
        }
        position = position + 1;
    }
    assert(text::texts(unreferenced@).take(position as int) =~= text::texts(unreferenced@));
    CheckpointPlan { names, expired: expired_count, unreferenced: unreferenced_count }
}

proof fn lemma_expired_step(
    shorter: Seq<CheckpointFacts>,
    checkpoint: CheckpointFacts,
    now_milliseconds: i64,
    expiry: bool,
    name: Seq<char>,
)
    ensures
        expired_names(shorter.push(checkpoint), now_milliseconds, expiry).contains(name) == (
        expired_names(shorter, now_milliseconds, expiry).contains(name) || (expiry
            && checkpoint.name@ == name && is_expired(checkpoint, now_milliseconds))),
{
    let longer = shorter.push(checkpoint);
    if expired_names(longer, now_milliseconds, expiry).contains(name) {
        let i = choose|i: int|
            0 <= i < longer.len() && (#[trigger] longer[i]).name@ == name && is_expired(
                longer[i],
                now_milliseconds,
            );
        if i < shorter.len() {
            assert(shorter[i] == longer[i]);
        }
    }
    if expired_names(shorter, now_milliseconds, expiry).contains(name) {
        let i = choose|i: int|
            0 <= i < shorter.len() && (#[trigger] shorter[i]).name@ == name && is_expired(
                shorter[i],
                now_milliseconds,
            );
        assert(longer[i] == shorter[i]);
    }
    assert(longer[shorter.len() as int] == checkpoint);
}

proof fn lemma_unreferenced_step(
    shorter: Seq<CheckpointFacts>,
    checkpoint: CheckpointFacts,
    referenced: Set<Seq<char>>,
    now_milliseconds: i64,
    expiry: bool,
    selected: bool,
    name: Seq<char>,
)
    ensures
        unreferenced_names(
            shorter.push(checkpoint),
            referenced,
            now_milliseconds,
            expiry,
            selected,
        ).contains(name) == (unreferenced_names(
            shorter,
            referenced,
            now_milliseconds,
            expiry,
            selected,
        ).contains(name) || (selected && !referenced.contains(name) && checkpoint.name@ == name
            && !expired_names(shorter.push(checkpoint), now_milliseconds, expiry).contains(name))),
{
    let longer = shorter.push(checkpoint);
    assert(longer.take(longer.len() as int) =~= longer);
    if unreferenced_names(longer, referenced, now_milliseconds, expiry, selected).contains(name) {
        let i = choose|i: int|
            0 <= i < longer.len() && (#[trigger] longer[i]).name@ == name && !expired_names(
                longer.take(i + 1),
                now_milliseconds,
                expiry,
            ).contains(name);
        if i < shorter.len() {
            assert(shorter[i] == longer[i]);
            assert(shorter.take(i + 1) =~= longer.take(i + 1));
        }
    }
    if unreferenced_names(shorter, referenced, now_milliseconds, expiry, selected).contains(name) {
        let i = choose|i: int|
            0 <= i < shorter.len() && (#[trigger] shorter[i]).name@ == name && !expired_names(
                shorter.take(i + 1),
                now_milliseconds,
                expiry,
            ).contains(name);
        assert(longer[i] == shorter[i]);
        assert(shorter.take(i + 1) =~= longer.take(i + 1));
    }
    assert(longer[shorter.len() as int] == checkpoint);
}

/// Where no two checkpoints have the same name, a removed checkpoint counts
/// once: as expired, or else as unreferenced.
pub proof fn law_every_removed_checkpoint_counts_once(
    checkpoints: Seq<CheckpointFacts>,
    referenced: Set<Seq<char>>,
    now_milliseconds: i64,
    expiry: bool,
    selected: bool,
    plan: CheckpointPlan,
)
    requires
        forall|i: int, j: int|
            0 <= i < j < checkpoints.len() ==> (#[trigger] checkpoints[i]).name@ != (
            #[trigger] checkpoints[j]).name@,
        plans(
            plan,
            expired_names(checkpoints, now_milliseconds, expiry),
            unreferenced_names(checkpoints, referenced, now_milliseconds, expiry, selected),
        ),
    ensures
        plan.names@.len() == plan.expired + plan.unreferenced,
{
    let expired = expired_names(checkpoints, now_milliseconds, expiry);
    let unreferenced = unreferenced_names(
        checkpoints,
        referenced,
        now_milliseconds,
        expiry,
        selected,
    );
    assert forall|name: Seq<char>| expired.contains(name) implies !unreferenced.contains(name) by {
        let i = choose|i: int|
            0 <= i < checkpoints.len() && (#[trigger] checkpoints[i]).name@ == name && is_expired(
                checkpoints[i],
                now_milliseconds,
            );
        if unreferenced.contains(name) {
            let j = choose|j: int|
                0 <= j < checkpoints.len() && (#[trigger] checkpoints[j]).name@ == name
                    && !expired_names(
                    checkpoints.take(j + 1),
                    now_milliseconds,
                    expiry,
                ).contains(name);
            assert(i == j);
            assert(checkpoints.take(j + 1)[i] == checkpoints[i]);
        }
    }
    lemma_ascending_distinct(text::texts(plan.names@));
    let all = text::texts(plan.names@).to_set();
    assert(expired =~= all.intersect(expired));
    assert(unreferenced =~= all.intersect(unreferenced));
    assert(expired.disjoint(unreferenced));
    vstd::set_lib::lemma_set_disjoint_lens(expired, unreferenced);
}

/// Whether some checkpoints are left of others, once those of some names are
/// gone.
pub open spec fn are_left(
    left: Seq<CheckpointFacts>,
    before: Seq<CheckpointFacts>,
    gone: Set<Seq<char>>,
) -> bool {
    forall|i: int|
        0 <= i < left.len() ==> !gone.contains((#[trigger] left[i]).name@) && before.contains(
            left[i],
        )
}

/// A removal of checkpoints leaves none to remove: with the selected ones gone,
/// the same options select nothing at the same moment.
pub proof fn law_a_removal_leaves_no_checkpoint_to_remove(
    before: Seq<CheckpointFacts>,
    left: Seq<CheckpointFacts>,
    referenced: Set<Seq<char>>,
    now_milliseconds: i64,
    expiry: bool,
    references: bool,
    removed: CheckpointPlan,
    again: CheckpointPlan,
)
    requires
        plans(
            removed,
            expired_names(before, now_milliseconds, expiry),
            unreferenced_names(before, referenced, now_milliseconds, expiry, references),
        ),
        are_left(left, before, text::texts(removed.names@).to_set()),
        plans(
            again,
            expired_names(left, now_milliseconds, expiry),
            unreferenced_names(left, referenced, now_milliseconds, expiry, references),
        ),
    ensures
        again.names@.len() == 0,
{
    let gone = text::texts(removed.names@).to_set();
    let first_expired = expired_names(before, now_milliseconds, expiry);
    if again.names@.len() > 0 {
        let name = text::texts(again.names@)[0];
        assert(text::texts(again.names@).to_set().contains(name));
        let i = choose|i: int| 0 <= i < left.len() && (#[trigger] left[i]).name@ == name && (
        is_expired(left[i], now_milliseconds) && expiry || references && !referenced.contains(
            name,
        ));
        let j = choose|j: int| 0 <= j < before.len() && before[j] == left[i];
        assert(before[j].name@ == name);
        assert(!gone.contains(name));
        if expired_names(left, now_milliseconds, expiry).contains(name) {
            let k = choose|k: int|
                0 <= k < left.len() && (#[trigger] left[k]).name@ == name && is_expired(
                    left[k],
                    now_milliseconds,
                );
            let m = choose|m: int| 0 <= m < before.len() && before[m] == left[k];
            assert(before[m].name@ == name && is_expired(before[m], now_milliseconds));
            assert(first_expired.contains(name));
        } else {
            assert(references && !referenced.contains(name));
            if !first_expired.contains(name) {
                let seen = before.take(j + 1);
                if expired_names(seen, now_milliseconds, expiry).contains(name) {
                    let k = choose|k: int|
                        0 <= k < seen.len() && (#[trigger] seen[k]).name@ == name && is_expired(
                            seen[k],
                            now_milliseconds,
                        );
                    assert(before[k] == seen[k]);
                }
                assert(unreferenced_names(
                    before,
                    referenced,
                    now_milliseconds,
                    expiry,
                    references,
                ).contains(name));
            }
        }
    }
}

} // verus!
