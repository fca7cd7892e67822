//! Version histories under version storage, and which of them still belong to
//! a live versionable.
//!
//! Detection is two passes whose memory never depends on the order in which
//! the tree is visited: a scan of the version-storage subtree collects every
//! history's facts, the walk over the content collects the live identifiers,
//! and the two are matched once both are complete.
use std::collections::{HashMap, HashSet};
use vstd::hash_map::StringHashMap;
use vstd::prelude::*;
use vstd::std_specs::hash::*;
use vstd::string::*;
use crate::content;
use crate::content::{single_string_property, PropertyState};
use crate::identifier::{RecordIdentifier, SegmentIdentifier, SegmentSet};
use crate::number;
use crate::planning::external_binaries::ExternalBinaryCensus;
use crate::planning::history;
use crate::planning::history::{HistoryFacts, HistoryView};
use crate::planning::paths;
use crate::planning::paths::{intermediate_prefixes, parse_identifier, within};
use crate::text;
use crate::text::text_eq;

verus! {

/// How many of some paths have another path as a proper ancestor.
pub open spec fn count_under(histories: Seq<Seq<char>>, ancestor: Seq<char>) -> nat
    decreases histories.len(),
{
    if histories.len() == 0 {
        0
    } else {
        count_under(histories.drop_last(), ancestor) + if paths::ancestors(
            histories.last(),
        ).contains(ancestor) {
            1nat
        } else {
            0nat
        }
    }
}

/// No more paths lie under an ancestor than there are paths.
pub proof fn lemma_count_under_bound(histories: Seq<Seq<char>>, ancestor: Seq<char>)
    ensures
        count_under(histories, ancestor) <= histories.len(),
    decreases histories.len(),
{
    if histories.len() > 0 {
        lemma_count_under_bound(histories.drop_last(), ancestor);
    }
}

/// What a table of counts says of a path.
pub open spec fn tallied(counts: Map<Seq<char>, u64>, ancestor: Seq<char>) -> nat {
    if counts.contains_key(ancestor) {
        counts[ancestor] as nat
    } else {
        0
    }
}

/// A table counts, for every path, those of some paths that lie under it.
pub open spec fn tallies(counts: Map<Seq<char>, u64>, histories: Seq<Seq<char>>) -> bool {
    forall|ancestor: Seq<char>| #[trigger]
        tallied(counts, ancestor) == count_under(histories, ancestor)
}

/// Counts one more path under each of its ancestors.
pub(crate) fn count_ancestors(
    counts: &mut StringHashMap<u64>,
    path: &str,
    Ghost(histories): Ghost<Seq<Seq<char>>>,
)
    requires
        tallies(old(counts)@, histories),
        histories.len() < u64::MAX,
    ensures
        tallies(final(counts)@, histories.push(path@)),
{
    let prefixes = intermediate_prefixes(path);
    let ghost before = counts@;
    let ghost all = paths::ancestors(path@);
    proof {
        paths::lemma_ancestors_are_distinct(path@);
    }
    let mut index: usize = 0;
    while index < prefixes.len()
        invariant
            index <= prefixes@.len(),
            text::texts(prefixes@) == all,
            histories.len() < u64::MAX,
            tallies(before, histories),
            forall|i: int, j: int|
                0 <= i < j < all.len() ==> (#[trigger] all[i]).len() < (#[trigger] all[j]).len(),
            forall|ancestor: Seq<char>| #[trigger]
                tallied(counts@, ancestor) == tallied(before, ancestor) + if all.take(
                    index as int,
                ).contains(ancestor) {
                    1nat
                } else {
                    0nat
                },
        decreases prefixes@.len() - index,
    {
        let ghost known = counts@;
        let ghost taken = all.take(index as int);
        let ghost next = all.take(index as int + 1);
        let ghost here = all[index as int];
        assert(prefixes@[index as int]@ == here);
        proof {
            lemma_count_under_bound(histories, here);
            assert(!taken.contains(here)) by {
                if taken.contains(here) {
                    let i = choose|i: int| 0 <= i < taken.len() && taken[i] == here;
                    assert(all[i].len() < all[index as int].len());
                }
            }
            assert(tallied(known, here) == tallied(before, here));
        }
        let seen: u64 = match counts.get(prefixes[index].as_str()) {
            Some(count) => *count,
            None => 0,
        };
        assert(seen == tallied(known, here));
        counts.insert(prefixes[index].clone(), seen + 1);
        proof {
            assert(next =~= taken.push(here));
            assert forall|ancestor: Seq<char>| #[trigger]
                tallied(counts@, ancestor) == tallied(before, ancestor) + if next.contains(
                    ancestor,
                ) {
                    1nat
                } else {
                    0nat
                } by {
                assert(tallied(known, ancestor) == tallied(before, ancestor) + if taken.contains(
                    ancestor,
                ) {
                    1nat
                } else {
                    0nat
                });
                if ancestor == here {
                    assert(next[index as int] == here);
                } else if taken.contains(ancestor) {
                    let i = choose|i: int| 0 <= i < taken.len() && taken[i] == ancestor;
                    assert(next[i] == ancestor);
                } else if next.contains(ancestor) {
                    let i = choose|i: int| 0 <= i < next.len() && next[i] == ancestor;
                    assert(taken[i] == ancestor);
                }
            }
        }
        index = index + 1;
    }
    proof {
        assert(all.take(index as int) =~= all);
        assert forall|ancestor: Seq<char>| #[trigger]
            tallied(counts@, ancestor) == count_under(histories.push(path@), ancestor) by {
            assert(tallied(before, ancestor) == count_under(histories, ancestor));
            assert(histories.push(path@).drop_last() =~= histories);
        }
    }
}

/// A history node that a scan came upon.
pub struct BegunHistory {
    /// Its path below version storage.
    pub path: Seq<char>,
    /// The versionable that it names, where the name reads.
    pub versionable: Option<u128>,
}

/// The paths of the history nodes that a scan came upon.
pub open spec fn begun_paths(begun: Seq<BegunHistory>) -> Seq<Seq<char>> {
    begun.map_values(|history: BegunHistory| history.path)
}

/// The nodes that some histories hold.
pub open spec fn node_total(histories: Seq<HistoryView>) -> nat
    decreases histories.len(),
{
    if histories.len() == 0 {
        0
    } else {
        node_total(histories.drop_last()) + histories.last().nodes as nat
    }
}

/// The external references that some histories hold.
pub open spec fn reference_total(histories: Seq<HistoryView>) -> nat
    decreases histories.len(),
{
    if histories.len() == 0 {
        0
    } else {
        reference_total(histories.drop_last()) + histories.last().external_references as nat
    }
}

/// Totals move by as much as the one history that is replaced.
pub proof fn lemma_totals_of_update(histories: Seq<HistoryView>, index: int, other: HistoryView)
    requires
        0 <= index < histories.len(),
    ensures
        node_total(histories.update(index, other)) == node_total(histories)
            - histories[index].nodes + other.nodes,
        reference_total(histories.update(index, other)) == reference_total(histories)
            - histories[index].external_references + other.external_references,
    decreases histories.len(),
{
    if index == histories.len() - 1 {
        assert(histories.update(index, other).drop_last() =~= histories.drop_last());
    } else {
        lemma_totals_of_update(histories.drop_last(), index, other);
        assert(histories.update(index, other).drop_last() =~= histories.drop_last().update(
            index,
            other,
        ));
    }
}

/// One history holds no more than all of them.
pub proof fn lemma_totals_cover(histories: Seq<HistoryView>, index: int)
    requires
        0 <= index < histories.len(),
    ensures
        histories[index].nodes <= node_total(histories),
        histories[index].external_references <= reference_total(histories),
    decreases histories.len(),
{
    if index < histories.len() - 1 {
        lemma_totals_cover(histories.drop_last(), index);
    }
}

/// Some of the histories hold no more than all of them.
pub proof fn lemma_totals_of_filter(
    histories: Seq<HistoryView>,
    keeps: spec_fn(HistoryView) -> bool,
)
    ensures
        node_total(histories.filter(keeps)) <= node_total(histories),
        reference_total(histories.filter(keeps)) <= reference_total(histories),
    decreases histories.len(),
{
    reveal(Seq::filter);
    if histories.len() > 0 {
        lemma_totals_of_filter(histories.drop_last(), keeps);
        let rest = histories.drop_last().filter(keeps);
        assert(rest.push(histories.last()).drop_last() =~= rest);
    }
}

/// Every bulk segment that some histories occupy.
pub open spec fn bulk_total(histories: Seq<HistoryView>) -> Set<SegmentIdentifier>
    decreases histories.len(),
{
    if histories.len() == 0 {
        Set::empty()
    } else {
        bulk_total(histories.drop_last()).union(histories.last().bulk_segments)
    }
}

/// The versionable that a history node names.
pub open spec fn versionable_of(properties: Seq<PropertyState>) -> Option<u128> {
    match content::named_text(properties, "jcr:versionableUuid"@) {
        Some(text) => number::identifier_value(vstd::utf8::encode_utf8(text)),
        None => None,
    }
}

/// What is known of version storage.
#[verifier::ext_equal]
pub struct StorageView {
    /// The histories, one for each versionable.
    pub histories: Seq<HistoryView>,
    /// Bulk segments of histories whose versionable is alive.
    pub live_history_bulk: Set<SegmentIdentifier>,
    /// The nodes above histories: path and record.
    pub intermediates: Seq<(Seq<char>, RecordIdentifier)>,
    /// Every history node that the scan came upon.
    pub begun: Seq<BegunHistory>,
    /// How many of them name no versionable that reads.
    pub malformed_identifiers: u64,
    /// The identifiers of live content.
    pub live_identifiers: Set<u128>,
    /// How many nodes and values the scan has seen.
    pub observed: nat,
}

impl StorageView {
    /// Nothing is known.
    pub open spec fn nothing() -> Self {
        StorageView {
            histories: Seq::empty(),
            live_history_bulk: Set::empty(),
            intermediates: Seq::empty(),
            begun: Seq::empty(),
            malformed_identifiers: 0,
            live_identifiers: Set::empty(),
            observed: 0,
        }
    }

    /// Each history is the only one of its versionable, and is one that the
    /// scan came upon; no count exceeds what was seen.
    pub open spec fn consistent(self) -> bool {
        &&& forall|i: int, j: int|
            0 <= i < j < self.histories.len() ==> (#[trigger] self.histories[i]).versionable != (
            #[trigger] self.histories[j]).versionable
        &&& forall|i: int|
            0 <= i < self.histories.len() ==> self.begun.contains(
                BegunHistory {
                    path: (#[trigger] self.histories[i]).path,
                    versionable: Some(self.histories[i].versionable),
                },
            )
        &&& node_total(self.histories) <= self.observed
        &&& reference_total(self.histories) <= self.observed
        &&& self.malformed_identifiers <= self.begun.len() <= self.observed
        &&& self.observed <= u64::MAX
    }

    /// After one more live identifier.
    pub open spec fn marking(self, identifier: u128) -> Self {
        StorageView { live_identifiers: self.live_identifiers.insert(identifier), ..self }
    }

    /// Whether live content matches a history.
    pub open spec fn matched(self) -> spec_fn(HistoryView) -> bool {
        |history: HistoryView| self.live_identifiers.contains(history.versionable)
    }

    /// Whether no live content matches a history.
    pub open spec fn unmatched(self) -> spec_fn(HistoryView) -> bool {
        |history: HistoryView| !self.live_identifiers.contains(history.versionable)
    }

    /// After the matched histories were released.
    pub open spec fn resolved(self) -> Self {
        StorageView {
            histories: self.histories.filter(self.unmatched()),
            live_history_bulk: self.live_history_bulk.union(
                bulk_total(self.histories.filter(self.matched())),
            ),
            live_identifiers: Set::empty(),
            ..self
        }
    }

    /// After a history node whose versionable reads: what was known of an
    /// earlier history of that versionable is forgotten.
    pub open spec fn beginning(
        self,
        versionable: u128,
        record: RecordIdentifier,
        path: Seq<char>,
    ) -> Self {
        let history = HistoryView::begun(versionable, record, path);
        StorageView {
            histories: if exists|i: int|
                0 <= i < self.histories.len() && (#[trigger] self.histories[i]).versionable
                    == versionable {
                self.histories.map_values(
                    |other: HistoryView|
                        if other.versionable == versionable {
                            history
                        } else {
                            other
                        },
                )
            } else {
                self.histories.push(history)
            },
            begun: self.begun.push(BegunHistory { path, versionable: Some(versionable) }),
            ..self
        }
    }

    /// After a history node whose versionable does not read.
    pub open spec fn unclassified(self, path: Seq<char>) -> Self {
        StorageView {
            malformed_identifiers: (self.malformed_identifiers + 1) as u64,
            begun: self.begun.push(BegunHistory { path, versionable: None }),
            ..self
        }
    }

    /// After one more node of the history of a versionable.
    pub open spec fn attributing(
        self,
        versionable: u128,
        properties: Seq<PropertyState>,
        collect_internal_identifiers: bool,
        medium_value_limit: u64,
    ) -> Self {
        StorageView {
            histories: self.histories.map_values(
                |other: HistoryView|
                    if other.versionable == versionable {
                        other.attributed(
                            properties,
                            collect_internal_identifiers,
                            medium_value_limit,
                        )
                    } else {
                        other
                    },
            ),
            ..self
        }
    }

    /// After so much more was seen.
    pub open spec fn seeing(self, properties: Seq<PropertyState>) -> Self {
        StorageView { observed: self.observed + weight(properties), ..self }
    }
}

/// How much a node adds to what was seen: the node and its values.
pub open spec fn weight(properties: Seq<PropertyState>) -> nat {
    history::value_total(properties) + 1
}

/// The history that a scan is inside of.
pub struct Inside {
    /// The history's path.
    pub path: Seq<char>,
    /// Its versionable.
    pub versionable: u128,
}

/// Whether a path lies within the history that a scan is inside of.
pub open spec fn is_inside(current: Option<Inside>, path: Seq<char>) -> bool {
    current is Some && paths::lies_within(path, (current->0).path)
}

/// What a scan knows after one more node, and which history it is inside of.
pub open spec fn visited(
    storage: StorageView,
    current: Option<Inside>,
    path: Seq<char>,
    record: RecordIdentifier,
    properties: Seq<PropertyState>,
    collect_internal_identifiers: bool,
    medium_value_limit: u64,
) -> (StorageView, Option<Inside>) {
    if is_inside(current, path) {
        (
            storage.seeing(properties).attributing(
                (current->0).versionable,
                properties,
                collect_internal_identifiers,
                medium_value_limit,
            ),
            current,
        )
    } else if content::named_text(properties, "jcr:primaryType"@) == Some("nt:versionHistory"@) {
        match versionable_of(properties) {
            Some(versionable) => (
                storage.seeing(properties).beginning(versionable, record, path).attributing(
                    versionable,
                    properties,
                    collect_internal_identifiers,
                    medium_value_limit,
                ),
                Some(Inside { path, versionable }),
            ),
            None => (storage.seeing(properties).unclassified(path), None),
        }
    } else if path.len() > 0 {
        (
            StorageView {
                intermediates: storage.intermediates.push((path, record)),
                ..storage.seeing(properties)
            },
            None,
        )
    } else {
        (storage.seeing(properties), None)
    }
}

/// A node above histories.
#[derive(Debug)]
pub struct Intermediate {
    /// Its path below version storage.
    pub path: String,
    /// Its record.
    pub record: RecordIdentifier,
}

/// The nodes above histories: path and record.
pub open spec fn intermediate_views(intermediates: Seq<Intermediate>) -> Seq<
    (Seq<char>, RecordIdentifier),
> {
    intermediates.map_values(|node: Intermediate| (node.path@, node.record))
}

/// The histories' views.
pub open spec fn history_views(histories: Seq<HistoryFacts>) -> Seq<HistoryView> {
    histories.map_values(|facts: HistoryFacts| facts@)
}

/// What the scan of version storage collects and the walk over the content
/// resolves.
pub struct VersionStorageCensus {
    histories: Vec<HistoryFacts>,
    positions: HashMap<u128, usize>,
    live_history_bulk: SegmentSet,
    intermediates: Vec<Intermediate>,
    histories_under_intermediate: StringHashMap<u64>,
    malformed_identifiers: u64,
    total_histories: u64,
    live_identifiers: HashSet<u128>,
    begun: Ghost<Seq<BegunHistory>>,
    observed: Ghost<nat>,
}

impl View for VersionStorageCensus {
    type V = StorageView;

    closed spec fn view(&self) -> StorageView {
        StorageView {
            histories: history_views(self.histories@),
            live_history_bulk: self.live_history_bulk.listed().to_set(),
            intermediates: intermediate_views(self.intermediates@),
            begun: self.begun@,
            malformed_identifiers: self.malformed_identifiers,
            live_identifiers: self.live_identifiers@,
            observed: self.observed@,
        }
    }
}

/// What was kept so far belongs to other versionables than the next history.
proof fn lemma_filtered_differs(
    histories: Seq<HistoryView>,
    count: int,
    keeps: spec_fn(HistoryView) -> bool,
    index: int,
)
    requires
        0 <= count < histories.len(),
        forall|i: int, j: int|
            0 <= i < j < histories.len() ==> (#[trigger] histories[i]).versionable != (
            #[trigger] histories[j]).versionable,
        0 <= index < histories.take(count).filter(keeps).len(),
    ensures
        histories.take(count).filter(keeps)[index].versionable != histories[count].versionable,
{
    let taken = histories.take(count);
    let kept = taken.filter(keeps)[index];
    assert(taken.filter(keeps).contains(kept));
    taken.lemma_filter_contains_rev(keeps, kept);
    let i = choose|i: int| 0 <= i < taken.len() && taken[i] == kept;
    assert(histories[i] == kept);
}

/// Releasing histories leaves what is known consistent.
pub proof fn lemma_resolution_keeps_consistency(storage: StorageView)
    requires
        storage.consistent(),
    ensures
        storage.resolved().consistent(),
{
    let keeps = storage.unmatched();
    let kept = storage.resolved().histories;
    lemma_totals_of_filter(storage.histories, keeps);
    lemma_filter_keeps_order(storage.histories, keeps);
    assert forall|i: int| 0 <= i < kept.len() implies storage.begun.contains(
        BegunHistory {
            path: (#[trigger] kept[i]).path,
            versionable: Some(kept[i].versionable),
        },
    ) by {
        assert(kept.contains(kept[i]));
        storage.histories.lemma_filter_contains_rev(keeps, kept[i]);
        let j = choose|j: int|
            0 <= j < storage.histories.len() && storage.histories[j] == kept[i];
        assert(storage.begun.contains(
            BegunHistory {
                path: storage.histories[j].path,
                versionable: Some(storage.histories[j].versionable),
            },
        ));
    }
}

proof fn lemma_filter_keeps_order(
    histories: Seq<HistoryView>,
    keeps: spec_fn(HistoryView) -> bool,
)
    requires
        forall|i: int, j: int|
            0 <= i < j < histories.len() ==> (#[trigger] histories[i]).versionable != (
            #[trigger] histories[j]).versionable,
    ensures
        forall|i: int, j: int|
            0 <= i < j < histories.filter(keeps).len() ==> (#[trigger] histories.filter(
                keeps,
            )[i]).versionable != (#[trigger] histories.filter(keeps)[j]).versionable,
    decreases histories.len(),
{
    reveal(Seq::filter);
    if histories.len() > 0 {
        let last = histories.len() - 1;
        lemma_filter_keeps_order(histories.drop_last(), keeps);
        assert(histories.take(last) =~= histories.drop_last());
        let rest = histories.drop_last().filter(keeps);
        assert forall|i: int, j: int| 0 <= i < j < histories.filter(keeps).len() implies (
        #[trigger] histories.filter(keeps)[i]).versionable != (#[trigger] histories.filter(
            keeps,
        )[j]).versionable by {
            assert(histories.filter(keeps)[i] == rest[i]);
            if j < rest.len() {
                assert(histories.filter(keeps)[j] == rest[j]);
            } else {
                lemma_filtered_differs(histories, last, keeps, i);
            }
        }
    }
}

/// What the scan came upon stays known when it comes upon more.
proof fn lemma_births_survive(
    histories: Seq<HistoryView>,
    begun: Seq<BegunHistory>,
    more: BegunHistory,
)
    ensures
        forall|i: int|
            0 <= i < histories.len() && begun.contains(
                BegunHistory {
                    path: (#[trigger] histories[i]).path,
                    versionable: Some(histories[i].versionable),
                },
            ) ==> begun.push(more).contains(
                BegunHistory {
                    path: histories[i].path,
                    versionable: Some(histories[i].versionable),
                },
            ),
{
    assert forall|birth: BegunHistory| begun.contains(birth) implies #[trigger] begun.push(
        more,
    ).contains(birth) by {
        let i = choose|i: int| 0 <= i < begun.len() && begun[i] == birth;
        assert(begun.push(more)[i] == birth);
    }
}

/// Positions lead to histories, and every history's position is known.
spec fn indexes(positions: Map<u128, usize>, histories: Seq<HistoryFacts>) -> bool {
    &&& forall|versionable: u128| #[trigger]
        positions.contains_key(versionable) ==> positions[versionable] < histories.len()
            && histories[positions[versionable] as int].versionable == versionable
    &&& forall|i: int|
        0 <= i < histories.len() ==> positions.contains_key(
            (#[trigger] histories[i]).versionable,
        ) && positions[histories[i].versionable] == i
}

impl Default for VersionStorageCensus {
    fn default() -> (census: Self)
        ensures
            census.well_formed(),
            census@ == StorageView::nothing(),
    {
        broadcast use group_hash_axioms;

        let census = VersionStorageCensus {
            histories: Vec::new(),
            positions: HashMap::new(),
            live_history_bulk: SegmentSet::new(),
            intermediates: Vec::new(),
            histories_under_intermediate: StringHashMap::new(),
            malformed_identifiers: 0,
            total_histories: 0,
            live_identifiers: HashSet::new(),
            begun: Ghost(Seq::empty()),
            observed: Ghost(0),
        };
        assert(census@ =~= StorageView::nothing());
        census
    }
}

impl VersionStorageCensus {
    /// The histories, their index and the counts agree.
    pub closed spec fn well_formed(&self) -> bool {
        &&& indexes(self.positions@, self.histories@)
        &&& forall|i: int| 0 <= i < self.histories@.len() ==> (#[trigger] self.histories@[i])
            .well_formed()
        &&& self.live_history_bulk.well_formed()
        &&& tallies(self.histories_under_intermediate@, begun_paths(self.begun@))
        &&& self.total_histories == self.begun@.len()
        &&& self@.consistent()
    }

    /// What is known is consistent.
    pub proof fn lemma_consistent(&self)
        requires
            self.well_formed(),
        ensures
            self@.consistent(),
    {
    }

    /// Records one live identifier. The matched history, whether already
    /// known or only seen by a later scan, is released by
    /// [`Self::resolve_live_matches`].
    pub fn mark_live(&mut self, identifier: u128)
        requires
            old(self).well_formed(),
        ensures
            final(self).well_formed(),
            final(self)@ == old(self)@.marking(identifier),
    {
        broadcast use group_hash_axioms;

        let ghost before = self@;
        self.live_identifiers.insert(identifier);
        assert(self@ =~= before.marking(identifier));
    }

    /// Notes how much was seen.
    fn see(&mut self, properties: &Vec<PropertyState>)
        requires
            old(self).well_formed(),
            old(self)@.observed + weight(properties@) <= u64::MAX,
        ensures
            final(self).well_formed(),
            final(self).spare(properties@),
            final(self)@ == old(self)@.seeing(properties@),
    {
        self.observed = Ghost(self.observed@ + weight(properties@));
    }

    /// Whether the counts leave room for one more node.
    spec fn spare(&self, properties: Seq<PropertyState>) -> bool {
        &&& node_total(self@.histories) + 1 <= self@.observed
        &&& reference_total(self@.histories) + history::value_total(properties)
            <= self@.observed
        &&& self@.begun.len() < self@.observed
    }

    fn add_intermediate(&mut self, path: &str, record: RecordIdentifier)
        requires
            old(self).well_formed(),
        ensures
            final(self).well_formed(),
            final(self)@ == (StorageView {
                intermediates: old(self)@.intermediates.push((path@, record)),
                ..old(self)@
            }),
    {
        let ghost before = self@;
        self.intermediates.push(Intermediate { path: path.to_owned(), record });
        assert(self@.intermediates =~= before.intermediates.push((path@, record)));
    }

    fn begin_unclassified(&mut self, path: &str)
        requires
            old(self).well_formed(),
            old(self)@.begun.len() < old(self)@.observed,
        ensures
            final(self).well_formed(),
            final(self)@ == old(self)@.unclassified(path@),
    {
        let ghost before = self@;
        let ghost begun = BegunHistory { path: path@, versionable: None };
        count_ancestors(
            &mut self.histories_under_intermediate,
            path,
            Ghost(begun_paths(self.begun@)),
        );
        self.total_histories = self.total_histories + 1;
        self.malformed_identifiers = self.malformed_identifiers + 1;
        self.begun = Ghost(self.begun@.push(begun));
        proof {
            assert(begun_paths(before.begun.push(begun)) =~= begun_paths(before.begun).push(path@));
            lemma_births_survive(before.histories, before.begun, begun);
        }
    }

    fn begin(&mut self, versionable: u128, record: RecordIdentifier, path: &str)
        requires
            old(self).well_formed(),
            old(self)@.begun.len() < old(self)@.observed,
        ensures
            final(self).well_formed(),
            final(self)@ == old(self)@.beginning(versionable, record, path@),
            node_total(final(self)@.histories) <= node_total(old(self)@.histories),
            reference_total(final(self)@.histories) <= reference_total(old(self)@.histories),
    {
        broadcast use group_hash_axioms;

        let ghost before = self@;
        let ghost listed = self.histories@;
        let ghost known = self.positions@;
        let ghost begun = BegunHistory { path: path@, versionable: Some(versionable) };
        let ghost fresh = HistoryView::begun(versionable, record, path@);
        count_ancestors(
            &mut self.histories_under_intermediate,
            path,
            Ghost(begun_paths(self.begun@)),
        );
        self.total_histories = self.total_histories + 1;
        self.begun = Ghost(self.begun@.push(begun));
        let facts = HistoryFacts::begin(versionable, record, path);
        proof {
            assert(begun_paths(before.begun.push(begun)) =~= begun_paths(before.begun).push(path@));
            lemma_births_survive(before.histories, before.begun, begun);
            assert(before.begun.push(begun)[before.begun.len() as int] == begun);
        }
        match self.positions.get(&versionable) {
            Some(position) => {
                let position: usize = *position;
                self.histories.set(position, facts);
                proof {
                    assert(before.histories[position as int].versionable == versionable);
                    lemma_totals_of_update(before.histories, position as int, fresh);
                    let target = before.beginning(versionable, record, path@);
                    assert(self@.histories =~= before.histories.update(position as int, fresh));
                    assert(self@.histories =~= target.histories);
                }
            },
            None => {
                let position: usize = self.histories.len();
                self.histories.push(facts);
                self.positions.insert(versionable, position);
                proof {
                    assert(self@.histories =~= before.histories.push(fresh));
                    assert(self@.histories.drop_last() =~= before.histories);
                    assert forall|i: int|
                        0 <= i < before.histories.len() implies (
                        #[trigger] before.histories[i]).versionable != versionable by {
                        assert(listed[i].versionable == before.histories[i].versionable);
                    }
                }
            },
        }
    }

    fn attribute(
        &mut self,
        versionable: u128,
        properties: &Vec<PropertyState>,
        collect_internal_identifiers: bool,
        medium_value_limit: u64,
    )
        requires
            old(self).well_formed(),
            node_total(old(self)@.histories) + 1 <= old(self)@.observed,
            reference_total(old(self)@.histories) + history::value_total(properties@)
                <= old(self)@.observed,
        ensures
            final(self).well_formed(),
            final(self)@ == old(self)@.attributing(
                versionable,
                properties@,
                collect_internal_identifiers,
                medium_value_limit,
            ),
    {
        broadcast use group_hash_axioms;

        let ghost before = self@;
        let ghost listed = self.histories@;
        let ghost target = before.attributing(
            versionable,
            properties@,
            collect_internal_identifiers,
            medium_value_limit,
        );
        match self.positions.get(&versionable) {
            Some(position) => {
                let position: usize = *position;
                proof {
                    assert(before.histories[position as int] == listed[position as int]@);
                    lemma_totals_cover(before.histories, position as int);
                    history::lemma_attributed(
                        before.histories[position as int],
                        properties@,
                        collect_internal_identifiers,
                        medium_value_limit,
                    );
                    lemma_totals_of_update(
                        before.histories,
                        position as int,
                        before.histories[position as int].attributed(
                            properties@,
                            collect_internal_identifiers,
                            medium_value_limit,
                        ),
                    );
                }
                self.histories[position].attribute(
                    properties,
                    collect_internal_identifiers,
                    medium_value_limit,
                );
                assert(self@.histories =~= before.histories.update(
                    position as int,
                    before.histories[position as int].attributed(
                        properties@,
                        collect_internal_identifiers,
                        medium_value_limit,
                    ),
                ));
            },
            None => {
                assert forall|i: int| 0 <= i < before.histories.len() implies (
                #[trigger] before.histories[i]).versionable != versionable by {
                    assert(listed[i].versionable == before.histories[i].versionable);
                }
            },
        }
        assert(self@.histories =~= target.histories);
    }

    /// Releases every history that a recorded live identifier matches. Bulk
    /// segments that the released histories hold move to the live side, so that
    /// they are never counted as freed. Called once both walks are complete.
    pub fn resolve_live_matches(&mut self)
        requires
            old(self).well_formed(),
        ensures
            final(self).well_formed(),
            final(self)@ == old(self)@.resolved(),
    {
        broadcast use group_hash_axioms;

        let ghost before = self@;
        let ghost keeps = before.unmatched();
        let ghost drops = before.matched();
        let mut waiting: Vec<HistoryFacts> = Vec::new();
        let ghost all = self.histories@;
        while self.histories.len() > 0
            invariant
                self.histories@.len() + waiting@.len() == all.len(),
                forall|i: int| 0 <= i < self.histories@.len() ==> self.histories@[i] == all[i],
                forall|i: int|
                    0 <= i < waiting@.len() ==> #[trigger] waiting@[i] == all[all.len() - 1 - i],
                *self == (VersionStorageCensus { histories: self.histories, ..*old(self) }),
            decreases self.histories@.len(),
        {
            if let Some(facts) = self.histories.pop() {
                waiting.push(facts);
            }
        }
        self.positions = HashMap::new();
        reveal(Seq::filter);
        assert(before.histories.take(0).filter(keeps) =~= Seq::empty());
        assert(before.histories.take(0).filter(drops) =~= Seq::empty());
        assert(before.live_history_bulk.union(Set::empty()) =~= before.live_history_bulk);
        while waiting.len() > 0
            invariant
                waiting@.len() <= all.len(),
                forall|i: int|
                    0 <= i < waiting@.len() ==> #[trigger] waiting@[i] == all[all.len() - 1 - i],
                forall|i: int| 0 <= i < all.len() ==> (#[trigger] all[i]).well_formed(),
                before == old(self)@,
                before.consistent(),
                before.histories == history_views(all),
                keeps == before.unmatched(),
                drops == before.matched(),
                self.live_identifiers@ == before.live_identifiers,
                self.live_history_bulk.well_formed(),
                self.live_history_bulk.listed().to_set() == before.live_history_bulk.union(
                    bulk_total(
                        before.histories.take(all.len() - waiting@.len()).filter(drops),
                    ),
                ),
                history_views(self.histories@) == before.histories.take(
                    all.len() - waiting@.len(),
                ).filter(keeps),
                forall|i: int|
                    0 <= i < self.histories@.len() ==> (#[trigger] self.histories@[i])
                        .well_formed(),
                indexes(self.positions@, self.histories@),
                self.intermediates == old(self).intermediates,
                self.histories_under_intermediate == old(self).histories_under_intermediate,
                self.malformed_identifiers == old(self).malformed_identifiers,
                self.total_histories == old(self).total_histories,
                self.begun == old(self).begun,
                self.observed == old(self).observed,
            decreases waiting@.len(),
        {
            let ghost count = all.len() - waiting@.len();
            if let Some(facts) = waiting.pop() {
                let ghost taken = before.histories.take(count);
                let ghost next = before.histories.take(count + 1);
                let ghost here = before.histories[count];
                reveal(Seq::filter);
                proof {
                    assert(facts == all[count]);
                    assert(facts@ == here);
                    assert(next.drop_last() =~= taken);
                    assert(next.last() == here);
                }
                if self.live_identifiers.contains(&facts.versionable) {
                    self.live_history_bulk.add_all(&facts.bulk_segments);
                    proof {
                        let released = taken.filter(drops);
                        assert(next.filter(drops) == released.push(here));
                        assert(released.push(here).drop_last() =~= released);
                        assert(before.live_history_bulk.union(bulk_total(released)).union(
                            here.bulk_segments,
                        ) =~= before.live_history_bulk.union(
                            bulk_total(released).union(here.bulk_segments),
                        ));
                    }
                } else {
                    let position: usize = self.histories.len();
                    let ghost kept = self.histories@;
                    proof {
                        assert forall|i: int| 0 <= i < kept.len() implies (
                        #[trigger] kept[i]).versionable != facts.versionable by {
                            assert(history_views(kept)[i] == kept[i]@);
                            lemma_filtered_differs(before.histories, count, keeps, i);
                        }
                    }
                    self.positions.insert(facts.versionable, position);
                    self.histories.push(facts);
                    proof {
                        assert(history_views(self.histories@) =~= history_views(kept).push(here));
                        assert(next.filter(keeps) == taken.filter(keeps).push(here));
                        assert forall|i: int| 0 <= i < self.histories@.len() implies (
                        #[trigger] self.histories@[i]).well_formed() by {
                            if i < kept.len() {
                                assert(kept[i].well_formed());
                            }
                        }
                        assert(indexes(self.positions@, self.histories@)) by {
                            assert forall|versionable: u128| #[trigger]
                                self.positions@.contains_key(versionable) implies
                                self.positions@[versionable] < self.histories@.len()
                                && self.histories@[self.positions@[versionable] as int].versionable
                                == versionable by {}
                            assert forall|i: int| 0 <= i < self.histories@.len() implies
                                self.positions@.contains_key(
                                (#[trigger] self.histories@[i]).versionable,
                            ) && self.positions@[self.histories@[i].versionable] == i by {
                                if i < kept.len() {
                                    assert(self.histories@[i] == kept[i]);
                                }
                            }
                        }
                    }
                }
            }
        }
        self.live_identifiers = HashSet::new();
        proof {
            assert(before.histories.take(all.len() as int) =~= before.histories);
            assert(self@ =~= before.resolved());
            lemma_resolution_keeps_consistency(before);
        }
    }

    /// How many histories are known.
    pub fn len(&self) -> (count: usize)
        ensures
            count == self@.histories.len(),
    {
        self.histories.len()
    }

    /// One of the histories. After [`Self::resolve_live_matches`], these are
    /// the orphans: the histories that no live identifier matched.
    pub fn history(&self, index: usize) -> (facts: &HistoryFacts)
        requires
            self.well_formed(),
            index < self@.histories.len(),
        ensures
            facts.well_formed(),
            facts@ == self@.histories[index as int],
    {
        &self.histories[index]
    }

    /// The nodes above histories.
    pub fn intermediates(&self) -> (nodes: &Vec<Intermediate>)
        ensures
            intermediate_views(nodes@) == self@.intermediates,
    {
        &self.intermediates
    }

    /// How many history nodes lie under a path.
    pub fn histories_under(&self, path: &str) -> (count: u64)
        requires
            self.well_formed(),
        ensures
            count == count_under(begun_paths(self@.begun), path@),
    {
        assert(tallied(self.histories_under_intermediate@, path@) == count_under(
            begun_paths(self.begun@),
            path@,
        ));
        match self.histories_under_intermediate.get(path) {
            Some(count) => *count,
            None => 0,
        }
    }

    /// How many history nodes name no versionable that reads.
    pub fn malformed_identifiers(&self) -> (count: u64)
        ensures
            count == self@.malformed_identifiers,
    {
        self.malformed_identifiers
    }

    /// How many history nodes there are, before any matching.
    pub fn total_histories(&self) -> (count: u64)
        requires
            self.well_formed(),
        ensures
            count == self@.begun.len(),
    {
        self.total_histories
    }

    /// Bulk segments of histories whose versionables turned out alive.
    pub fn live_history_bulk(&self) -> (segments: &SegmentSet)
        requires
            self.well_formed(),
        ensures
            segments.well_formed(),
            segments.listed().to_set() == self@.live_history_bulk,
    {
        &self.live_history_bulk
    }
}

/// A history that a scan is inside of.
#[derive(Debug)]
pub struct CurrentHistory {
    /// The history's path.
    pub path: String,
    /// Its versionable.
    pub versionable: u128,
}

/// Rides the walk over the version-storage subtree and attributes every node
/// to the history above it. Depth-first order makes the attribution exact: a
/// history's descendants follow it contiguously, and histories never nest.
#[derive(Debug)]
pub struct VersionStoragePreScan {
    collect_internal_identifiers: bool,
    current: Option<CurrentHistory>,
}

impl VersionStoragePreScan {
    /// Whether the identifiers of the histories' nodes are collected.
    pub closed spec fn collects(&self) -> bool {
        self.collect_internal_identifiers
    }

    /// The history that the scan is inside of.
    pub closed spec fn inside(&self) -> Option<Inside> {
        match self.current {
            Some(current) => Some(
                Inside { path: current.path@, versionable: current.versionable },
            ),
            None => None,
        }
    }

    /// A scan that is inside of no history. Internal identifiers are collected
    /// only when a purge is selected, because only the pass over references
    /// reads them.
    pub fn new(collect_internal_identifiers: bool) -> (scan: Self)
        ensures
            scan.collects() == collect_internal_identifiers,
            scan.inside() is None,
    {
        VersionStoragePreScan { collect_internal_identifiers, current: None }
    }

    /// Opens a history at a path.
    fn begin_history(
        &mut self,
        census: &mut VersionStorageCensus,
        path: &str,
        record: RecordIdentifier,
        properties: &Vec<PropertyState>,
    )
        requires
            old(census).well_formed(),
            old(census)@.begun.len() < old(census)@.observed,
        ensures
            final(census).well_formed(),
            final(self).collects() == old(self).collects(),
            node_total(final(census)@.histories) <= node_total(old(census)@.histories),
            reference_total(final(census)@.histories) <= reference_total(old(census)@.histories),
            match versionable_of(properties@) {
                Some(versionable) => final(census)@ == old(census)@.beginning(
                    versionable,
                    record,
                    path@,
                ) && final(self).inside() == Some(Inside { path: path@, versionable }),
                None => final(self).inside() is None && final(census)@ == old(
                    census,
                )@.unclassified(path@),
            },
    {
        let versionable = match single_string_property(properties, "jcr:versionableUuid") {
            Some(text) => parse_identifier(text.as_str()),
            None => None,
        };
        assert(versionable == versionable_of(properties@));
        match versionable {
            Some(versionable) => {
                census.begin(versionable, record, path);
                self.current = Some(CurrentHistory { path: path.to_owned(), versionable });
            },
            None => {
                census.begin_unclassified(path);
                self.current = None;
            },
        }
    }

    /// One node of the version-storage subtree, in walk order. Every value
    /// reaches the store-wide census of external binaries, whichever node has
    /// it, because the footprint describes the head and not the orphans.
    pub fn node_verified(
        &mut self,
        census: &mut VersionStorageCensus,
        external_binaries: &mut ExternalBinaryCensus,
        path: &str,
        record: RecordIdentifier,
        properties: &Vec<PropertyState>,
        medium_value_limit: u64,
    )
        requires
            old(census).well_formed(),
            old(external_binaries).well_formed(),
            old(census)@.observed + weight(properties@) <= u64::MAX,
        ensures
            final(census).well_formed(),
            final(external_binaries).well_formed(),
            final(external_binaries)@ == old(external_binaries)@.observing_properties(properties@),
            final(self).collects() == old(self).collects(),
            (final(census)@, final(self).inside()) == visited(
                old(census)@,
                old(self).inside(),
                path@,
                record,
                properties@,
                old(self).collects(),
                medium_value_limit,
            ),
    {
        let ghost before = census@;
        external_binaries.observe_properties(properties);
        let collect = self.collect_internal_identifiers;
        let inside = match &self.current {
            Some(current) => if within(path, current.path.as_str()) {
                Some(current.versionable)
            } else {
                None
            },
            None => None,
        };
        census.see(properties);
        match inside {
            Some(versionable) => {
                census.attribute(versionable, properties, collect, medium_value_limit);
            },
            None => {
                self.current = None;
                let is_history = match single_string_property(properties, "jcr:primaryType") {
                    Some(name) => text_eq(name.as_str(), "nt:versionHistory"),
                    None => false,
                };
                if is_history {
                    self.begin_history(census, path, record, properties);
                    if let Some(current) = &self.current {
                        census.attribute(
                            current.versionable,
                            properties,
                            collect,
                            medium_value_limit,
                        );
                    }
                } else if path.unicode_len() > 0 {
                    census.add_intermediate(path, record);
                }
            },
        }
    }
}

} // verus!
