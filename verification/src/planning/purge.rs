//! Selecting which orphaned version histories a purge omits from the copy.
use std::collections::{HashMap, HashSet};
use vstd::hash_map::StringHashMap;
use vstd::prelude::*;
use vstd::std_specs::hash::*;
use vstd::string::*;
use crate::identifier::RecordIdentifier;
use crate::planning::history::{HistoryFacts, HistoryView};
use crate::planning::paths;
use crate::planning::paths::{parent_path, path_depth};
use crate::planning::version_storage;
use crate::planning::version_storage::{
    count_ancestors, BegunHistory, Intermediate, StorageView, VersionStorageCensus,
};

verus! {

/// What a purge does with an orphan.
#[derive(Clone, Copy, Debug, PartialEq, Eq, Structural)]
pub enum PurgeVerdict {
    /// It freezes a configuration, and stays.
    KeptConfiguration,
    /// It is younger than the age bound, or of unknown age, and stays.
    KeptByAge,
    /// Something outside version storage refers into it, and it stays.
    KeptByReferences,
    /// It goes.
    Selected,
}

/// Whether the newest version of a history is known to be at least this old.
pub open spec fn old_enough(
    history: HistoryView,
    minimum_age_seconds: u64,
    now_epoch_seconds: i64,
) -> bool {
    history.newest_version_created matches Some(created) && now_epoch_seconds - created >= if
        minimum_age_seconds > i64::MAX {
        i64::MAX as int
    } else {
        minimum_age_seconds as int
    }
}

/// What a purge does with an orphan: the exclusions come in the order in which
/// an operator reads them.
pub open spec fn verdict(
    history: HistoryView,
    minimum_age_seconds: Option<u64>,
    now_epoch_seconds: i64,
    demoted: Set<u128>,
) -> PurgeVerdict {
    if history.freezes_a_configuration {
        PurgeVerdict::KeptConfiguration
    } else if minimum_age_seconds is Some && !old_enough(
        history,
        minimum_age_seconds->0,
        now_epoch_seconds,
    ) {
        PurgeVerdict::KeptByAge
    } else if demoted.contains(history.versionable) {
        PurgeVerdict::KeptByReferences
    } else {
        PurgeVerdict::Selected
    }
}

/// The orphans that get a verdict.
pub open spec fn ruled(
    histories: Seq<HistoryView>,
    wanted: PurgeVerdict,
    minimum_age_seconds: Option<u64>,
    now_epoch_seconds: i64,
    demoted: Set<u128>,
) -> Seq<HistoryView>
    decreases histories.len(),
{
    if histories.len() == 0 {
        Seq::empty()
    } else {
        let earlier = ruled(
            histories.drop_last(),
            wanted,
            minimum_age_seconds,
            now_epoch_seconds,
            demoted,
        );
        if verdict(histories.last(), minimum_age_seconds, now_epoch_seconds, demoted) == wanted {
            earlier.push(histories.last())
        } else {
            earlier
        }
    }
}

/// The paths of some histories.
pub open spec fn paths_of(histories: Seq<HistoryView>) -> Seq<Seq<char>> {
    histories.map_values(|history: HistoryView| history.path)
}

/// The records of some histories.
pub open spec fn records_of(histories: Seq<HistoryView>) -> Seq<RecordIdentifier> {
    histories.map_values(|history: HistoryView| history.record)
}

/// The versionables of some histories.
pub open spec fn versionables_of(histories: Seq<HistoryView>) -> Set<u128> {
    histories.map_values(|history: HistoryView| history.versionable).to_set()
}

/// A node above histories: its path and its record.
pub type Node = (Seq<char>, RecordIdentifier);

/// The nodes of one depth, in order.
pub open spec fn layer(nodes: Seq<Node>, depth: nat) -> Seq<Node>
    decreases nodes.len(),
{
    if nodes.len() == 0 {
        Seq::empty()
    } else {
        let earlier = layer(nodes.drop_last(), depth);
        if paths::depth(nodes.last().0) == depth {
            earlier.push(nodes.last())
        } else {
            earlier
        }
    }
}

/// One more than the largest depth among some nodes.
pub open spec fn height(nodes: Seq<Node>) -> nat
    decreases nodes.len(),
{
    if nodes.len() == 0 {
        0
    } else {
        let earlier = height(nodes.drop_last());
        let last = paths::depth(nodes.last().0) + 1;
        if earlier > last {
            earlier
        } else {
            last
        }
    }
}

/// The nodes of some depth or a larger one, the deepest first and each layer
/// in order.
pub open spec fn deepest_first(nodes: Seq<Node>, depth: nat) -> Seq<Node>
    decreases height(nodes) - depth,
{
    if depth >= height(nodes) {
        Seq::empty()
    } else {
        deepest_first(nodes, depth + 1) + layer(nodes, depth)
    }
}

/// The records of the nodes that a rule keeps.
pub open spec fn records_where(nodes: Seq<Node>, keeps: spec_fn(Seq<char>) -> bool) -> Seq<
    RecordIdentifier,
>
    decreases nodes.len(),
{
    if nodes.len() == 0 {
        Seq::empty()
    } else if keeps(nodes.last().0) {
        records_where(nodes.drop_last(), keeps).push(nodes.last().1)
    } else {
        records_where(nodes.drop_last(), keeps)
    }
}

/// What decides which nodes above histories go with them.
pub struct PurgeGround {
    /// The nodes above histories.
    pub nodes: Seq<Node>,
    /// The paths of all history nodes.
    pub begun: Seq<Seq<char>>,
    /// The paths of the selected histories.
    pub chosen: Seq<Seq<char>>,
}

impl PurgeGround {
    /// Whether a path has histories beneath it and all of them go.
    pub open spec fn emptied(self, path: Seq<char>) -> bool {
        &&& version_storage::count_under(self.begun, path) != 0
        &&& version_storage::count_under(self.chosen, path) == version_storage::count_under(
            self.begun,
            path,
        )
    }

    /// Whether a path is emptied, and so is each recorded node in the chains
    /// beneath it, for so many levels.
    pub open spec fn emptied_below(self, path: Seq<char>, levels: nat) -> bool
        decreases levels,
    {
        &&& self.emptied(path)
        &&& levels > 0 ==> forall|i: int|
            0 <= i < self.nodes.len() && paths::parent((#[trigger] self.nodes[i]).0) == Some(path)
                ==> self.emptied_below(self.nodes[i].0, (levels - 1) as nat)
    }

    /// Whether everything beneath a path goes: at least one history, every
    /// history beneath it, and every recorded node beneath it.
    pub open spec fn omissible(self, path: Seq<char>) -> bool {
        let depth = paths::depth(path);
        self.emptied_below(
            path,
            if depth < height(self.nodes) {
                (height(self.nodes) - depth) as nat
            } else {
                0
            },
        )
    }

    /// The rule that picks what goes.
    pub open spec fn omits(self) -> spec_fn(Seq<char>) -> bool {
        |path: Seq<char>| self.omissible(path)
    }

    /// The rule that picks what stays and loses a history.
    pub open spec fn thins(self) -> spec_fn(Seq<char>) -> bool {
        |path: Seq<char>|
            !self.omissible(path) && version_storage::count_under(self.chosen, path) != 0
    }

    /// Whether a recorded node right beneath a path stays.
    pub open spec fn blocked_by(self, path: Seq<char>, child: int) -> bool {
        &&& 0 <= child < self.nodes.len()
        &&& paths::parent(self.nodes[child].0) == Some(path)
        &&& !self.omissible(self.nodes[child].0)
    }

    /// Whether a node was decided, when the layers beneath a depth were, and
    /// so many nodes of that depth.
    spec fn decided(self, depth: nat, count: int, node: int) -> bool {
        let own = paths::depth(self.nodes[node].0);
        own > depth || own == depth && node < count
    }

    /// The paths that decided nodes block.
    spec fn blocks(self, blocked: Map<Seq<char>, bool>, depth: nat, count: int) -> bool {
        forall|path: Seq<char>| #[trigger]
            blocked.contains_key(path) <==> exists|child: int| #[trigger]
                self.blocked_by(path, child) && self.decided(depth, count, child)
    }
}

proof fn lemma_height(nodes: Seq<Node>, index: int)
    requires
        0 <= index < nodes.len(),
    ensures
        paths::depth(nodes[index].0) < height(nodes),
    decreases nodes.len(),
{
    if index < nodes.len() - 1 {
        lemma_height(nodes.drop_last(), index);
    }
}

/// A recorded node goes exactly when it is emptied and no recorded node right
/// beneath it stays.
pub proof fn lemma_omissible(ground: PurgeGround, node: int)
    requires
        0 <= node < ground.nodes.len(),
    ensures
        ground.omissible(ground.nodes[node].0) <==> ground.emptied(ground.nodes[node].0) && !(
        exists|child: int| #[trigger] ground.blocked_by(ground.nodes[node].0, child)),
{
    let path = ground.nodes[node].0;
    lemma_height(ground.nodes, node);
    let levels = (height(ground.nodes) - paths::depth(path)) as nat;
    assert forall|i: int|
        0 <= i < ground.nodes.len() && paths::parent((#[trigger] ground.nodes[i]).0) == Some(
            path,
        ) implies (ground.emptied_below(ground.nodes[i].0, (levels - 1) as nat)
        <==> ground.omissible(ground.nodes[i].0)) by {
        paths::lemma_parent_is_shallower(ground.nodes[i].0);
        lemma_height(ground.nodes, i);
    }
    if ground.emptied(path) && !ground.omissible(path) {
        let i = choose|i: int|
            0 <= i < ground.nodes.len() && paths::parent((#[trigger] ground.nodes[i]).0) == Some(
                path,
            ) && !ground.emptied_below(ground.nodes[i].0, (levels - 1) as nat);
        assert(ground.blocked_by(path, i));
    }
}

/// The purge a plan carries: which subtree roots the copy omits, and the
/// counts that the actions and the summary state.
#[derive(Debug)]
pub struct PurgeSelection {
    /// The records the copy declines to enter, outside checkpoint snapshots:
    /// every selected history, and every node above histories beneath which
    /// everything goes.
    pub omitted_records: Vec<RecordIdentifier>,
    /// Selected histories.
    pub histories: u64,
    /// Nodes those histories hold, the history nodes included.
    pub nodes: u64,
    /// The selected histories' versionables.
    pub selected_identifiers: HashSet<u128>,
    /// Orphans kept because their newest version is younger than the age
    /// bound, or carries no creation date that reads.
    pub kept_by_age: u64,
    /// Orphans kept because they freeze a configuration.
    pub kept_configurations: u64,
    /// Orphans kept because a reference outside version storage names a
    /// record inside them.
    pub kept_by_references: u64,
    /// The nodes above omitted records that are not themselves omitted.
    pub context_dependent_intermediates: Vec<RecordIdentifier>,
}

/// What decides which nodes above histories go, given the storage and the
/// selected histories.
pub open spec fn ground_of(storage: StorageView, chosen: Seq<HistoryView>) -> PurgeGround {
    PurgeGround {
        nodes: storage.intermediates,
        begun: version_storage::begun_paths(storage.begun),
        chosen: paths_of(chosen),
    }
}

impl PurgeSelection {
    /// The selection omits exactly what the verdicts select.
    pub open spec fn selects(
        &self,
        storage: StorageView,
        minimum_age_seconds: Option<u64>,
        now_epoch_seconds: i64,
        demoted: Set<u128>,
    ) -> bool {
        let chosen = ruled(
            storage.histories,
            PurgeVerdict::Selected,
            minimum_age_seconds,
            now_epoch_seconds,
            demoted,
        );
        let ground = ground_of(storage, chosen);
        let nodes = deepest_first(storage.intermediates, 0);
        &&& self.histories == chosen.len()
        &&& self.nodes == version_storage::node_total(chosen)
        &&& self.selected_identifiers@ == versionables_of(chosen)
        &&& self.kept_by_age == ruled(
            storage.histories,
            PurgeVerdict::KeptByAge,
            minimum_age_seconds,
            now_epoch_seconds,
            demoted,
        ).len()
        &&& self.kept_configurations == ruled(
            storage.histories,
            PurgeVerdict::KeptConfiguration,
            minimum_age_seconds,
            now_epoch_seconds,
            demoted,
        ).len()
        &&& self.kept_by_references == ruled(
            storage.histories,
            PurgeVerdict::KeptByReferences,
            minimum_age_seconds,
            now_epoch_seconds,
            demoted,
        ).len()
        &&& self.omitted_records@ == records_of(chosen) + records_where(nodes, ground.omits())
        &&& self.context_dependent_intermediates@ == records_where(nodes, ground.thins())
    }
}

/// Judges one orphan.
pub fn judge(
    facts: &HistoryFacts,
    minimum_age_seconds: Option<u64>,
    now_epoch_seconds: i64,
    demoted: &HashSet<u128>,
) -> (ruling: PurgeVerdict)
    ensures
        ruling == verdict(facts@, minimum_age_seconds, now_epoch_seconds, demoted@),
{
    broadcast use group_hash_axioms;

    if facts.freezes_a_configuration {
        return PurgeVerdict::KeptConfiguration;
    }
    if let Some(minimum) = minimum_age_seconds {
        // An age bound that cannot be evaluated keeps the history.
        let old = match facts.newest_version_created {
            Some(created) => {
                let bound: i128 = if minimum > i64::MAX as u64 {
                    i64::MAX as i128
                } else {
                    minimum as i128
                };
                now_epoch_seconds as i128 - created as i128 >= bound
            },
            None => false,
        };
        if !old {
            return PurgeVerdict::KeptByAge;
        }
    }
    if demoted.contains(&facts.versionable) {
        PurgeVerdict::KeptByReferences
    } else {
        PurgeVerdict::Selected
    }
}

proof fn lemma_ruled_bounds(
    histories: Seq<HistoryView>,
    minimum_age_seconds: Option<u64>,
    now_epoch_seconds: i64,
    demoted: Set<u128>,
)
    ensures
        forall|wanted: PurgeVerdict|
            (#[trigger] ruled(
                histories,
                wanted,
                minimum_age_seconds,
                now_epoch_seconds,
                demoted,
            )).len() <= histories.len() && version_storage::node_total(
                ruled(histories, wanted, minimum_age_seconds, now_epoch_seconds, demoted),
            ) <= version_storage::node_total(histories),
    decreases histories.len(),
{
    if histories.len() > 0 {
        let rest = histories.drop_last();
        lemma_ruled_bounds(rest, minimum_age_seconds, now_epoch_seconds, demoted);
        assert forall|wanted: PurgeVerdict|
            (#[trigger] ruled(
                histories,
                wanted,
                minimum_age_seconds,
                now_epoch_seconds,
                demoted,
            )).len() <= histories.len() && version_storage::node_total(
                ruled(histories, wanted, minimum_age_seconds, now_epoch_seconds, demoted),
            ) <= version_storage::node_total(histories) by {
            let earlier = ruled(rest, wanted, minimum_age_seconds, now_epoch_seconds, demoted);
            assert(earlier.push(histories.last()).drop_last() =~= earlier);
        }
    }
}

proof fn lemma_node_total_grows(histories: Seq<HistoryView>, count: int)
    requires
        0 <= count <= histories.len(),
    ensures
        version_storage::node_total(histories.take(count)) <= version_storage::node_total(
            histories,
        ),
    decreases histories.len(),
{
    if count == histories.len() {
        assert(histories.take(count) =~= histories);
    } else {
        lemma_node_total_grows(histories.drop_last(), count);
        assert(histories.drop_last().take(count) =~= histories.take(count));
    }
}

/// No versionable has two histories, so there are no more of them than
/// history nodes.
proof fn lemma_histories_were_begun(storage: StorageView)
    requires
        storage.consistent(),
    ensures
        storage.histories.len() <= storage.begun.len(),
{
    let births = Seq::new(
        storage.histories.len(),
        |i: int|
            choose|j: int|
                0 <= j < storage.begun.len() && #[trigger] storage.begun[j] == (BegunHistory {
                    path: storage.histories[i].path,
                    versionable: Some(storage.histories[i].versionable),
                }),
    );
    assert forall|i: int| 0 <= i < births.len() implies 0 <= #[trigger] births[i]
        < storage.begun.len() && storage.begun[births[i]].versionable == Some(
        storage.histories[i].versionable,
    ) by {
        assert(storage.begun.contains(
            BegunHistory {
                path: storage.histories[i].path,
                versionable: Some(storage.histories[i].versionable),
            },
        ));
    }
    assert(births.no_duplicates());
    births.unique_seq_to_set();
    let all = vstd::set_lib::set_int_range(0, storage.begun.len() as int);
    vstd::set_lib::lemma_int_range(0, storage.begun.len() as int);
    assert(births.to_set().subset_of(all)) by {
        assert forall|j: int| births.to_set().contains(j) implies all.contains(j) by {
            let i = choose|i: int| 0 <= i < births.len() && births[i] == j;
            assert(0 <= births[i] < storage.begun.len());
        }
    }
    vstd::set_lib::lemma_len_subset(births.to_set(), all);
}

/// The largest number of layers among some nodes.
fn count_layers(nodes: &Vec<Intermediate>) -> (count: u128)
    ensures
        count == height(version_storage::intermediate_views(nodes@)),
{
    let ghost views = version_storage::intermediate_views(nodes@);
    let mut count: u128 = 0;
    let mut index: usize = 0;
    assert(views.take(0) =~= Seq::empty());
    while index < nodes.len()
        invariant
            index <= nodes@.len(),
            views == version_storage::intermediate_views(nodes@),
            count == height(views.take(index as int)),
        decreases nodes@.len() - index,
    {
        let depth = path_depth(nodes[index].path.as_str()) as u128;
        proof {
            let longer = views.take(index as int + 1);
            assert(longer.drop_last() =~= views.take(index as int));
            assert(longer.last() == views[index as int]);
        }
        if depth + 1 >= count {
            count = depth + 1;
        }
        index = index + 1;
    }
    assert(views.take(index as int) =~= views);
    count
}

proof fn lemma_records_where_push(nodes: Seq<Node>, node: Node, keeps: spec_fn(Seq<char>) -> bool)
    ensures
        records_where(nodes.push(node), keeps) == if keeps(node.0) {
            records_where(nodes, keeps).push(node.1)
        } else {
            records_where(nodes, keeps)
        },
{
    assert(nodes.push(node).drop_last() =~= nodes);
}

/// Decides which nodes above histories go, the deepest first, so that a single
/// node that stays keeps the whole chain above it.
fn omit_intermediates(
    census: &VersionStorageCensus,
    selected_under: &StringHashMap<u64>,
    selection: &mut PurgeSelection,
    Ghost(chosen): Ghost<Seq<HistoryView>>,
)
    requires
        census.well_formed(),
        version_storage::tallies(selected_under@, paths_of(chosen)),
        old(selection).context_dependent_intermediates@.len() == 0,
    ensures
        *final(selection) == (PurgeSelection {
            omitted_records: final(selection).omitted_records,
            context_dependent_intermediates: final(selection).context_dependent_intermediates,
            ..*old(selection)
        }),
        final(selection).omitted_records@ == old(selection).omitted_records@ + records_where(
            deepest_first(census@.intermediates, 0),
            ground_of(census@, chosen).omits(),
        ),
        final(selection).context_dependent_intermediates@ == records_where(
            deepest_first(census@.intermediates, 0),
            ground_of(census@, chosen).thins(),
        ),
{
    let ghost ground = ground_of(census@, chosen);
    let ghost views = census@.intermediates;
    let ghost first = selection.omitted_records@;
    let nodes = census.intermediates();
    let layers = count_layers(nodes);
    let mut blocked: StringHashMap<bool> = StringHashMap::new();
    let mut depth: u128 = layers;
    let ghost mut processed: Seq<Node> = Seq::empty();
    assert(deepest_first(views, layers as nat) =~= Seq::empty());
    assert(first + records_where(processed, ground.omits()) =~= first);
    proof {
        assert forall|path: Seq<char>| #[trigger]
            blocked@.contains_key(path) <==> exists|child: int| #[trigger]
                ground.blocked_by(path, child) && ground.decided(
                    layers as nat,
                    views.len() as int,
                    child,
                ) by {
            if exists|child: int| #[trigger]
                ground.blocked_by(path, child) && ground.decided(
                    layers as nat,
                    views.len() as int,
                    child,
                ) {
                let child = choose|child: int| #[trigger]
                    ground.blocked_by(path, child) && ground.decided(
                        layers as nat,
                        views.len() as int,
                        child,
                    );
                lemma_height(views, child);
            }
        }
    }
    while depth > 0
        invariant
            census.well_formed(),
            ground == ground_of(census@, chosen),
            views == census@.intermediates,
            views == version_storage::intermediate_views(nodes@),
            version_storage::tallies(selected_under@, paths_of(chosen)),
            depth <= layers,
            layers == height(views),
            processed == deepest_first(views, depth as nat),
            ground.blocks(blocked@, depth as nat, views.len() as int),
            *selection == (PurgeSelection {
                omitted_records: selection.omitted_records,
                context_dependent_intermediates: selection.context_dependent_intermediates,
                ..*old(selection)
            }),
            selection.omitted_records@ == first + records_where(processed, ground.omits()),
            selection.context_dependent_intermediates@ == records_where(
                processed,
                ground.thins(),
            ),
        decreases depth,
    {
        let level: u128 = depth - 1;
        let ghost above = processed;
        let mut index: usize = 0;
        proof {
            assert(views.take(0) =~= Seq::empty());
            assert(above + layer(views.take(0), level as nat) =~= above);
            assert forall|path: Seq<char>| #[trigger]
                blocked@.contains_key(path) <==> exists|child: int| #[trigger]
                    ground.blocked_by(path, child) && ground.decided(level as nat, 0, child) by {
                assert(blocked@.contains_key(path) <==> exists|child: int| #[trigger]
                    ground.blocked_by(path, child) && ground.decided(
                        depth as nat,
                        views.len() as int,
                        child,
                    ));
                if exists|child: int| #[trigger]
                    ground.blocked_by(path, child) && ground.decided(level as nat, 0, child) {
                    let child = choose|child: int| #[trigger]
                        ground.blocked_by(path, child) && ground.decided(level as nat, 0, child);
                    assert(ground.decided(depth as nat, views.len() as int, child));
                }
                if blocked@.contains_key(path) {
                    let child = choose|child: int| #[trigger]
                        ground.blocked_by(path, child) && ground.decided(
                            depth as nat,
                            views.len() as int,
                            child,
                        );
                    assert(ground.decided(level as nat, 0, child));
                }
            }
        }
        while index < nodes.len()
            invariant
                census.well_formed(),
                ground == ground_of(census@, chosen),
                views == census@.intermediates,
                views == version_storage::intermediate_views(nodes@),
                version_storage::tallies(selected_under@, paths_of(chosen)),
                index <= nodes@.len(),
                processed == above + layer(views.take(index as int), level as nat),
                ground.blocks(blocked@, level as nat, index as int),
                *selection == (PurgeSelection {
                    omitted_records: selection.omitted_records,
                    context_dependent_intermediates: selection.context_dependent_intermediates,
                    ..*old(selection)
                }),
                selection.omitted_records@ == first + records_where(processed, ground.omits()),
                selection.context_dependent_intermediates@ == records_where(
                    processed,
                    ground.thins(),
                ),
            decreases nodes@.len() - index,
        {
            let node = &nodes[index];
            let ghost view = views[index as int];
            let ghost known = blocked@;
            let ghost before = processed;
            proof {
                let longer = views.take(index as int + 1);
                assert(longer.drop_last() =~= views.take(index as int));
                assert(longer.last() == view);
                assert(view == (node.path@, node.record));
            }
            if path_depth(node.path.as_str()) as u128 == level {
                let total = census.histories_under(node.path.as_str());
                let selected: u64 = match selected_under.get(node.path.as_str()) {
                    Some(count) => *count,
                    None => 0,
                };
                let child_blocks = blocked.contains_key(node.path.as_str());
                let omissible = total != 0 && selected == total && !child_blocks;
                proof {
                    assert(version_storage::tallied(selected_under@, node.path@)
                        == version_storage::count_under(paths_of(chosen), node.path@));
                    lemma_omissible(ground, index as int);
                    assert((exists|child: int| #[trigger] ground.blocked_by(node.path@, child))
                        <==> known.contains_key(node.path@)) by {
                        if exists|child: int| #[trigger] ground.blocked_by(node.path@, child) {
                            let child = choose|child: int| #[trigger]
                                ground.blocked_by(node.path@, child);
                            paths::lemma_parent_is_shallower(views[child].0);
                            assert(ground.decided(level as nat, index as int, child));
                        }
                    }
                    assert(omissible == ground.omissible(node.path@));
                    assert(before.push(view) =~= above + layer(
                        views.take(index as int + 1),
                        level as nat,
                    ));
                    lemma_records_where_push(before, view, ground.omits());
                    lemma_records_where_push(before, view, ground.thins());
                    processed = before.push(view);
                }
                if omissible {
                    selection.omitted_records.push(node.record);
                    assert(selection.omitted_records@ =~= first + records_where(
                        processed,
                        ground.omits(),
                    ));
                } else {
                    if selected != 0 {
                        // What stays and loses a history is copied differently
                        // for the head and for a checkpoint.
                        selection.context_dependent_intermediates.push(node.record);
                    }
                    if let Some(above_it) = parent_path(node.path.as_str()) {
                        blocked.insert(above_it, true);
                    }
                }
            }
            proof {
                assert forall|path: Seq<char>| #[trigger]
                    blocked@.contains_key(path) <==> exists|child: int| #[trigger]
                        ground.blocked_by(path, child) && ground.decided(
                            level as nat,
                            index as int + 1,
                            child,
                        ) by {
                    assert(known.contains_key(path) <==> exists|child: int| #[trigger]
                        ground.blocked_by(path, child) && ground.decided(
                            level as nat,
                            index as int,
                            child,
                        ));
                    if known.contains_key(path) {
                        let child = choose|child: int| #[trigger]
                            ground.blocked_by(path, child) && ground.decided(
                                level as nat,
                                index as int,
                                child,
                            );
                        assert(ground.decided(level as nat, index as int + 1, child));
                    }
                    if exists|child: int| #[trigger]
                        ground.blocked_by(path, child) && ground.decided(
                            level as nat,
                            index as int + 1,
                            child,
                        ) {
                        let child = choose|child: int| #[trigger]
                            ground.blocked_by(path, child) && ground.decided(
                                level as nat,
                                index as int + 1,
                                child,
                            );
                        if child != index {
                            assert(ground.decided(level as nat, index as int, child));
                        }
                    }
                    if blocked@.contains_key(path) && !known.contains_key(path) {
                        assert(ground.blocked_by(path, index as int));
                        assert(ground.decided(level as nat, index as int + 1, index as int));
                    }
                }
            }
            index = index + 1;
        }
        proof {
            assert(views.take(index as int) =~= views);
        }
        depth = level;
    }
}

/// Selects which orphans a purge removes.
pub fn select_purge(
    census: &VersionStorageCensus,
    minimum_age_seconds: Option<u64>,
    now_epoch_seconds: i64,
    demoted_by_references: &HashSet<u128>,
) -> (selection: PurgeSelection)
    requires
        census.well_formed(),
    ensures
        selection.selects(
            census@,
            minimum_age_seconds,
            now_epoch_seconds,
            demoted_by_references@,
        ),
{
    broadcast use group_hash_axioms;

    let mut selection = PurgeSelection {
        omitted_records: Vec::new(),
        histories: 0,
        nodes: 0,
        selected_identifiers: HashSet::new(),
        kept_by_age: 0,
        kept_configurations: 0,
        kept_by_references: 0,
        context_dependent_intermediates: Vec::new(),
    };
    let mut selected_under: StringHashMap<u64> = StringHashMap::new();
    let ghost all = census@.histories;
    let ghost demoted = demoted_by_references@;
    let ghost mut chosen: Seq<HistoryView> = Seq::empty();
    let mut index: usize = 0;
    proof {
        census.lemma_consistent();
        lemma_histories_were_begun(census@);
        assert(all.take(0) =~= Seq::empty());
        assert(selection.selected_identifiers@ =~= versionables_of(chosen)) by {
            assert(chosen.map_values(|history: HistoryView| history.versionable) =~= Seq::empty());
        }
        assert(selection.omitted_records@ =~= records_of(chosen));
        assert(paths_of(chosen) =~= Seq::empty());
    }
    while index < census.len()
        invariant
            census.well_formed(),
            census@.consistent(),
            all == census@.histories,
            all.len() <= u64::MAX,
            demoted == demoted_by_references@,
            index <= all.len(),
            chosen == ruled(
                all.take(index as int),
                PurgeVerdict::Selected,
                minimum_age_seconds,
                now_epoch_seconds,
                demoted,
            ),
            chosen.len() <= index,
            selection.histories == chosen.len(),
            selection.nodes == version_storage::node_total(chosen),
            selection.selected_identifiers@ == versionables_of(chosen),
            selection.kept_by_age == ruled(
                all.take(index as int),
                PurgeVerdict::KeptByAge,
                minimum_age_seconds,
                now_epoch_seconds,
                demoted,
            ).len(),
            selection.kept_by_age <= index,
            selection.kept_configurations == ruled(
                all.take(index as int),
                PurgeVerdict::KeptConfiguration,
                minimum_age_seconds,
                now_epoch_seconds,
                demoted,
            ).len(),
            selection.kept_configurations <= index,
            selection.kept_by_references == ruled(
                all.take(index as int),
                PurgeVerdict::KeptByReferences,
                minimum_age_seconds,
                now_epoch_seconds,
                demoted,
            ).len(),
            selection.kept_by_references <= index,
            selection.omitted_records@ == records_of(chosen),
            selection.context_dependent_intermediates@.len() == 0,
            version_storage::tallies(selected_under@, paths_of(chosen)),
        decreases all.len() - index,
    {
        let facts = census.history(index);
        let ghost here = all[index as int];
        let ghost before = chosen;
        proof {
            let longer = all.take(index as int + 1);
            assert(longer.drop_last() =~= all.take(index as int));
            assert(longer.last() == here);
            lemma_node_total_grows(all, index as int + 1);
            lemma_ruled_bounds(
                all.take(index as int),
                minimum_age_seconds,
                now_epoch_seconds,
                demoted,
            );
        }
        match judge(facts, minimum_age_seconds, now_epoch_seconds, demoted_by_references) {
            PurgeVerdict::KeptConfiguration => {
                selection.kept_configurations = selection.kept_configurations + 1;
            },
            PurgeVerdict::KeptByAge => {
                selection.kept_by_age = selection.kept_by_age + 1;
            },
            PurgeVerdict::KeptByReferences => {
                selection.kept_by_references = selection.kept_by_references + 1;
            },
            PurgeVerdict::Selected => {
                count_ancestors(&mut selected_under, facts.path.as_str(), Ghost(paths_of(before)));
                selection.histories = selection.histories + 1;
                selection.nodes = selection.nodes + facts.nodes;
                selection.selected_identifiers.insert(facts.versionable);
                selection.omitted_records.push(facts.record);
                proof {
                    chosen = before.push(here);
                    assert(chosen.drop_last() =~= before);
                    assert(paths_of(chosen) =~= paths_of(before).push(here.path));
                    assert(records_of(chosen) =~= records_of(before).push(here.record));
                    let versionables = before.map_values(
                        |history: HistoryView| history.versionable,
                    );
                    versionables.lemma_push_to_set_commute(here.versionable);
                    assert(chosen.map_values(|history: HistoryView| history.versionable)
                        =~= versionables.push(here.versionable));
                }
            },
        }
        index = index + 1;
    }
    proof {
        assert(all.take(index as int) =~= all);
    }
    omit_intermediates(census, &selected_under, &mut selection, Ghost(chosen));
    selection
}

/// Every identifier inside some histories, with the versionable of the history
/// that it is inside of. A later history's claim replaces an earlier one's.
pub open spec fn internal_owners(histories: Seq<HistoryView>, candidates: Set<u128>) -> Map<
    u128,
    u128,
>
    decreases histories.len(),
{
    if histories.len() == 0 {
        Map::empty()
    } else {
        let earlier = internal_owners(histories.drop_last(), candidates);
        if candidates.contains(histories.last().versionable) {
            claimed(
                earlier,
                histories.last().internal_identifiers,
                histories.last().versionable,
            )
        } else {
            earlier
        }
    }
}

/// A table in which some identifiers lead to one versionable.
pub open spec fn claimed(owners: Map<u128, u128>, identifiers: Seq<u128>, versionable: u128) -> Map<
    u128,
    u128,
>
    decreases identifiers.len(),
{
    if identifiers.len() == 0 {
        owners
    } else {
        claimed(owners, identifiers.drop_last(), versionable).insert(
            identifiers.last(),
            versionable,
        )
    }
}

/// The table that the pass over references matches against: every internal
/// identifier of every purge candidate, to the candidate's own versionable.
pub fn candidate_internal_identifiers(
    census: &VersionStorageCensus,
    candidates: &HashSet<u128>,
) -> (owners: HashMap<u128, u128>)
    requires
        census.well_formed(),
    ensures
        owners@ == internal_owners(census@.histories, candidates@),
{
    broadcast use group_hash_axioms;

    let mut owners: HashMap<u128, u128> = HashMap::new();
    let ghost all = census@.histories;
    let mut index: usize = 0;
    assert(all.take(0) =~= Seq::empty());
    assert(owners@ =~= internal_owners(all.take(0), candidates@));
    while index < census.len()
        invariant
            census.well_formed(),
            all == census@.histories,
            index <= all.len(),
            owners@ == internal_owners(all.take(index as int), candidates@),
        decreases all.len() - index,
    {
        let facts = census.history(index);
        let ghost earlier = owners@;
        proof {
            assert(all.take(index as int + 1).drop_last() =~= all.take(index as int));
            assert(all.take(index as int + 1).last() == all[index as int]);
        }
        if candidates.contains(&facts.versionable) {
            let ghost identifiers = facts.internal_identifiers@;
            let mut position: usize = 0;
            assert(identifiers.take(0) =~= Seq::empty());
            while position < facts.internal_identifiers.len()
                invariant
                    identifiers == facts.internal_identifiers@,
                    position <= identifiers.len(),
                    owners@ == claimed(
                        earlier,
                        identifiers.take(position as int),
                        facts.versionable,
                    ),
                decreases identifiers.len() - position,
            {
                proof {
                    let longer = identifiers.take(position as int + 1);
                    assert(longer.drop_last() =~= identifiers.take(position as int));
                }
                owners.insert(facts.internal_identifiers[position], facts.versionable);
                position = position + 1;
            }
            assert(identifiers.take(position as int) =~= identifiers);
        }
        index = index + 1;
    }
    assert(all.take(index as int) =~= all);
    owners
}

/// Each orphan gets exactly one ruling: the four counts add up.
pub proof fn law_every_orphan_is_counted_once(
    histories: Seq<HistoryView>,
    minimum_age_seconds: Option<u64>,
    now_epoch_seconds: i64,
    demoted: Set<u128>,
)
    ensures
        ruled(
            histories,
            PurgeVerdict::Selected,
            minimum_age_seconds,
            now_epoch_seconds,
            demoted,
        ).len() + ruled(
            histories,
            PurgeVerdict::KeptByAge,
            minimum_age_seconds,
            now_epoch_seconds,
            demoted,
        ).len() + ruled(
            histories,
            PurgeVerdict::KeptConfiguration,
            minimum_age_seconds,
            now_epoch_seconds,
            demoted,
        ).len() + ruled(
            histories,
            PurgeVerdict::KeptByReferences,
            minimum_age_seconds,
            now_epoch_seconds,
            demoted,
        ).len() == histories.len(),
    decreases histories.len(),
{
    if histories.len() > 0 {
        law_every_orphan_is_counted_once(
            histories.drop_last(),
            minimum_age_seconds,
            now_epoch_seconds,
            demoted,
        );
    }
}

/// A purge selects orphans only, and none that freezes a configuration, that
/// an age bound does not certify as old enough, or that a reference from
/// outside demotes.
pub proof fn law_purge_spares_protected_histories(
    histories: Seq<HistoryView>,
    minimum_age_seconds: Option<u64>,
    now_epoch_seconds: i64,
    demoted: Set<u128>,
    index: int,
)
    requires
        0 <= index < ruled(
            histories,
            PurgeVerdict::Selected,
            minimum_age_seconds,
            now_epoch_seconds,
            demoted,
        ).len(),
    ensures
        ({
            let selected = ruled(
                histories,
                PurgeVerdict::Selected,
                minimum_age_seconds,
                now_epoch_seconds,
                demoted,
            )[index];
            &&& histories.contains(selected)
            &&& !selected.freezes_a_configuration
            &&& minimum_age_seconds is Some ==> old_enough(
                selected,
                minimum_age_seconds->0,
                now_epoch_seconds,
            )
            &&& !demoted.contains(selected.versionable)
        }),
    decreases histories.len(),
{
    let rest = histories.drop_last();
    let earlier = ruled(
        rest,
        PurgeVerdict::Selected,
        minimum_age_seconds,
        now_epoch_seconds,
        demoted,
    );
    if index < earlier.len() {
        law_purge_spares_protected_histories(
            rest,
            minimum_age_seconds,
            now_epoch_seconds,
            demoted,
            index,
        );
        let i = choose|i: int| 0 <= i < rest.len() && rest[i] == earlier[index];
        assert(histories[i] == earlier[index]);
    } else {
        assert(histories[histories.len() - 1] == histories.last());
    }
}

/// Where a path lies under an ancestor, in order.
spec fn places_under(histories: Seq<Seq<char>>, ancestor: Seq<char>) -> Set<int> {
    Set::new(
        |i: int|
            0 <= i < histories.len() && paths::ancestors(histories[i]).contains(ancestor),
    )
}

proof fn lemma_places_under(histories: Seq<Seq<char>>, ancestor: Seq<char>)
    ensures
        places_under(histories, ancestor).finite(),
        places_under(histories, ancestor).len() == version_storage::count_under(
            histories,
            ancestor,
        ),
    decreases histories.len(),
{
    let places = places_under(histories, ancestor);
    if histories.len() == 0 {
        assert(places =~= Set::empty());
    } else {
        let rest = histories.drop_last();
        let last = histories.len() - 1;
        lemma_places_under(rest, ancestor);
        if paths::ancestors(histories.last()).contains(ancestor) {
            assert(places =~= places_under(rest, ancestor).insert(last));
        } else {
            assert(places =~= places_under(rest, ancestor));
        }
    }
}

/// An omitted node above histories keeps no history: every history node that
/// the scan came upon beneath it is selected, so none that is live, kept or
/// unclassified is lost with it.
pub proof fn law_omitted_node_keeps_no_history(
    storage: StorageView,
    minimum_age_seconds: Option<u64>,
    now_epoch_seconds: i64,
    demoted: Set<u128>,
    path: Seq<char>,
    history: int,
)
    requires
        storage.consistent(),
        ground_of(
            storage,
            ruled(
                storage.histories,
                PurgeVerdict::Selected,
                minimum_age_seconds,
                now_epoch_seconds,
                demoted,
            ),
        ).omissible(path),
        0 <= history < storage.begun.len(),
        paths::ancestors(storage.begun[history].path).contains(path),
    ensures
        exists|i: int|
            0 <= i < ruled(
                storage.histories,
                PurgeVerdict::Selected,
                minimum_age_seconds,
                now_epoch_seconds,
                demoted,
            ).len() && storage.begun[history] == (BegunHistory {
                path: (#[trigger] ruled(
                    storage.histories,
                    PurgeVerdict::Selected,
                    minimum_age_seconds,
                    now_epoch_seconds,
                    demoted,
                )[i]).path,
                versionable: Some(
                    ruled(
                        storage.histories,
                        PurgeVerdict::Selected,
                        minimum_age_seconds,
                        now_epoch_seconds,
                        demoted,
                    )[i].versionable,
                ),
            }),
{
    let chosen = ruled(
        storage.histories,
        PurgeVerdict::Selected,
        minimum_age_seconds,
        now_epoch_seconds,
        demoted,
    );
    let begun = version_storage::begun_paths(storage.begun);
    let selected = paths_of(chosen);
    let there = places_under(begun, path);
    let gone = places_under(selected, path);
    lemma_places_under(begun, path);
    lemma_places_under(selected, path);
    let birth = |i: int|
        choose|j: int|
            0 <= j < storage.begun.len() && #[trigger] storage.begun[j] == (BegunHistory {
                path: chosen[i].path,
                versionable: Some(chosen[i].versionable),
            });
    assert forall|i: int| 0 <= i < chosen.len() implies {
        let j = #[trigger] birth(i);
        &&& 0 <= j < storage.begun.len()
        &&& storage.begun[j] == (BegunHistory {
            path: chosen[i].path,
            versionable: Some(chosen[i].versionable),
        })
    } by {
        law_purge_spares_protected_histories(
            storage.histories,
            minimum_age_seconds,
            now_epoch_seconds,
            demoted,
            i,
        );
        let k = choose|k: int|
            0 <= k < storage.histories.len() && storage.histories[k] == chosen[i];
        assert(storage.begun.contains(
            BegunHistory {
                path: storage.histories[k].path,
                versionable: Some(storage.histories[k].versionable),
            },
        ));
    }
    lemma_ruled_is_unique(
        storage.histories,
        minimum_age_seconds,
        now_epoch_seconds,
        demoted,
    );
    let births = gone.map(birth);
    assert(births.subset_of(there)) by {
        assert forall|j: int| births.contains(j) implies there.contains(j) by {
            let i = choose|i: int| gone.contains(i) && j == birth(i);
            assert(begun[j] == selected[i]);
        }
    }
    vstd::set_lib::lemma_map_size(gone, births, birth);
    vstd::set_lib::lemma_subset_equality(births, there);
    assert(there.contains(history));
    let i = choose|i: int| gone.contains(i) && history == birth(i);
    assert(0 <= i < chosen.len());
    assert(chosen[i].path == storage.begun[history].path);
}

proof fn lemma_ruled_is_unique(
    histories: Seq<HistoryView>,
    minimum_age_seconds: Option<u64>,
    now_epoch_seconds: i64,
    demoted: Set<u128>,
)
    requires
        forall|i: int, j: int|
            0 <= i < j < histories.len() ==> (#[trigger] histories[i]).versionable != (
            #[trigger] histories[j]).versionable,
    ensures
        ({
            let chosen = ruled(
                histories,
                PurgeVerdict::Selected,
                minimum_age_seconds,
                now_epoch_seconds,
                demoted,
            );
            forall|i: int, j: int|
                0 <= i < j < chosen.len() ==> (#[trigger] chosen[i]).versionable != (
                #[trigger] chosen[j]).versionable
        }),
    decreases histories.len(),
{
    if histories.len() > 0 {
        let rest = histories.drop_last();
        lemma_ruled_is_unique(rest, minimum_age_seconds, now_epoch_seconds, demoted);
        let earlier = ruled(
            rest,
            PurgeVerdict::Selected,
            minimum_age_seconds,
            now_epoch_seconds,
            demoted,
        );
        let chosen = ruled(
            histories,
            PurgeVerdict::Selected,
            minimum_age_seconds,
            now_epoch_seconds,
            demoted,
        );
        assert forall|i: int, j: int| 0 <= i < j < chosen.len() implies (
        #[trigger] chosen[i]).versionable != (#[trigger] chosen[j]).versionable by {
            assert(chosen[i] == earlier[i]);
            if j < earlier.len() {
                assert(chosen[j] == earlier[j]);
            } else {
                law_purge_spares_protected_histories(
                    rest,
                    minimum_age_seconds,
                    now_epoch_seconds,
                    demoted,
                    i,
                );
                let k = choose|k: int| 0 <= k < rest.len() && rest[k] == earlier[i];
                assert(histories[k] == earlier[i]);
            }
        }
    }
}

} // verus!
