//! What must hold of the head before a plan rests on it, and the order of the
//! walks that establish it.
use vstd::prelude::*;
use vstd::string::*;
use crate::error::{refusal, Error};
use crate::identifier::RecordIdentifier;
use crate::planning::content_census::{ContentView, PlanningContentCensus};

verus! {

/// What an operator reads when the head is no node.
pub open spec fn not_a_node_text(head: RecordIdentifier) -> Seq<char> {
    "current journal head "@ + head.text() + " is not a node record"@
}

/// What an operator reads when the head has no content.
pub open spec fn no_content_text(head: RecordIdentifier) -> Seq<char> {
    "journal root "@ + head.text() + " has no content \"root\" child node"@
}

/// What an operator reads when a checkpoint has no snapshot.
pub open spec fn no_snapshot_text(name: Seq<char>, head: RecordIdentifier) -> Seq<char> {
    "checkpoint "@ + name + " under journal root "@ + head.text()
        + " has no snapshot \"root\" child node"@
}

/// Refuses a head that is not a node record.
pub fn require_node_record(head: RecordIdentifier, is_node_record: bool) -> (checked: Result<
    (),
    Error,
>)
    ensures
        match checked {
            Ok(_) => is_node_record,
            Err(error) => !is_node_record && error.refuses(not_a_node_text(head)),
        },
{
    if is_node_record {
        return Ok(());
    }
    let mut details = String::new();
    details.append("current journal head ");
    head.push_text(&mut details);
    details.append(" is not a node record");
    assert(details@ =~= not_a_node_text(head));
    Err(refusal(details.as_str()))
}

/// Refuses a head without content.
pub fn require_content_root(
    head: RecordIdentifier,
    content_root: Option<RecordIdentifier>,
) -> (checked: Result<RecordIdentifier, Error>)
    ensures
        match checked {
            Ok(root) => content_root == Some(root),
            Err(error) => content_root is None && error.refuses(no_content_text(head)),
        },
{
    match content_root {
        Some(root) => Ok(root),
        None => {
            let mut details = String::new();
            details.append("journal root ");
            head.push_text(&mut details);
            details.append(" has no content \"root\" child node");
            assert(details@ =~= no_content_text(head));
            Err(refusal(details.as_str()))
        },
    }
}

/// A checkpoint under a head.
#[derive(Debug)]
pub struct CheckpointSnapshot {
    /// Its name.
    pub name: String,
    /// Whether it has a snapshot of the content.
    pub has_root: bool,
}

/// Whether a checkpoint is the first without a snapshot.
pub open spec fn is_first_empty(checkpoints: Seq<CheckpointSnapshot>, position: int) -> bool {
    &&& 0 <= position < checkpoints.len()
    &&& !checkpoints[position].has_root
    &&& forall|i: int| 0 <= i < position ==> (#[trigger] checkpoints[i]).has_root
}

/// Refuses a head with a checkpoint that has no snapshot.
pub fn require_checkpoint_snapshots(
    head: RecordIdentifier,
    checkpoints: &Vec<CheckpointSnapshot>,
) -> (checked: Result<(), Error>)
    ensures
        match checked {
            Ok(_) => forall|i: int|
                0 <= i < checkpoints@.len() ==> (#[trigger] checkpoints@[i]).has_root,
            Err(error) => exists|position: int| #[trigger]
                is_first_empty(checkpoints@, position) && error.refuses(
                    no_snapshot_text(checkpoints@[position].name@, head),
                ),
        },
{
    let mut index: usize = 0;
    while index < checkpoints.len()
        invariant
            index <= checkpoints@.len(),
            forall|i: int| 0 <= i < index ==> (#[trigger] checkpoints@[i]).has_root,
        decreases checkpoints@.len() - index,
    {
        let checkpoint = &checkpoints[index];
        if !checkpoint.has_root {
            let mut details = String::new();
            details.append("checkpoint ");
            details.append(checkpoint.name.as_str());
            details.append(" under journal root ");
            head.push_text(&mut details);
            details.append(" has no snapshot \"root\" child node");
            assert(details@ =~= no_snapshot_text(checkpoint.name@, head));
            assert(is_first_empty(checkpoints@, index as int));
            return Err(refusal(details.as_str()));
        }
        index = index + 1;
    }
    Ok(())
}

/// What is asked next of a revision that must read whole.
#[derive(Clone, Copy, Debug, PartialEq, Eq, Structural)]
pub enum SuperRootStage {
    /// Whether its record is a node.
    NodeRecord,
    /// A walk over its whole tree.
    Walk,
    /// Its content.
    ContentRoot,
    /// Its checkpoints.
    Checkpoints,
    /// Nothing; it reads whole.
    Finished,
}

/// The proof that a revision reads whole: it is a node, every node of its tree
/// reads, and neither it nor a checkpoint under it lacks content.
#[derive(Clone, Copy, Debug, PartialEq, Eq, Structural)]
pub struct SuperRootVerification {
    head: RecordIdentifier,
    stage: SuperRootStage,
    nodes: u64,
}

impl SuperRootVerification {
    /// The revision.
    pub closed spec fn head(&self) -> RecordIdentifier {
        self.head
    }

    /// What is asked next.
    pub closed spec fn stage(&self) -> SuperRootStage {
        self.stage
    }

    /// How many nodes its tree has, once it was walked.
    pub closed spec fn nodes(&self) -> u64 {
        self.nodes
    }

    /// Begins with the record of the revision.
    pub fn verify_exact_super_root(head: RecordIdentifier) -> (begun: Self)
        ensures
            begun.head() == head,
            begun.stage() == SuperRootStage::NodeRecord,
    {
        SuperRootVerification { head, stage: SuperRootStage::NodeRecord, nodes: 0 }
    }

    /// What is asked next.
    pub fn asked(&self) -> (stage: SuperRootStage)
        ensures
            stage == self.stage(),
    {
        self.stage
    }

    /// Refuses a revision that is no node.
    pub fn take_node_record(&mut self, is_node_record: bool) -> (taken: Result<(), Error>)
        requires
            old(self).stage() == SuperRootStage::NodeRecord,
        ensures
            final(self).head() == old(self).head(),
            match taken {
                Ok(_) => is_node_record && final(self).stage() == SuperRootStage::Walk,
                Err(error) => !is_node_record && *final(self) == *old(self) && error.refuses(
                    not_a_node_text(old(self).head()),
                ),
            },
    {
        require_node_record(self.head, is_node_record)?;
        self.stage = SuperRootStage::Walk;
        Ok(())
    }

    /// Goes on once the whole tree was walked.
    pub fn walked(&mut self, nodes: u64)
        requires
            old(self).stage() == SuperRootStage::Walk,
        ensures
            final(self).head() == old(self).head(),
            final(self).stage() == SuperRootStage::ContentRoot,
            final(self).nodes() == nodes,
    {
        self.nodes = nodes;
        self.stage = SuperRootStage::ContentRoot;
    }

    /// Refuses a revision without content.
    pub fn take_content_root(&mut self, content_root: Option<RecordIdentifier>) -> (taken: Result<
        (),
        Error,
    >)
        requires
            old(self).stage() == SuperRootStage::ContentRoot,
        ensures
            final(self).head() == old(self).head(),
            final(self).nodes() == old(self).nodes(),
            match taken {
                Ok(_) => content_root is Some && final(self).stage() == SuperRootStage::Checkpoints,
                Err(error) => content_root is None && *final(self) == *old(self) && error.refuses(
                    no_content_text(old(self).head()),
                ),
            },
    {
        require_content_root(self.head, content_root)?;
        self.stage = SuperRootStage::Checkpoints;
        Ok(())
    }

    /// Refuses a revision with a checkpoint that has no snapshot.
    pub fn take_checkpoints(&mut self, checkpoints: &Vec<CheckpointSnapshot>) -> (taken: Result<
        (),
        Error,
    >)
        requires
            old(self).stage() == SuperRootStage::Checkpoints,
        ensures
            final(self).head() == old(self).head(),
            final(self).nodes() == old(self).nodes(),
            match taken {
                Ok(_) => {
                    &&& final(self).stage() == SuperRootStage::Finished
                    &&& forall|i: int|
                        0 <= i < checkpoints@.len() ==> (#[trigger] checkpoints@[i]).has_root
                },
                Err(error) => {
                    &&& *final(self) == *old(self)
                    &&& exists|position: int| #[trigger]
                        is_first_empty(checkpoints@, position) && error.refuses(
                            no_snapshot_text(checkpoints@[position].name@, old(self).head()),
                        )
                },
            },
    {
        require_checkpoint_snapshots(self.head, checkpoints)?;
        self.stage = SuperRootStage::Finished;
        Ok(())
    }

    /// How many nodes the revision has.
    pub fn finish(self) -> (nodes: u64)
        requires
            self.stage() == SuperRootStage::Finished,
        ensures
            nodes == self.nodes(),
    {
        self.nodes
    }
}

/// A walk that the verification of a head consists of.
#[derive(Clone, Copy, Debug, PartialEq, Eq, Structural)]
pub enum HeadWalk {
    /// The content, pruned at version storage, while identifiers mark their
    /// nodes alive.
    Content(RecordIdentifier),
    /// Version storage, with the scan of histories riding along.
    VersionStorage(RecordIdentifier),
    /// The head itself: its checkpoints, and whatever was not walked yet.
    SuperRoot(RecordIdentifier),
    /// Nothing is left to walk.
    Finished,
}

/// The verification of a head for planning, in an order that makes the census
/// exact by construction.
///
/// The content is walked first, so that every live identifier is seen under
/// live content before anything of version storage counts as walked. Version
/// storage follows, and live identifiers then release the histories that they
/// match. The head itself comes last, with matching off: orphans are judged
/// against the head's content alone.
#[derive(Debug)]
pub struct HeadVerification {
    head: RecordIdentifier,
    version_storage: Option<RecordIdentifier>,
    walk: HeadWalk,
}

impl HeadVerification {
    /// The head that is verified.
    pub closed spec fn head(&self) -> RecordIdentifier {
        self.head
    }

    /// The record of version storage, where there is any.
    pub closed spec fn version_storage(&self) -> Option<RecordIdentifier> {
        self.version_storage
    }

    /// The walk that comes next.
    pub closed spec fn walk(&self) -> HeadWalk {
        self.walk
    }

    /// The path at which the walk over the content is pruned.
    pub fn pruned_path() -> (path: &'static str)
        ensures
            path@ == "/jcr:system/jcr:versionStorage"@,
    {
        "/jcr:system/jcr:versionStorage"
    }

    /// Begins with the content, unless the head is no node or has none.
    pub fn verify_head_for_planning(
        head: RecordIdentifier,
        is_node_record: bool,
        content_root: Option<RecordIdentifier>,
        version_storage: Option<RecordIdentifier>,
        census: &mut PlanningContentCensus,
    ) -> (begun: Result<Self, Error>)
        requires
            old(census).well_formed(),
        ensures
            final(census).well_formed(),
            match begun {
                Ok(verification) => {
                    &&& is_node_record
                    &&& content_root is Some
                    &&& verification.head() == head
                    &&& verification.version_storage() == version_storage
                    &&& verification.walk() == HeadWalk::Content(content_root->0)
                    &&& final(census)@ == (ContentView {
                        match_live_identifiers: true,
                        ..old(census)@
                    })
                },
                Err(error) => {
                    &&& final(census)@ == old(census)@
                    &&& !is_node_record ==> error.refuses(not_a_node_text(head))
                    &&& is_node_record ==> content_root is None && error.refuses(
                        no_content_text(head),
                    )
                },
            },
    {
        require_node_record(head, is_node_record)?;
        let root = require_content_root(head, content_root)?;
        census.match_live_identifiers = true;
        Ok(HeadVerification { head, version_storage, walk: HeadWalk::Content(root) })
    }

    /// The walk that comes next.
    pub fn current(&self) -> (walk: HeadWalk)
        ensures
            walk == self.walk(),
    {
        self.walk
    }

    /// Goes on after the walk that was due. Identifiers stop marking nodes alive
    /// with the end of the content, and histories are released once both the
    /// content and version storage were walked.
    pub fn walked(&mut self, census: &mut PlanningContentCensus)
        requires
            old(census).well_formed(),
        ensures
            final(census).well_formed(),
            final(self).head() == old(self).head(),
            final(self).version_storage() == old(self).version_storage(),
            final(self).walk() == match old(self).walk() {
                HeadWalk::Content(_) => match old(self).version_storage() {
                    Some(storage) => HeadWalk::VersionStorage(storage),
                    None => HeadWalk::SuperRoot(old(self).head()),
                },
                HeadWalk::VersionStorage(_) => HeadWalk::SuperRoot(old(self).head()),
                HeadWalk::SuperRoot(_) => HeadWalk::Finished,
                HeadWalk::Finished => HeadWalk::Finished,
            },
            final(census)@ == match old(self).walk() {
                HeadWalk::Content(_) => ContentView {
                    match_live_identifiers: false,
                    version_storage: if old(self).version_storage() is Some {
                        old(census)@.version_storage
                    } else {
                        old(census)@.version_storage.resolved()
                    },
                    ..old(census)@
                },
                HeadWalk::VersionStorage(_) => ContentView {
                    version_storage: old(census)@.version_storage.resolved(),
                    ..old(census)@
                },
                _ => old(census)@,
            },
    {
        match self.walk {
            HeadWalk::Content(_) => {
                census.match_live_identifiers = false;
                match self.version_storage {
                    Some(storage) => {
                        self.walk = HeadWalk::VersionStorage(storage);
                    },
                    None => {
                        census.version_storage.resolve_live_matches();
                        self.walk = HeadWalk::SuperRoot(self.head);
                    },
                }
            },
            HeadWalk::VersionStorage(_) => {
                census.version_storage.resolve_live_matches();
                self.walk = HeadWalk::SuperRoot(self.head);
            },
            HeadWalk::SuperRoot(_) => {
                self.walk = HeadWalk::Finished;
            },
            HeadWalk::Finished => {},
        }
    }

    /// Ends the verification: refuses a head with a checkpoint that has no
    /// snapshot.
    pub fn finish(self, checkpoints: &Vec<CheckpointSnapshot>) -> (checked: Result<(), Error>)
        requires
            self.walk() == HeadWalk::Finished,
        ensures
            match checked {
                Ok(_) => forall|i: int|
                    0 <= i < checkpoints@.len() ==> (#[trigger] checkpoints@[i]).has_root,
                Err(error) => exists|position: int| #[trigger]
                    is_first_empty(checkpoints@, position) && error.refuses(
                        no_snapshot_text(checkpoints@[position].name@, self.head()),
                    ),
            },
    {
        require_checkpoint_snapshots(self.head, checkpoints)
    }
}

} // verus!
