//! Where things live inside a file: the groups and datasets, and the
//! attributes attached to them.

use vstd::prelude::*;
use vstd::string::*;
use crate::naming::{event_group_name, event_name, lemma_event_name_injective};

verus! {

/// A group or dataset of a file, below the root group.
#[derive(Clone, Copy, Debug, PartialEq, Eq, Structural)]
pub enum Node {
    /// The group `events`, directly below the root.
    Events,
    /// The group of the event with the given index, below `events`.
    Event(u64),
    /// The dataset `get_traces` of an event.
    GetTraces(u64),
    /// The group `frib_physics` of an event.
    FribPhysics(u64),
    /// The dataset `1903` below `frib_physics`: the FRIB traces.
    FribTraces(u64),
    /// The dataset `977` below `frib_physics`: the FRIB coincidence samples.
    FribCoincidence(u64),
}

/// An attribute of a group or dataset.
#[derive(Clone, Copy, Debug, PartialEq, Eq, Structural)]
pub enum Attr {
    MinEvent,
    MaxEvent,
    Version,
    OrigRun,
    OrigEvent,
    Id,
    Timestamp,
    TimestampOther,
    Event,
}

impl Node {
    /// Whether the node is a group; the others are datasets.
    pub open spec fn is_group(self) -> bool {
        self is Events || self is Event || self is FribPhysics
    }

    /// The group that holds the node; `None` stands for the root group.
    pub open spec fn parent(self) -> Option<Node> {
        match self {
            Node::Events => None,
            Node::Event(_) => Some(Node::Events),
            Node::GetTraces(k) => Some(Node::Event(k)),
            Node::FribPhysics(k) => Some(Node::Event(k)),
            Node::FribTraces(k) => Some(Node::FribPhysics(k)),
            Node::FribCoincidence(k) => Some(Node::FribPhysics(k)),
        }
    }

    /// The name of the node within its parent.
    pub open spec fn name_model(self) -> Seq<char> {
        match self {
            Node::Events => "events"@,
            Node::Event(k) => event_name(k as nat),
            Node::GetTraces(_) => "get_traces"@,
            Node::FribPhysics(_) => "frib_physics"@,
            Node::FribTraces(_) => "1903"@,
            Node::FribCoincidence(_) => "977"@,
        }
    }

    /// The names that lead from the root group to the node.
    pub open spec fn path_model(self) -> Seq<Seq<char>> {
        match self {
            Node::Events => seq!["events"@],
            Node::Event(k) => seq!["events"@, event_name(k as nat)],
            Node::GetTraces(k) => seq!["events"@, event_name(k as nat), "get_traces"@],
            Node::FribPhysics(k) => seq!["events"@, event_name(k as nat), "frib_physics"@],
            Node::FribTraces(k) => seq![
                "events"@,
                event_name(k as nat),
                "frib_physics"@,
                "1903"@,
            ],
            Node::FribCoincidence(k) => seq![
                "events"@,
                event_name(k as nat),
                "frib_physics"@,
                "977"@,
            ],
        }
    }

    /// Tells groups from datasets.
    pub fn group(&self) -> (group: bool)
        ensures
            group == self.is_group(),
    {
        match self {
            Node::Events => true,
            Node::Event(_) => true,
            Node::FribPhysics(_) => true,
            _ => false,
        }
    }

    /// Builds the names that lead from the root group to the node.
    pub fn path(&self) -> (path: Vec<String>)
        ensures
            path.deep_view() == self.path_model(),
    {
        let mut path: Vec<String> = Vec::new();
        path.push(String::from_str("events"));
        match self {
            Node::Events => {},
            Node::Event(k) => {
                path.push(event_group_name(*k));
            },
            Node::GetTraces(k) => {
                path.push(event_group_name(*k));
                path.push(String::from_str("get_traces"));
            },
            Node::FribPhysics(k) => {
                path.push(event_group_name(*k));
                path.push(String::from_str("frib_physics"));
            },
            Node::FribTraces(k) => {
                path.push(event_group_name(*k));
                path.push(String::from_str("frib_physics"));
                path.push(String::from_str("1903"));
            },
            Node::FribCoincidence(k) => {
                path.push(event_group_name(*k));
                path.push(String::from_str("frib_physics"));
                path.push(String::from_str("977"));
            },
        }
        assert(path.deep_view() =~= self.path_model());
        path
    }
}

impl Attr {
    /// The name under which the attribute is stored.
    pub open spec fn name_model(self) -> Seq<char> {
        match self {
            Attr::MinEvent => "min_event"@,
            Attr::MaxEvent => "max_event"@,
            Attr::Version => "version"@,
            Attr::OrigRun => "orig_run"@,
            Attr::OrigEvent => "orig_event"@,
            Attr::Id => "id"@,
            Attr::Timestamp => "timestamp"@,
            Attr::TimestampOther => "timestamp_other"@,
            Attr::Event => "event"@,
        }
    }

    /// The name under which the attribute is stored.
    pub fn name(&self) -> (name: &'static str)
        ensures
            name@ == self.name_model(),
    {
        match self {
            Attr::MinEvent => "min_event",
            Attr::MaxEvent => "max_event",
            Attr::Version => "version",
            Attr::OrigRun => "orig_run",
            Attr::OrigEvent => "orig_event",
            Attr::Id => "id",
            Attr::Timestamp => "timestamp",
            Attr::TimestampOther => "timestamp_other",
            Attr::Event => "event",
        }
    }
}

/// The path of a node is the path of its parent followed by its own name.
pub proof fn lemma_path_extends_parent(node: Node)
    ensures
        node.path_model() == match node.parent() {
            Some(parent) => parent.path_model().push(node.name_model()),
            None => seq![node.name_model()],
        },
{
    match node.parent() {
        Some(parent) => {
            assert(node.path_model() =~= parent.path_model().push(node.name_model()));
        },
        None => {},
    }
}

/// Different nodes have different paths, so a path names one node at most.
pub proof fn lemma_paths_distinct(a: Node, b: Node)
    requires
        a != b,
    ensures
        a.path_model() != b.path_model(),
{
    reveal_strlit("get_traces");
    reveal_strlit("frib_physics");
    reveal_strlit("1903");
    reveal_strlit("977");
    let pa = a.path_model();
    let pb = b.path_model();
    if pa == pb {
        assert(pa.len() == pb.len());
        assert(forall|i: int| 0 <= i < pa.len() ==> pa[i] == pb[i]);
        if pa.len() >= 2 {
            assert(pa[1] == event_name(a.event_index() as nat));
            assert(pb[1] == event_name(b.event_index() as nat));
            lemma_event_name_injective(a.event_index() as nat, b.event_index() as nat);
        }
        if pa.len() >= 3 {
            assert(pa[2].len() == pb[2].len());
        }
        if pa.len() >= 4 {
            assert(pa[3].len() == pb[3].len());
        }
        assert(a == b);
    }
}

/// Different attributes are stored under different names.
pub proof fn lemma_attr_names_distinct(a: Attr, b: Attr)
    requires
        a != b,
    ensures
        a.name_model() != b.name_model(),
{
    reveal_strlit("min_event");
    reveal_strlit("max_event");
    reveal_strlit("version");
    reveal_strlit("orig_run");
    reveal_strlit("orig_event");
    reveal_strlit("id");
    reveal_strlit("timestamp");
    reveal_strlit("timestamp_other");
    reveal_strlit("event");
    if a.name_model().len() == b.name_model().len() {
        assert(a.name_model()[0] != b.name_model()[0] || a.name_model()[1] != b.name_model()[1]);
    }
}

impl Node {
    /// The index of the event that the node belongs to; zero for `events` itself.
    pub open spec fn event_index(self) -> u64 {
        match self {
            Node::Events => 0,
            Node::Event(k) => k,
            Node::GetTraces(k) => k,
            Node::FribPhysics(k) => k,
            Node::FribTraces(k) => k,
            Node::FribCoincidence(k) => k,
        }
    }
}

} // verus!
