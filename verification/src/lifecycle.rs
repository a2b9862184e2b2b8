//! The life of one file: created, initialised, filled with events one by
//! one, finalised. Each step is shown to be accepted by the container and
//! to leave the file in the state that the next step expects.

use vstd::prelude::*;
use crate::action::{ValueKind, ValueModel};
use crate::container::{lemma_apply_all_concat, ContainerModel};
use crate::event::MergerModel;
use crate::layout::{Attr, Node};
use crate::protocol::{encode_ops, finish_ops, frib_ops, get_ops, init_ops, provenance_ops};

verus! {

/// The file was initialised and holds the groups of exactly the events
/// below `count`, and nothing that belongs to a later event.
pub open spec fn holds_events(c: ContainerModel, count: u64, version: Seq<char>) -> bool {
    &&& c.groups.contains(Node::Events)
    &&& forall|k: u64| #[trigger] c.groups.contains(Node::Event(k)) <==> k < count
    &&& forall|node: Node| #[trigger] c.holds(node) ==> node is Events || node.event_index() < count
    &&& forall|node: Node, attr: Attr| #[trigger] c.has_attribute(node, attr) ==> c.holds(node)
    &&& c.min_event() == Some(0u64)
    &&& c.version() == Some(version)
    &&& c.has_attribute(Node::Events, Attr::MaxEvent)
    &&& c.attributes[(Node::Events, Attr::MaxEvent)].kind == ValueKind::U64
}

/// The file is open: it holds `count` events and its `max_event` is still
/// the placeholder.
pub open spec fn writable(c: ContainerModel, count: u64, version: Seq<char>) -> bool {
    &&& holds_events(c, count, version)
    &&& c.attributes[(Node::Events, Attr::MaxEvent)].value is None
}

/// The file is closed: it holds `count` events and its `max_event` says so.
pub open spec fn finalized(c: ContainerModel, count: u64, version: Seq<char>) -> bool {
    &&& holds_events(c, count, version)
    &&& c.max_event() == Some(count)
}

/// The two files agree on one attribute of a node.
pub open spec fn same_attribute(
    c: ContainerModel,
    d: ContainerModel,
    node: Node,
    attr: Attr,
) -> bool {
    &&& c.has_attribute(node, attr) == d.has_attribute(node, attr)
    &&& c.has_attribute(node, attr) ==> c.attributes[(node, attr)] == d.attributes[(node, attr)]
}

/// The two files agree on a node: whether it exists, what it holds, and
/// its attributes.
pub open spec fn same_node(c: ContainerModel, d: ContainerModel, node: Node) -> bool {
    &&& c.groups.contains(node) == d.groups.contains(node)
    &&& c.datasets.dom().contains(node) == d.datasets.dom().contains(node)
    &&& c.datasets.dom().contains(node) ==> c.datasets[node] == d.datasets[node]
    &&& forall|attr: Attr| #[trigger] same_attribute(c, d, node, attr)
}

/// The two files agree on every node of the events other than the one with
/// the given index.
pub open spec fn same_but_event(c: ContainerModel, d: ContainerModel, index: u64) -> bool {
    forall|node: Node|
        !(node is Events) && node.event_index() != index ==> #[trigger] same_node(c, d, node)
}

/// The file holds the event under the given index, as it was written: its
/// group with the two provenance attributes and no other, and each payload
/// if and only if the event carries it.
pub open spec fn holds_event(c: ContainerModel, index: u64, event: MergerModel) -> bool {
    &&& c.groups.contains(Node::Event(index))
    &&& c.attribute(Node::Event(index), Attr::OrigRun) == Some(ValueModel::I32(event.run_number))
    &&& c.attribute(Node::Event(index), Attr::OrigEvent) == Some(ValueModel::U64(event.event))
    &&& forall|attr: Attr| #[trigger]
        c.has_attribute(Node::Event(index), attr) ==> attr is OrigRun || attr is OrigEvent
    &&& match event.get {
        None => !c.holds(Node::GetTraces(index)),
        Some(get) => {
            let traces = Node::GetTraces(index);
            &&& c.datasets.dom().contains(traces)
            &&& c.datasets[traces] == get.traces
            &&& c.attribute(traces, Attr::Id) == Some(ValueModel::U32(get.id))
            &&& c.attribute(traces, Attr::Timestamp) == Some(ValueModel::U64(get.timestamp))
            &&& c.attribute(traces, Attr::TimestampOther) == Some(
                ValueModel::U64(get.timestamp_other),
            )
            &&& forall|attr: Attr| #[trigger]
                c.has_attribute(traces, attr) ==> attr is Id || attr is Timestamp
                    || attr is TimestampOther
        },
    }
    &&& match event.frib {
        None => {
            &&& !c.holds(Node::FribPhysics(index))
            &&& !c.holds(Node::FribTraces(index))
            &&& !c.holds(Node::FribCoincidence(index))
        },
        Some(frib) => {
            let physics = Node::FribPhysics(index);
            &&& c.groups.contains(physics)
            &&& c.attribute(physics, Attr::Event) == Some(ValueModel::U32(frib.event))
            &&& c.attribute(physics, Attr::Timestamp) == Some(ValueModel::U32(frib.timestamp))
            &&& forall|attr: Attr| #[trigger]
                c.has_attribute(physics, attr) ==> attr is Event || attr is Timestamp
            &&& c.datasets.dom().contains(Node::FribTraces(index))
            &&& c.datasets[Node::FribTraces(index)] == frib.traces
            &&& c.datasets.dom().contains(Node::FribCoincidence(index))
            &&& c.datasets[Node::FribCoincidence(index)] == frib.coincidence
            &&& forall|attr: Attr|
                !(#[trigger] c.has_attribute(Node::FribTraces(index), attr))
            &&& forall|attr: Attr|
                !(#[trigger] c.has_attribute(Node::FribCoincidence(index), attr))
        },
    }
}

/// The indices below `n`.
pub open spec fn indices_below(n: nat) -> Set<u64> {
    Set::new(|k: u64| k < n)
}

/// There are `n` indices below `n`.
pub proof fn lemma_indices_below(n: nat)
    requires
        n <= u64::MAX,
    ensures
        indices_below(n).finite(),
        indices_below(n).len() == n,
    decreases n,
{
    if n == 0 {
        assert(indices_below(n) =~= Set::<u64>::empty());
    } else {
        let m = (n - 1) as nat;
        lemma_indices_below(m);
        assert(indices_below(n) =~= indices_below(m).insert(m as u64));
    }
}

/// A fresh file accepts its initialisation and is then open and empty:
/// `min_event` is zero, `version` is the tag, and `max_event` is still
/// unwritten.
pub proof fn lemma_init(version: Seq<char>)
    ensures
        ContainerModel::empty().apply_all(init_ops(version)) is Some,
        writable(ContainerModel::empty().apply_all(init_ops(version))->0, 0, version),
        ({
            let c = ContainerModel::empty().apply_all(init_ops(version))->0;
            &&& c.min_event() == Some(0u64)
            &&& c.version() == Some(version)
            &&& c.max_event() is None
            &&& c.event_groups() == Set::<u64>::empty()
        }),
{
    reveal_with_fuel(ContainerModel::apply_all, 5);
    let c = ContainerModel::empty().apply_all(init_ops(version))->0;
    assert(c.groups =~= Set::empty().insert(Node::Events));
    assert(c.datasets =~= Map::empty());
    assert(c.event_groups() =~= Set::<u64>::empty());
}

/// An open file accepts being finalised with the number of its events, and
/// is then closed: a reader finds in `max_event` the number of event groups
/// that the file holds. Nothing else changes.
pub proof fn lemma_finish(c: ContainerModel, count: u64, version: Seq<char>)
    requires
        writable(c, count, version),
    ensures
        c.apply_all(finish_ops(count)) is Some,
        finalized(c.apply_all(finish_ops(count))->0, count, version),
        ({
            let d = c.apply_all(finish_ops(count))->0;
            &&& d.max_event() == Some(count)
            &&& d.min_event() == Some(0u64)
            &&& d.version() == Some(version)
            &&& d.event_groups().finite()
            &&& d.event_groups().len() == count
        }),
        forall|index: u64, event: MergerModel| #[trigger]
            holds_event(c, index, event) ==> holds_event(
                c.apply_all(finish_ops(count))->0,
                index,
                event,
            ),
{
    reveal_with_fuel(ContainerModel::apply_all, 2);
    let d = c.apply_all(finish_ops(count))->0;
    assert(d.groups == c.groups);
    lemma_indices_below(count as nat);
    assert(d.event_groups() =~= indices_below(count as nat)) by {
        assert forall|k: u64| d.event_groups().contains(k) <==> k < count by {
            assert(c.groups.contains(Node::Event(k)) <==> k < count);
        }
    }
    assert(d.datasets == c.datasets);
    assert forall|node: Node| #[trigger] d.holds(node) implies node is Events || node.event_index()
        < count by {
        assert(c.holds(node));
    }
    assert forall|node: Node, attr: Attr| #[trigger] d.has_attribute(node, attr) implies d.holds(
        node,
    ) by {
        if node != Node::Events {
            assert(c.has_attribute(node, attr));
        }
        assert(c.holds(Node::Events));
    }
    assert forall|index: u64, event: MergerModel| #[trigger]
        holds_event(c, index, event) implies holds_event(d, index, event) by {
        assert forall|node: Node|
            !(node is Events) && node.event_index() == index implies #[trigger] same_node(
            c,
            d,
            node,
        ) by {
            assert forall|attr: Attr| #[trigger] same_attribute(c, d, node, attr) by {}
        }
        lemma_event_kept(c, d, index, event);
    }
}

/// The event without its payloads.
pub open spec fn bare(event: MergerModel) -> MergerModel {
    MergerModel { get: None, frib: None, ..event }
}

/// The event without its FRIB payload.
pub open spec fn without_frib(event: MergerModel) -> MergerModel {
    MergerModel { frib: None, ..event }
}

/// An open file accepts the group of its next event and the provenance
/// attributes.
proof fn lemma_provenance(c: ContainerModel, count: u64, version: Seq<char>, event: MergerModel)
    requires
        writable(c, count, version),
        count < u64::MAX,
    ensures
        c.apply_all(provenance_ops(count, event)) is Some,
        writable(c.apply_all(provenance_ops(count, event))->0, (count + 1) as u64, version),
        holds_event(c.apply_all(provenance_ops(count, event))->0, count, bare(event)),
        same_but_event(c, c.apply_all(provenance_ops(count, event))->0, count),
{
    reveal_with_fuel(ContainerModel::apply_all, 4);
    let node = Node::Event(count);
    let d = c.apply_all(provenance_ops(count, event))->0;
    assert(!c.holds(node));
    assert(!c.has_attribute(node, Attr::OrigRun)) by {
        assert(!c.holds(node));
    }
    assert(!c.has_attribute(node, Attr::OrigEvent)) by {
        assert(!c.holds(node));
    }
    assert(c.apply_all(provenance_ops(count, event)) is Some);
    assert(d.groups == c.groups.insert(node));
    assert(d.datasets == c.datasets);
    assert forall|k: u64| #[trigger] d.groups.contains(Node::Event(k)) <==> k < count + 1 by {
        assert(c.groups.contains(Node::Event(k)) <==> k < count);
    }
    assert forall|other: Node| #[trigger] d.holds(other) implies other is Events
        || other.event_index() < count + 1 by {
        if other != node {
            assert(c.holds(other));
        }
    }
    assert forall|other: Node, attr: Attr| #[trigger] d.has_attribute(other, attr) implies d.holds(
        other,
    ) by {
        if other != node {
            assert(c.has_attribute(other, attr));
            assert(c.holds(other));
        }
    }
    assert(c.holds(Node::Events));
    assert(!d.holds(Node::GetTraces(count))) by {
        assert(!c.holds(Node::GetTraces(count)));
    }
    assert(!d.holds(Node::FribPhysics(count))) by {
        assert(!c.holds(Node::FribPhysics(count)));
    }
    assert(!d.holds(Node::FribTraces(count))) by {
        assert(!c.holds(Node::FribTraces(count)));
    }
    assert(!d.holds(Node::FribCoincidence(count))) by {
        assert(!c.holds(Node::FribCoincidence(count)));
    }
    assert forall|attr: Attr| #[trigger] d.has_attribute(node, attr) implies attr is OrigRun
        || attr is OrigEvent by {
        if !(attr is OrigRun || attr is OrigEvent) {
            assert(c.has_attribute(node, attr));
        }
    }
}

/// A file in which the next event has its group accepts the GET payload.
proof fn lemma_get(c: ContainerModel, count: u64, version: Seq<char>, event: MergerModel)
    requires
        count < u64::MAX,
        writable(c, (count + 1) as u64, version),
        holds_event(c, count, bare(event)),
    ensures
        c.apply_all(get_ops(count, event.get)) is Some,
        writable(c.apply_all(get_ops(count, event.get))->0, (count + 1) as u64, version),
        holds_event(c.apply_all(get_ops(count, event.get))->0, count, without_frib(event)),
        same_but_event(c, c.apply_all(get_ops(count, event.get))->0, count),
{
    reveal_with_fuel(ContainerModel::apply_all, 5);
    let traces = Node::GetTraces(count);
    let d = c.apply_all(get_ops(count, event.get))->0;
    match event.get {
        None => {},
        Some(get) => {
            assert(!c.has_attribute(traces, Attr::Id)) by {
                assert(!c.holds(traces));
            }
            assert(!c.has_attribute(traces, Attr::Timestamp)) by {
                assert(!c.holds(traces));
            }
            assert(!c.has_attribute(traces, Attr::TimestampOther)) by {
                assert(!c.holds(traces));
            }
            assert(c.apply_all(get_ops(count, event.get)) is Some);
            assert(d.groups == c.groups);
            assert(d.datasets == c.datasets.insert(traces, get.traces));
            assert forall|other: Node| #[trigger] d.holds(other) implies other is Events
                || other.event_index() < count + 1 by {
                if other != traces {
                    assert(c.holds(other));
                }
            }
            assert forall|other: Node, attr: Attr| #[trigger]
                d.has_attribute(other, attr) implies d.holds(other) by {
                if other != traces {
                    assert(c.has_attribute(other, attr));
                    assert(c.holds(other));
                }
            }
            assert(c.holds(Node::Events));
            assert forall|attr: Attr| #[trigger]
                d.has_attribute(Node::Event(count), attr) implies attr is OrigRun
                || attr is OrigEvent by {
                assert(c.has_attribute(Node::Event(count), attr));
            }
            assert forall|attr: Attr| #[trigger] d.has_attribute(traces, attr) implies attr is Id
                || attr is Timestamp || attr is TimestampOther by {
                if !(attr is Id || attr is Timestamp || attr is TimestampOther) {
                    assert(c.has_attribute(traces, attr));
                    assert(c.holds(traces));
                }
            }
            assert(!d.holds(Node::FribPhysics(count))) by {
                assert(!c.holds(Node::FribPhysics(count)));
            }
            assert(!d.holds(Node::FribTraces(count))) by {
                assert(!c.holds(Node::FribTraces(count)));
            }
            assert(!d.holds(Node::FribCoincidence(count))) by {
                assert(!c.holds(Node::FribCoincidence(count)));
            }
        },
    }
}

/// A file in which the next event has its group accepts the FRIB payload.
proof fn lemma_frib(c: ContainerModel, count: u64, version: Seq<char>, event: MergerModel)
    requires
        count < u64::MAX,
        writable(c, (count + 1) as u64, version),
        holds_event(c, count, without_frib(event)),
    ensures
        c.apply_all(frib_ops(count, event.frib)) is Some,
        writable(c.apply_all(frib_ops(count, event.frib))->0, (count + 1) as u64, version),
        holds_event(c.apply_all(frib_ops(count, event.frib))->0, count, event),
        same_but_event(c, c.apply_all(frib_ops(count, event.frib))->0, count),
{
    reveal_with_fuel(ContainerModel::apply_all, 6);
    let physics = Node::FribPhysics(count);
    let traces = Node::FribTraces(count);
    let coincidence = Node::FribCoincidence(count);
    let d = c.apply_all(frib_ops(count, event.frib))->0;
    match event.frib {
        None => {},
        Some(frib) => {
            assert(!c.has_attribute(physics, Attr::Event)) by {
                assert(!c.holds(physics));
            }
            assert(!c.has_attribute(physics, Attr::Timestamp)) by {
                assert(!c.holds(physics));
            }
            assert(c.apply_all(frib_ops(count, event.frib)) is Some);
            assert(d.groups == c.groups.insert(physics));
            assert(d.datasets == c.datasets.insert(traces, frib.traces).insert(
                coincidence,
                frib.coincidence,
            ));
            assert forall|k: u64| #[trigger] d.groups.contains(Node::Event(k)) <==> k < count
                + 1 by {
                assert(c.groups.contains(Node::Event(k)) <==> k < count + 1);
            }
            assert forall|other: Node| #[trigger] d.holds(other) implies other is Events
                || other.event_index() < count + 1 by {
                if other != physics && other != traces && other != coincidence {
                    assert(c.holds(other));
                }
            }
            assert forall|other: Node, attr: Attr| #[trigger]
                d.has_attribute(other, attr) implies d.holds(other) by {
                if other != physics {
                    assert(c.has_attribute(other, attr));
                    assert(c.holds(other));
                }
            }
            assert(c.holds(Node::Events));
            assert forall|attr: Attr| #[trigger]
                d.has_attribute(Node::Event(count), attr) implies attr is OrigRun
                || attr is OrigEvent by {
                assert(c.has_attribute(Node::Event(count), attr));
            }
            assert forall|attr: Attr| #[trigger] d.has_attribute(physics, attr) implies attr is Event
                || attr is Timestamp by {
                if !(attr is Event || attr is Timestamp) {
                    assert(c.has_attribute(physics, attr));
                    assert(c.holds(physics));
                }
            }
            assert forall|attr: Attr| !(#[trigger] d.has_attribute(traces, attr)) by {
                if c.has_attribute(traces, attr) {
                    assert(c.holds(traces));
                }
            }
            assert forall|attr: Attr| !(#[trigger] d.has_attribute(coincidence, attr)) by {
                if c.has_attribute(coincidence, attr) {
                    assert(c.holds(coincidence));
                }
            }
            match event.get {
                None => {
                    assert(!d.holds(Node::GetTraces(count))) by {
                        assert(!c.holds(Node::GetTraces(count)));
                    }
                },
                Some(get) => {
                    let get_traces = Node::GetTraces(count);
                    assert forall|attr: Attr| #[trigger]
                        d.has_attribute(get_traces, attr) implies attr is Id || attr is Timestamp
                        || attr is TimestampOther by {
                        assert(c.has_attribute(get_traces, attr));
                    }
                },
            }
        },
    }
}

/// Two changes that each leave the other events alone do so together.
proof fn lemma_same_but_event_chain(
    c: ContainerModel,
    d: ContainerModel,
    e: ContainerModel,
    index: u64,
)
    requires
        same_but_event(c, d, index),
        same_but_event(d, e, index),
    ensures
        same_but_event(c, e, index),
{
    assert forall|node: Node| !(node is Events) && node.event_index() != index implies #[trigger]
        same_node(c, e, node) by {
        assert(same_node(c, d, node));
        assert(same_node(d, e, node));
        assert forall|attr: Attr| #[trigger] same_attribute(c, e, node, attr) by {
            assert(same_attribute(c, d, node, attr));
            assert(same_attribute(d, e, node, attr));
        }
    }
}

/// An open file accepts everything that is written for its next event. It
/// then holds that event as it was given, one event more than before, and
/// every earlier event as before.
pub proof fn lemma_encode(c: ContainerModel, count: u64, version: Seq<char>, event: MergerModel)
    requires
        writable(c, count, version),
        count < u64::MAX,
    ensures
        c.apply_all(encode_ops(count, event)) is Some,
        writable(c.apply_all(encode_ops(count, event))->0, (count + 1) as u64, version),
        holds_event(c.apply_all(encode_ops(count, event))->0, count, event),
        same_but_event(c, c.apply_all(encode_ops(count, event))->0, count),
{
    let first = provenance_ops(count, event);
    let second = get_ops(count, event.get);
    let third = frib_ops(count, event.frib);
    lemma_provenance(c, count, version, event);
    let c1 = c.apply_all(first)->0;
    lemma_get(c1, count, version, event);
    let c2 = c1.apply_all(second)->0;
    lemma_frib(c2, count, version, event);
    let c3 = c2.apply_all(third)->0;
    lemma_apply_all_concat(c, first, second);
    lemma_apply_all_concat(c, first + second, third);
    lemma_same_but_event_chain(c, c1, c2, count);
    lemma_same_but_event_chain(c, c2, c3, count);
}

/// A payload that an event does not carry leaves no trace in the file. An
/// event without GET payload gets no `get_traces`; one without FRIB payload
/// gets no `frib_physics`, and so none of its datasets; one without either
/// gets its group with the two provenance attributes, and that is all.
pub proof fn lemma_missing_payloads(
    c: ContainerModel,
    count: u64,
    version: Seq<char>,
    event: MergerModel,
)
    requires
        writable(c, count, version),
        count < u64::MAX,
    ensures
        c.apply_all(encode_ops(count, event)) is Some,
        ({
            let d = c.apply_all(encode_ops(count, event))->0;
            let group = Node::Event(count);
            &&& event.get is None ==> !d.holds(Node::GetTraces(count))
            &&& event.frib is None ==> !d.holds(Node::FribPhysics(count)) && !d.holds(
                Node::FribTraces(count),
            ) && !d.holds(Node::FribCoincidence(count))
            &&& event.get is None && event.frib is None ==> {
                &&& encode_ops(count, event) == provenance_ops(count, event)
                &&& forall|node: Node|
                    #![trigger d.holds(node)]
                    d.holds(node) && !(node is Events) && node.event_index() == count ==> node
                        == group
                &&& forall|attr: Attr| #[trigger]
                    d.has_attribute(group, attr) ==> attr is OrigRun || attr is OrigEvent
                &&& d.attribute(group, Attr::OrigRun) == Some(ValueModel::I32(event.run_number))
                &&& d.attribute(group, Attr::OrigEvent) == Some(ValueModel::U64(event.event))
            }
        }),
{
    lemma_encode(c, count, version, event);
    if event.get is None && event.frib is None {
        assert(encode_ops(count, event) =~= provenance_ops(count, event));
    }
}

/// What is written for one event leaves the other events as they were.
pub proof fn lemma_other_event_kept(
    c: ContainerModel,
    d: ContainerModel,
    changed: u64,
    index: u64,
    event: MergerModel,
)
    requires
        same_but_event(c, d, changed),
        index != changed,
        holds_event(c, index, event),
    ensures
        holds_event(d, index, event),
{
    assert forall|node: Node| !(node is Events) && node.event_index() == index implies #[trigger]
        same_node(c, d, node) by {}
    lemma_event_kept(c, d, index, event);
}

/// What a file holds of an event depends on the nodes of that event alone.
proof fn lemma_event_kept(c: ContainerModel, d: ContainerModel, index: u64, event: MergerModel)
    requires
        holds_event(c, index, event),
        forall|node: Node|
            !(node is Events) && node.event_index() == index ==> #[trigger] same_node(c, d, node),
    ensures
        holds_event(d, index, event),
{
    let group = Node::Event(index);
    let get_traces = Node::GetTraces(index);
    let physics = Node::FribPhysics(index);
    let traces = Node::FribTraces(index);
    let coincidence = Node::FribCoincidence(index);
    assert(same_node(c, d, group));
    assert(same_node(c, d, get_traces));
    assert(same_node(c, d, physics));
    assert(same_node(c, d, traces));
    assert(same_node(c, d, coincidence));
    assert(same_attribute(c, d, group, Attr::OrigRun));
    assert(same_attribute(c, d, group, Attr::OrigEvent));
    assert forall|attr: Attr| #[trigger] d.has_attribute(group, attr) implies attr is OrigRun
        || attr is OrigEvent by {
        assert(same_attribute(c, d, group, attr));
        assert(c.has_attribute(group, attr));
    }
    match event.get {
        None => {},
        Some(get) => {
            assert(same_attribute(c, d, get_traces, Attr::Id));
            assert(same_attribute(c, d, get_traces, Attr::Timestamp));
            assert(same_attribute(c, d, get_traces, Attr::TimestampOther));
            assert forall|attr: Attr| #[trigger] d.has_attribute(get_traces, attr) implies attr is Id
                || attr is Timestamp || attr is TimestampOther by {
                assert(same_attribute(c, d, get_traces, attr));
                assert(c.has_attribute(get_traces, attr));
            }
        },
    }
    match event.frib {
        None => {},
        Some(frib) => {
            assert(same_attribute(c, d, physics, Attr::Event));
            assert(same_attribute(c, d, physics, Attr::Timestamp));
            assert forall|attr: Attr| #[trigger] d.has_attribute(physics, attr) implies attr is Event
                || attr is Timestamp by {
                assert(same_attribute(c, d, physics, attr));
                assert(c.has_attribute(physics, attr));
            }
            assert forall|attr: Attr| !(#[trigger] d.has_attribute(traces, attr)) by {
                assert(same_attribute(c, d, traces, attr));
                assert(!c.has_attribute(traces, attr));
            }
            assert forall|attr: Attr| !(#[trigger] d.has_attribute(coincidence, attr)) by {
                assert(same_attribute(c, d, coincidence, attr));
                assert(!c.has_attribute(coincidence, attr));
            }
        },
    }
}

} // verus!
