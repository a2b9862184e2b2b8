//! What is written for each step of a file's life, and in which order.

use vstd::prelude::*;
use crate::action::{reporting, ActionModel, OpModel, ValueKind, ValueModel};
use crate::error::WriterError;
use crate::event::{FribModel, GetModel, MergerModel};
use crate::layout::{Attr, Node};

verus! {

/// Initialising a fresh file: the group `events`, `min_event` fixed at zero,
/// `max_event` reserved for the closing count, and the version tag.
pub open spec fn init_ops(version: Seq<char>) -> Seq<OpModel> {
    seq![
        OpModel::CreateGroup { node: Node::Events },
        OpModel::CreateAttribute {
            node: Node::Events,
            attr: Attr::MinEvent,
            value: ValueModel::U64(0),
        },
        OpModel::ReserveAttribute {
            node: Node::Events,
            attr: Attr::MaxEvent,
            kind: ValueKind::U64,
        },
        OpModel::CreateAttribute {
            node: Node::Events,
            attr: Attr::Version,
            value: ValueModel::Text(version),
        },
    ]
}

/// Finalising a file that holds `count` events: the count goes into `max_event`.
pub open spec fn finish_ops(count: u64) -> Seq<OpModel> {
    seq![
        OpModel::RewriteAttribute {
            node: Node::Events,
            attr: Attr::MaxEvent,
            value: ValueModel::U64(count),
        },
    ]
}

/// The group of an event and the two attributes that say where it came from.
pub open spec fn provenance_ops(index: u64, event: MergerModel) -> Seq<OpModel> {
    seq![
        OpModel::CreateGroup { node: Node::Event(index) },
        OpModel::CreateAttribute {
            node: Node::Event(index),
            attr: Attr::OrigRun,
            value: ValueModel::I32(event.run_number),
        },
        OpModel::CreateAttribute {
            node: Node::Event(index),
            attr: Attr::OrigEvent,
            value: ValueModel::U64(event.event),
        },
    ]
}

/// The GET payload of an event: nothing where it is missing.
pub open spec fn get_ops(index: u64, get: Option<GetModel>) -> Seq<OpModel> {
    match get {
        None => seq![],
        Some(get) => seq![
            OpModel::CreateDataset { node: Node::GetTraces(index), data: get.traces },
            OpModel::CreateAttribute {
                node: Node::GetTraces(index),
                attr: Attr::Id,
                value: ValueModel::U32(get.id),
            },
            OpModel::CreateAttribute {
                node: Node::GetTraces(index),
                attr: Attr::Timestamp,
                value: ValueModel::U64(get.timestamp),
            },
            OpModel::CreateAttribute {
                node: Node::GetTraces(index),
                attr: Attr::TimestampOther,
                value: ValueModel::U64(get.timestamp_other),
            },
        ],
    }
}

/// The FRIB payload of an event: nothing where it is missing.
pub open spec fn frib_ops(index: u64, frib: Option<FribModel>) -> Seq<OpModel> {
    match frib {
        None => seq![],
        Some(frib) => seq![
            OpModel::CreateGroup { node: Node::FribPhysics(index) },
            OpModel::CreateAttribute {
                node: Node::FribPhysics(index),
                attr: Attr::Event,
                value: ValueModel::U32(frib.event),
            },
            OpModel::CreateAttribute {
                node: Node::FribPhysics(index),
                attr: Attr::Timestamp,
                value: ValueModel::U32(frib.timestamp),
            },
            OpModel::CreateDataset { node: Node::FribTraces(index), data: frib.traces },
            OpModel::CreateDataset {
                node: Node::FribCoincidence(index),
                data: frib.coincidence,
            },
        ],
    }
}

/// Everything that is written for the event that gets the given index in
/// its file.
pub open spec fn encode_ops(index: u64, event: MergerModel) -> Seq<OpModel> {
    provenance_ops(index, event) + get_ops(index, event.get) + frib_ops(index, event.frib)
}

/// Initialising a file; a failure counts as a failure to create it.
pub open spec fn init_actions(version: Seq<char>) -> Seq<ActionModel> {
    reporting(init_ops(version), WriterError::CreateError)
}

/// Creating and initialising the file of a run.
pub open spec fn start_actions(run: i32, version: Seq<char>) -> Seq<ActionModel> {
    seq![ActionModel { op: OpModel::CreateFile { run }, on_failure: WriterError::CreateError }]
        + init_actions(version)
}

/// Finalising a file that holds `count` events.
pub open spec fn finish_actions(count: u64) -> Seq<ActionModel> {
    reporting(finish_ops(count), WriterError::FinalizeError)
}

/// Writing one event.
pub open spec fn encode_actions(index: u64, event: MergerModel) -> Seq<ActionModel> {
    reporting(encode_ops(index, event), WriterError::EncodeError)
}

/// Asking for the size of the open file.
pub open spec fn size_query() -> ActionModel {
    ActionModel { op: OpModel::QuerySize, on_failure: WriterError::SizeQueryError }
}

} // verus!
