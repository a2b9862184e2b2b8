//! What the writer asks of the container library: one operation at a time,
//! each with the error that its failure is reported as.

use vstd::prelude::*;
use crate::error::WriterError;
use crate::layout::{Attr, Node};

verus! {

/// The scalar types that attributes are stored in.
#[derive(Clone, Copy, Debug, PartialEq, Eq, Structural)]
pub enum ValueKind {
    I32,
    U32,
    U64,
    Text,
}

/// The value of an attribute.
#[derive(Clone, Debug, PartialEq, Eq)]
pub enum Value {
    I32(i32),
    U32(u32),
    U64(u64),
    Text(String),
}

/// Mathematical value of a [`Value`].
pub enum ValueModel {
    I32(i32),
    U32(u32),
    U64(u64),
    Text(Seq<char>),
}

/// One operation on the archive. All but `CreateFile` act on the file that
/// was created last.
#[derive(Clone, Debug, PartialEq, Eq)]
pub enum Op {
    /// Create the file of the given run and make it the current file.
    CreateFile { run: i32 },
    /// Create a group whose parent exists.
    CreateGroup { node: Node },
    /// Create a dataset that holds the given samples.
    CreateDataset { node: Node, data: Vec<i16> },
    /// Create an attribute and write its value.
    CreateAttribute { node: Node, attr: Attr, value: Value },
    /// Create an attribute of the given type and leave its value unwritten.
    ReserveAttribute { node: Node, attr: Attr, kind: ValueKind },
    /// Write the value of an attribute that exists.
    RewriteAttribute { node: Node, attr: Attr, value: Value },
    /// Read the size in bytes that the current file has on disk.
    QuerySize,
}

/// Mathematical value of an [`Op`].
pub enum OpModel {
    CreateFile { run: i32 },
    CreateGroup { node: Node },
    CreateDataset { node: Node, data: Seq<i16> },
    CreateAttribute { node: Node, attr: Attr, value: ValueModel },
    ReserveAttribute { node: Node, attr: Attr, kind: ValueKind },
    RewriteAttribute { node: Node, attr: Attr, value: ValueModel },
    QuerySize,
}

/// An operation to carry out, and the error to report if it fails.
#[derive(Clone, Debug, PartialEq, Eq)]
pub struct Action {
    pub op: Op,
    pub on_failure: WriterError,
}

/// Mathematical value of an [`Action`].
pub struct ActionModel {
    pub op: OpModel,
    pub on_failure: WriterError,
}

impl ValueModel {
    /// The scalar type that the value is stored in.
    pub open spec fn kind(self) -> ValueKind {
        match self {
            ValueModel::I32(_) => ValueKind::I32,
            ValueModel::U32(_) => ValueKind::U32,
            ValueModel::U64(_) => ValueKind::U64,
            ValueModel::Text(_) => ValueKind::Text,
        }
    }
}

impl View for Value {
    type V = ValueModel;

    open spec fn view(&self) -> ValueModel {
        match self {
            Value::I32(v) => ValueModel::I32(*v),
            Value::U32(v) => ValueModel::U32(*v),
            Value::U64(v) => ValueModel::U64(*v),
            Value::Text(v) => ValueModel::Text(v@),
        }
    }
}

impl Value {
    /// The scalar type that the value is stored in.
    pub fn kind(&self) -> (kind: ValueKind)
        ensures
            kind == self@.kind(),
    {
        match self {
            Value::I32(_) => ValueKind::I32,
            Value::U32(_) => ValueKind::U32,
            Value::U64(_) => ValueKind::U64,
            Value::Text(_) => ValueKind::Text,
        }
    }
}

impl View for Op {
    type V = OpModel;

    open spec fn view(&self) -> OpModel {
        match self {
            Op::CreateFile { run } => OpModel::CreateFile { run: *run },
            Op::CreateGroup { node } => OpModel::CreateGroup { node: *node },
            Op::CreateDataset { node, data } => OpModel::CreateDataset { node: *node, data: data@ },
            Op::CreateAttribute { node, attr, value } => OpModel::CreateAttribute {
                node: *node,
                attr: *attr,
                value: value@,
            },
            Op::ReserveAttribute { node, attr, kind } => OpModel::ReserveAttribute {
                node: *node,
                attr: *attr,
                kind: *kind,
            },
            Op::RewriteAttribute { node, attr, value } => OpModel::RewriteAttribute {
                node: *node,
                attr: *attr,
                value: value@,
            },
            Op::QuerySize => OpModel::QuerySize,
        }
    }
}

impl View for Action {
    type V = ActionModel;

    open spec fn view(&self) -> ActionModel {
        ActionModel { op: self.op@, on_failure: self.on_failure }
    }
}

impl DeepView for Action {
    type V = ActionModel;

    open spec fn deep_view(&self) -> ActionModel {
        self@
    }
}

/// The operations of `actions`, in order.
pub open spec fn ops_of(actions: Seq<ActionModel>) -> Seq<OpModel> {
    actions.map_values(|a: ActionModel| a.op)
}

/// The actions that carry out `ops` and report a failure as `on_failure`.
pub open spec fn reporting(ops: Seq<OpModel>, on_failure: WriterError) -> Seq<ActionModel> {
    ops.map_values(|op: OpModel| ActionModel { op, on_failure })
}

/// The operations of actions that report failures alike are the operations
/// that they were made from.
pub proof fn lemma_ops_of_reporting(ops: Seq<OpModel>, on_failure: WriterError)
    ensures
        ops_of(reporting(ops, on_failure)) == ops,
{
    assert(ops_of(reporting(ops, on_failure)) =~= ops);
}

} // verus!
