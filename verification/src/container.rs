//! A mathematical model of the archive: what each file holds, and what
//! each operation does to it.

use vstd::prelude::*;
use crate::action::{OpModel, ValueKind, ValueModel};
use crate::layout::{Attr, Node};

verus! {

/// An attribute of a file: its type, and its value once one was written.
pub struct AttributeModel {
    pub kind: ValueKind,
    pub value: Option<ValueModel>,
}

/// What a file holds.
pub struct ContainerModel {
    /// The groups below the root group.
    pub groups: Set<Node>,
    /// The datasets, each with its samples.
    pub datasets: Map<Node, Seq<i16>>,
    /// The attributes, each found by its node and its name.
    pub attributes: Map<(Node, Attr), AttributeModel>,
}

/// A file of the archive.
pub struct FileModel {
    /// Index of the run that the file belongs to.
    pub run: i32,
    pub content: ContainerModel,
}

/// The files of an archive, in the order in which they were created.
pub struct ArchiveModel {
    pub files: Seq<FileModel>,
}

impl ContainerModel {
    /// A file that was just created: nothing but the root group.
    pub open spec fn empty() -> ContainerModel {
        ContainerModel { groups: Set::empty(), datasets: Map::empty(), attributes: Map::empty() }
    }

    /// Whether the file holds the node, as a group or as a dataset.
    pub open spec fn holds(self, node: Node) -> bool {
        self.groups.contains(node) || self.datasets.dom().contains(node)
    }

    /// Whether the group exists in which `node` belongs.
    pub open spec fn holds_parent_of(self, node: Node) -> bool {
        match node.parent() {
            Some(parent) => self.groups.contains(parent),
            None => true,
        }
    }

    /// Whether the node has the attribute.
    pub open spec fn has_attribute(self, node: Node, attr: Attr) -> bool {
        self.attributes.dom().contains((node, attr))
    }

    /// The file after the operation, or `None` where the container library
    /// refuses it: a node is created twice or without its parent, an
    /// attribute is created twice or on nothing, or one is rewritten that
    /// does not exist or has another type.
    pub open spec fn apply(self, op: OpModel) -> Option<ContainerModel> {
        match op {
            OpModel::CreateFile { run } => None,
            OpModel::QuerySize => Some(self),
            OpModel::CreateGroup { node } => {
                if node.is_group() && self.holds_parent_of(node) && !self.holds(node) {
                    Some(ContainerModel { groups: self.groups.insert(node), ..self })
                } else {
                    None
                }
            },
            OpModel::CreateDataset { node, data } => {
                if !node.is_group() && self.holds_parent_of(node) && !self.holds(node) {
                    Some(ContainerModel { datasets: self.datasets.insert(node, data), ..self })
                } else {
                    None
                }
            },
            OpModel::CreateAttribute { node, attr, value } => {
                if self.holds(node) && !self.has_attribute(node, attr) {
                    Some(
                        ContainerModel {
                            attributes: self.attributes.insert(
                                (node, attr),
                                AttributeModel { kind: value.kind(), value: Some(value) },
                            ),
                            ..self
                        },
                    )
                } else {
                    None
                }
            },
            OpModel::ReserveAttribute { node, attr, kind } => {
                if self.holds(node) && !self.has_attribute(node, attr) {
                    Some(
                        ContainerModel {
                            attributes: self.attributes.insert(
                                (node, attr),
                                AttributeModel { kind, value: None },
                            ),
                            ..self
                        },
                    )
                } else {
                    None
                }
            },
            OpModel::RewriteAttribute { node, attr, value } => {
                if self.has_attribute(node, attr) && self.attributes[(node, attr)].kind
                    == value.kind() {
                    Some(
                        ContainerModel {
                            attributes: self.attributes.insert(
                                (node, attr),
                                AttributeModel { kind: value.kind(), value: Some(value) },
                            ),
                            ..self
                        },
                    )
                } else {
                    None
                }
            },
        }
    }

    /// The file after the operations, in order; `None` if one is refused.
    pub open spec fn apply_all(self, ops: Seq<OpModel>) -> Option<ContainerModel>
        decreases ops.len(),
    {
        if ops.len() == 0 {
            Some(self)
        } else {
            match self.apply_all(ops.drop_last()) {
                Some(before) => before.apply(ops.last()),
                None => None,
            }
        }
    }

    /// The value of an attribute; `None` if it does not exist or was never
    /// written.
    pub open spec fn attribute(self, node: Node, attr: Attr) -> Option<ValueModel> {
        if self.has_attribute(node, attr) {
            self.attributes[(node, attr)].value
        } else {
            None
        }
    }

    /// What a reader finds in `min_event`.
    pub open spec fn min_event(self) -> Option<u64> {
        match self.attribute(Node::Events, Attr::MinEvent) {
            Some(ValueModel::U64(n)) => Some(n),
            _ => None,
        }
    }

    /// What a reader finds in `max_event`; `None` while the file is not
    /// finalised.
    pub open spec fn max_event(self) -> Option<u64> {
        match self.attribute(Node::Events, Attr::MaxEvent) {
            Some(ValueModel::U64(n)) => Some(n),
            _ => None,
        }
    }

    /// What a reader finds in `version`.
    pub open spec fn version(self) -> Option<Seq<char>> {
        match self.attribute(Node::Events, Attr::Version) {
            Some(ValueModel::Text(tag)) => Some(tag),
            _ => None,
        }
    }

    /// The indices of the events that have a group in the file.
    pub open spec fn event_groups(self) -> Set<u64> {
        Set::new(|k: u64| self.groups.contains(Node::Event(k)))
    }
}

impl ArchiveModel {
    /// The archive before anything was written.
    pub open spec fn empty() -> ArchiveModel {
        ArchiveModel { files: Seq::empty() }
    }

    /// Whether the archive has a file for the run.
    pub open spec fn has_run(self, run: i32) -> bool {
        exists|i: int| 0 <= i < self.files.len() && #[trigger] self.files[i].run == run
    }

    /// The archive with other content in its last file.
    pub open spec fn with_current(self, content: ContainerModel) -> ArchiveModel {
        ArchiveModel {
            files: self.files.update(
                self.files.len() - 1,
                FileModel { run: self.files.last().run, content },
            ),
        }
    }

    /// The archive after the operation, or `None` where it is refused: a
    /// run gets a second file, something is written before there is a file,
    /// or the file created last refuses the operation.
    pub open spec fn apply(self, op: OpModel) -> Option<ArchiveModel> {
        match op {
            OpModel::CreateFile { run } => {
                if self.has_run(run) {
                    None
                } else {
                    Some(
                        ArchiveModel {
                            files: self.files.push(
                                FileModel { run, content: ContainerModel::empty() },
                            ),
                        },
                    )
                }
            },
            _ => {
                if self.files.len() == 0 {
                    None
                } else {
                    match self.files.last().content.apply(op) {
                        Some(content) => Some(self.with_current(content)),
                        None => None,
                    }
                }
            },
        }
    }

    /// The archive after the operations, in order; `None` if one is refused.
    pub open spec fn apply_all(self, ops: Seq<OpModel>) -> Option<ArchiveModel>
        decreases ops.len(),
    {
        if ops.len() == 0 {
            Some(self)
        } else {
            match self.apply_all(ops.drop_last()) {
                Some(before) => before.apply(ops.last()),
                None => None,
            }
        }
    }
}

/// Operations applied one after the other: `second` acts on what `first` left.
pub proof fn lemma_apply_all_concat(c: ContainerModel, first: Seq<OpModel>, second: Seq<OpModel>)
    ensures
        c.apply_all(first + second) == match c.apply_all(first) {
            Some(between) => between.apply_all(second),
            None => None,
        },
    decreases second.len(),
{
    if second.len() == 0 {
        assert(first + second =~= first);
    } else {
        assert((first + second).drop_last() =~= first + second.drop_last());
        assert((first + second).last() == second.last());
        lemma_apply_all_concat(c, first, second.drop_last());
    }
}

/// The same for a whole archive.
pub proof fn lemma_archive_apply_all_concat(
    a: ArchiveModel,
    first: Seq<OpModel>,
    second: Seq<OpModel>,
)
    ensures
        a.apply_all(first + second) == match a.apply_all(first) {
            Some(between) => between.apply_all(second),
            None => None,
        },
    decreases second.len(),
{
    if second.len() == 0 {
        assert(first + second =~= first);
    } else {
        assert((first + second).drop_last() =~= first + second.drop_last());
        assert((first + second).last() == second.last());
        lemma_archive_apply_all_concat(a, first, second.drop_last());
    }
}

/// Operations that create no file act on the last file alone.
pub proof fn lemma_archive_applies_to_current(a: ArchiveModel, ops: Seq<OpModel>)
    requires
        a.files.len() > 0,
        forall|i: int| 0 <= i < ops.len() ==> !(#[trigger] ops[i] is CreateFile),
    ensures
        a.apply_all(ops) == match a.files.last().content.apply_all(ops) {
            Some(content) => Some(a.with_current(content)),
            None => None,
        },
    decreases ops.len(),
{
    let current = a.files.last().content;
    if ops.len() == 0 {
        assert(a.with_current(current).files =~= a.files);
    } else {
        let front = ops.drop_last();
        assert(forall|i: int| 0 <= i < front.len() ==> front[i] == ops[i]);
        lemma_archive_applies_to_current(a, front);
        assert(!(ops[ops.len() - 1] is CreateFile));
        match current.apply_all(front) {
            Some(before) => {
                let between = a.with_current(before);
                match before.apply(ops.last()) {
                    Some(content) => {
                        assert(between.with_current(content).files =~= a.with_current(
                            content,
                        ).files);
                    },
                    None => {},
                }
            },
            None => {},
        }
    }
}

} // verus!
