//! The writer: it numbers the events of a file, says what to write for
//! each, and decides from the size of the file when the next one starts.

use vstd::prelude::*;
use crate::action::{lemma_ops_of_reporting, ops_of, Action, ActionModel, Op, Value, ValueKind};
use crate::error::WriterError;
use crate::event::{MergerEvent, MergerModel};
use crate::layout::{Attr, Node};
use crate::naming::{producer_tag, version_tag};
use crate::protocol::{
    encode_actions,
    encode_ops,
    finish_actions,
    finish_ops,
    init_actions,
    init_ops,
    size_query,
    start_actions,
};

verus! {

/// Writes a stream of events into files of bounded size.
///
/// The writer touches no file itself. Each of its operations returns the
/// actions to carry out on the archive, in order; the first that fails ends
/// the operation with the error that the action names. An event is counted
/// only after its actions have been carried out, so a write that fails
/// leaves the writer as it was.
#[derive(Debug)]
pub struct HarmonicWriter {
    current_run: i32,
    current_event: u64,
    harmonic_size: u64,
    version: String,
}

/// Mathematical value of a [`HarmonicWriter`].
pub struct WriterModel {
    /// Index of the file that is open.
    pub run: i32,
    /// Number of events written to the open file.
    pub event: u64,
    /// Size in bytes from which a file is closed.
    pub budget: u64,
    /// Version tag written to every file.
    pub version: Seq<char>,
}

/// The writer on its first file, which is empty.
pub open spec fn started(budget: u64, version: Seq<char>) -> WriterModel {
    WriterModel { run: 0, event: 0, budget, version }
}

/// The writer after one more event went into the open file.
pub open spec fn written(w: WriterModel) -> WriterModel {
    WriterModel { event: (w.event + 1) as u64, ..w }
}

/// Whether a file of the given size is closed.
pub open spec fn over_budget(w: WriterModel, size: u64) -> bool {
    size >= w.budget
}

/// The writer after the open file was found to have the given size.
pub open spec fn observed(w: WriterModel, size: u64) -> WriterModel {
    if over_budget(w, size) {
        WriterModel { run: (w.run + 1) as i32, event: 0, ..w }
    } else {
        w
    }
}

/// What writing `event` asks for: the event under the index that the
/// writer has reached, and nothing else.
pub open spec fn write_actions(w: WriterModel, event: MergerModel) -> Seq<ActionModel> {
    encode_actions(w.event, event)
}

/// What a file of the given size asks for: nothing while it is under the
/// budget; else the open file is finalised and the next one started.
pub open spec fn observe_actions(w: WriterModel, size: u64) -> Seq<ActionModel> {
    if over_budget(w, size) {
        finish_actions(w.event) + start_actions((w.run + 1) as i32, w.version)
    } else {
        seq![]
    }
}

/// What closing the writer asks for.
pub open spec fn close_actions(w: WriterModel) -> Seq<ActionModel> {
    finish_actions(w.event)
}

fn encoding(op: Op) -> (action: Action)
    ensures
        action == (Action { op, on_failure: WriterError::EncodeError }),
{
    Action { op, on_failure: WriterError::EncodeError }
}

fn creating(op: Op) -> (action: Action)
    ensures
        action == (Action { op, on_failure: WriterError::CreateError }),
{
    Action { op, on_failure: WriterError::CreateError }
}

impl View for HarmonicWriter {
    type V = WriterModel;

    closed spec fn view(&self) -> WriterModel {
        WriterModel {
            run: self.current_run,
            event: self.current_event,
            budget: self.harmonic_size,
            version: self.version@,
        }
    }
}

impl HarmonicWriter {
    #[verifier::type_invariant]
    spec fn run_is_counted(self) -> bool {
        self.current_run >= 0
    }

    /// Starts a writer whose files are closed once they reach `harmonic_size`
    /// bytes, on behalf of the named producer. The file of run 0 is created
    /// and initialised.
    pub fn new(harmonic_size: u64, producer: &str, version: &str) -> (fresh: (Self, Vec<Action>))
        ensures
            fresh.0@ == started(harmonic_size, version_tag(producer@, version@)),
            fresh.1.deep_view() == start_actions(0, version_tag(producer@, version@)),
    {
        let writer = Self {
            current_run: 0,
            current_event: 0,
            harmonic_size,
            version: producer_tag(producer, version),
        };
        let mut actions: Vec<Action> = Vec::new();
        actions.push(creating(Op::CreateFile { run: 0 }));
        let mut init = writer.init_file();
        actions.append(&mut init);
        assert(actions.deep_view() =~= start_actions(0, version_tag(producer@, version@)));
        (writer, actions)
    }

    /// Says what to write for one event in the open file: its group, named
    /// after its index in the file, the two provenance attributes, and
    /// whichever payloads it carries. The writer itself stays as it is: the
    /// event counts only once all of this has been carried out, which the
    /// caller then confirms with [`HarmonicWriter::encoded`]. If an action
    /// fails the write ends there, with the writer as it was before.
    pub fn write(&self, event: MergerEvent) -> (actions: Vec<Action>)
        ensures
            actions.deep_view() == write_actions(self@, event@),
            ops_of(actions.deep_view()) == encode_ops(self@.event, event@),
    {
        let index = self.current_event;
        let node = Node::Event(index);
        let mut actions: Vec<Action> = Vec::new();
        actions.push(encoding(Op::CreateGroup { node }));
        actions.push(
            encoding(
                Op::CreateAttribute {
                    node,
                    attr: Attr::OrigRun,
                    value: Value::I32(event.run_number),
                },
            ),
        );
        actions.push(
            encoding(
                Op::CreateAttribute { node, attr: Attr::OrigEvent, value: Value::U64(event.event) },
            ),
        );

        if let Some(get) = event.get {
            let traces = Node::GetTraces(index);
            actions.push(encoding(Op::CreateDataset { node: traces, data: get.traces }));
            actions.push(
                encoding(
                    Op::CreateAttribute { node: traces, attr: Attr::Id, value: Value::U32(get.id) },
                ),
            );
            actions.push(
                encoding(
                    Op::CreateAttribute {
                        node: traces,
                        attr: Attr::Timestamp,
                        value: Value::U64(get.timestamp),
                    },
                ),
            );
            actions.push(
                encoding(
                    Op::CreateAttribute {
                        node: traces,
                        attr: Attr::TimestampOther,
                        value: Value::U64(get.timestamp_other),
                    },
                ),
            );
        }

        if let Some(frib) = event.frib {
            let physics = Node::FribPhysics(index);
            actions.push(encoding(Op::CreateGroup { node: physics }));
            actions.push(
                encoding(
                    Op::CreateAttribute {
                        node: physics,
                        attr: Attr::Event,
                        value: Value::U32(frib.event),
                    },
                ),
            );
            actions.push(
                encoding(
                    Op::CreateAttribute {
                        node: physics,
                        attr: Attr::Timestamp,
                        value: Value::U32(frib.timestamp),
                    },
                ),
            );
            actions.push(
                encoding(Op::CreateDataset { node: Node::FribTraces(index), data: frib.traces }),
            );
            actions.push(
                encoding(
                    Op::CreateDataset {
                        node: Node::FribCoincidence(index),
                        data: frib.coincidence,
                    },
                ),
            );
        }

        assert(actions.deep_view() =~= write_actions(self@, event@));
        proof {
            lemma_ops_of_reporting(encode_ops(self@.event, event@), WriterError::EncodeError);
        }
        actions
    }

    /// Counts the event whose actions have all been carried out, and asks
    /// for the size of the open file, which goes to
    /// [`HarmonicWriter::observe_size`].
    pub fn encoded(&mut self) -> (query: Action)
        requires
            old(self)@.event < u64::MAX,
        ensures
            final(self)@ == written(old(self)@),
            query@ == size_query(),
    {
        proof {
            use_type_invariant(&*self);
        }
        self.current_event = self.current_event + 1;
        Action { op: Op::QuerySize, on_failure: WriterError::SizeQueryError }
    }

    /// Takes the size in bytes that the open file has after a write. A file
    /// that has reached the budget is finalised, and the file of the next run
    /// is created and initialised; a smaller one stays open.
    pub fn observe_size(&mut self, size: u64) -> (actions: Vec<Action>)
        requires
            over_budget(old(self)@, size) ==> old(self)@.run < i32::MAX,
        ensures
            final(self)@ == observed(old(self)@, size),
            actions.deep_view() == observe_actions(old(self)@, size),
    {
        let mut actions: Vec<Action> = Vec::new();
        if size >= self.harmonic_size {
            proof {
                use_type_invariant(&*self);
            }
            let mut finish = self.finish_file();
            actions.append(&mut finish);
            self.current_event = 0;
            self.current_run = self.current_run + 1;
            actions.push(creating(Op::CreateFile { run: self.current_run }));
            let mut init = self.init_file();
            actions.append(&mut init);
        }
        assert(actions.deep_view() =~= observe_actions(old(self)@, size));
        actions
    }

    /// Closes the writer: the open file is finalised.
    pub fn close(&self) -> (actions: Vec<Action>)
        ensures
            actions.deep_view() == close_actions(self@),
            ops_of(actions.deep_view()) == finish_ops(self@.event),
    {
        self.finish_file()
    }

    /// Index of the run whose file is open. Runs are numbered from zero.
    pub fn current_run(&self) -> (run: i32)
        ensures
            run == self@.run,
            run >= 0,
    {
        proof {
            use_type_invariant(self);
        }
        self.current_run
    }

    /// Number of events written to the open file, which is the index that
    /// the next event gets in it.
    pub fn current_event(&self) -> (event: u64)
        ensures
            event == self@.event,
    {
        self.current_event
    }

    /// Size in bytes from which a file is closed.
    pub fn harmonic_size(&self) -> (size: u64)
        ensures
            size == self@.budget,
    {
        self.harmonic_size
    }

    /// Initialises the open file, which must be fresh: the group `events`,
    /// `min_event` at zero, `max_event` reserved, and the version tag.
    pub fn init_file(&self) -> (actions: Vec<Action>)
        ensures
            actions.deep_view() == init_actions(self@.version),
            ops_of(actions.deep_view()) == init_ops(self@.version),
    {
        let events = Node::Events;
        let mut actions: Vec<Action> = Vec::new();
        actions.push(creating(Op::CreateGroup { node: events }));
        actions.push(
            creating(Op::CreateAttribute { node: events, attr: Attr::MinEvent, value: Value::U64(0) }),
        );
        actions.push(
            creating(
                Op::ReserveAttribute { node: events, attr: Attr::MaxEvent, kind: ValueKind::U64 },
            ),
        );
        actions.push(
            creating(
                Op::CreateAttribute {
                    node: events,
                    attr: Attr::Version,
                    value: Value::Text(self.version.clone()),
                },
            ),
        );
        assert(actions.deep_view() =~= init_actions(self@.version));
        proof {
            lemma_ops_of_reporting(init_ops(self@.version), WriterError::CreateError);
        }
        actions
    }

    /// Writes the number of events of the open file into its `max_event`,
    /// when the writer is done with the file.
    pub fn finish_file(&self) -> (actions: Vec<Action>)
        ensures
            actions.deep_view() == finish_actions(self@.event),
            ops_of(actions.deep_view()) == finish_ops(self@.event),
    {
        let mut actions: Vec<Action> = Vec::new();
        actions.push(
            Action {
                op: Op::RewriteAttribute {
                    node: Node::Events,
                    attr: Attr::MaxEvent,
                    value: Value::U64(self.current_event),
                },
                on_failure: WriterError::FinalizeError,
            },
        );
        assert(actions.deep_view() =~= finish_actions(self@.event));
        proof {
            lemma_ops_of_reporting(finish_ops(self@.event), WriterError::FinalizeError);
        }
        actions
    }
}

} // verus!
