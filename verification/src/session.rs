//! A whole session of the writer, from its start to its close, and what
//! the archive holds at the end of it.

use vstd::prelude::*;
use crate::action::{lemma_ops_of_reporting, ops_of, ActionModel, OpModel};
use crate::container::{
    lemma_archive_applies_to_current,
    lemma_archive_apply_all_concat,
    ArchiveModel,
    ContainerModel,
    FileModel,
};
use crate::error::WriterError;
use crate::event::MergerModel;
use crate::layout::Node;
use crate::lifecycle::{
    finalized,
    holds_event,
    lemma_encode,
    lemma_finish,
    indices_below,
    lemma_indices_below,
    lemma_init,
    lemma_other_event_kept,
    writable,
};
use crate::protocol::{
    encode_ops,
    finish_actions,
    finish_ops,
    frib_ops,
    get_ops,
    init_ops,
    provenance_ops,
    size_query,
    start_actions,
};
use crate::writer::{
    close_actions,
    observe_actions,
    observed,
    over_budget,
    started,
    write_actions,
    written,
    WriterModel,
};

verus! {

/// One write of a session: the event, and the size that the open file was
/// found to have once the event was in it.
pub struct Written {
    pub event: MergerModel,
    pub size: u64,
}

/// The writer after the given writes, each followed by its size.
pub open spec fn state_after(budget: u64, version: Seq<char>, writes: Seq<Written>) -> WriterModel
    decreases writes.len(),
{
    if writes.len() == 0 {
        started(budget, version)
    } else {
        observed(written(state_after(budget, version, writes.drop_last())), writes.last().size)
    }
}

/// Whether the writer can take the writes: no file gets more events than
/// an index can count, and there are no more files than a run can number.
pub open spec fn feasible(budget: u64, version: Seq<char>, writes: Seq<Written>) -> bool
    decreases writes.len(),
{
    if writes.len() == 0 {
        true
    } else {
        let before = state_after(budget, version, writes.drop_last());
        &&& feasible(budget, version, writes.drop_last())
        &&& before.event < u64::MAX
        &&& over_budget(written(before), writes.last().size) ==> before.run < i32::MAX
    }
}

/// What one write asks for when nothing fails: the event, the size of the
/// file once the event is counted, and what that size calls for.
pub open spec fn round_actions(w: WriterModel, write: Written) -> Seq<ActionModel> {
    write_actions(w, write.event).push(size_query()) + observe_actions(written(w), write.size)
}

/// Every action that the writer asks for, from its start through the
/// given writes.
pub open spec fn actions_after(
    budget: u64,
    version: Seq<char>,
    writes: Seq<Written>,
) -> Seq<ActionModel>
    decreases writes.len(),
{
    if writes.len() == 0 {
        start_actions(0, version)
    } else {
        let before = state_after(budget, version, writes.drop_last());
        actions_after(budget, version, writes.drop_last()) + round_actions(before, writes.last())
    }
}

/// Every action of a session that ends with the writer being closed.
pub open spec fn closed_actions(
    budget: u64,
    version: Seq<char>,
    writes: Seq<Written>,
) -> Seq<ActionModel> {
    actions_after(budget, version, writes) + close_actions(state_after(budget, version, writes))
}

/// The archive that the actions leave, carried out in order on an empty
/// one; `None` if one of them is refused.
pub open spec fn archive_of(actions: Seq<ActionModel>) -> Option<ArchiveModel> {
    ArchiveModel::empty().apply_all(ops_of(actions))
}

/// The number of events that `max_event` declares; zero while the file is
/// not finalised.
pub open spec fn declared_events(c: ContainerModel) -> nat {
    match c.max_event() {
        Some(n) => n as nat,
        None => 0,
    }
}

/// The sum of the numbers of events that the files declare.
pub open spec fn total_events(files: Seq<FileModel>) -> nat
    decreases files.len(),
{
    if files.len() == 0 {
        0
    } else {
        total_events(files.drop_last()) + declared_events(files.last().content)
    }
}

/// The file is closed, with whatever number of events it declares.
pub open spec fn closed_file(c: ContainerModel, version: Seq<char>) -> bool {
    &&& c.max_event() is Some
    &&& finalized(c, c.max_event()->0, version)
}

/// The archive of a writer that is in use: one file per run so far, all
/// closed but the last, which is open and holds as many events as the
/// writer has counted; `total` events have been written in all.
pub open spec fn open_archive(a: ArchiveModel, w: WriterModel, total: nat) -> bool {
    &&& 0 <= w.run
    &&& a.files.len() == w.run + 1
    &&& forall|i: int| 0 <= i < a.files.len() ==> (#[trigger] a.files[i]).run == i
    &&& forall|i: int|
        0 <= i < a.files.len() - 1 ==> closed_file((#[trigger] a.files[i]).content, w.version)
    &&& writable(a.files.last().content, w.event, w.version)
    &&& total_events(a.files) + w.event == total
}

/// The archive of a writer that was closed: one file per run, each closed;
/// `total` events have been written in all.
pub open spec fn closed_archive(a: ArchiveModel, w: WriterModel, total: nat) -> bool {
    &&& 0 <= w.run
    &&& a.files.len() == w.run + 1
    &&& forall|i: int| 0 <= i < a.files.len() ==> (#[trigger] a.files[i]).run == i
    &&& forall|i: int|
        0 <= i < a.files.len() ==> closed_file((#[trigger] a.files[i]).content, w.version)
    &&& total_events(a.files) == total
}

/// The place of the write with the given number: the run of the file that
/// was open when it came, and the events that the file held by then.
pub open spec fn place_of(
    budget: u64,
    version: Seq<char>,
    writes: Seq<Written>,
    j: int,
) -> WriterModel {
    state_after(budget, version, writes.take(j))
}

/// The archive holds the event of the write with the given number in its
/// place, as it was given.
pub open spec fn in_place(
    a: ArchiveModel,
    budget: u64,
    version: Seq<char>,
    writes: Seq<Written>,
    j: int,
) -> bool {
    let place = place_of(budget, version, writes, j);
    &&& 0 <= place.run < a.files.len()
    &&& holds_event(a.files[place.run as int].content, place.event, writes[j].event)
}

/// The place of the write comes before the place at which the writer is.
pub open spec fn comes_before(place: WriterModel, w: WriterModel) -> bool {
    place.run < w.run || (place.run == w.run && place.event < w.event)
}

proof fn lemma_ops_of_concat(first: Seq<ActionModel>, second: Seq<ActionModel>)
    ensures
        ops_of(first + second) == ops_of(first) + ops_of(second),
{
    assert(ops_of(first + second) =~= ops_of(first) + ops_of(second));
}

proof fn lemma_total_events_push(files: Seq<FileModel>, file: FileModel)
    ensures
        total_events(files.push(file)) == total_events(files) + declared_events(file.content),
{
    assert(files.push(file).drop_last() =~= files);
}

proof fn lemma_total_events_update_last(files: Seq<FileModel>, file: FileModel)
    requires
        files.len() > 0,
    ensures
        total_events(files.update(files.len() - 1, file)) == total_events(files)
            - declared_events(files.last().content) + declared_events(file.content),
{
    assert(files.update(files.len() - 1, file).drop_last() =~= files.drop_last());
}

/// An archive without a file for the run takes the start of that file, and
/// has it as its last file afterwards, open and empty.
proof fn lemma_start(a: ArchiveModel, run: i32, version: Seq<char>)
    requires
        !a.has_run(run),
    ensures
        a.apply_all(ops_of(start_actions(run, version))) is Some,
        ({
            let b = a.apply_all(ops_of(start_actions(run, version)))->0;
            &&& b.files.len() == a.files.len() + 1
            &&& b.files.drop_last() == a.files
            &&& b.files.last().run == run
            &&& writable(b.files.last().content, 0, version)
        }),
{
    let create = seq![OpModel::CreateFile { run }];
    let init = init_ops(version);
    assert(ops_of(start_actions(run, version)) =~= create + init);
    lemma_archive_apply_all_concat(a, create, init);
    reveal_with_fuel(ArchiveModel::apply_all, 2);
    let created = a.apply_all(create)->0;
    assert(created.files == a.files.push(FileModel { run, content: ContainerModel::empty() }));
    lemma_archive_applies_to_current(created, init);
    lemma_init(version);
    let b = created.apply_all(init)->0;
    assert(b.files.drop_last() =~= a.files);
}

/// What is written for an event creates no file.
proof fn lemma_encode_creates_no_file(index: u64, event: MergerModel)
    ensures
        forall|i: int|
            0 <= i < encode_ops(index, event).len() ==> !(#[trigger] encode_ops(index, event)[i]
                is CreateFile),
{
    let first = provenance_ops(index, event);
    let second = get_ops(index, event.get);
    let third = frib_ops(index, event.frib);
    assert forall|i: int| 0 <= i < encode_ops(index, event).len() implies !(#[trigger] encode_ops(
        index,
        event,
    )[i] is CreateFile) by {
        if i < first.len() {
            assert(encode_ops(index, event)[i] == first[i]);
        } else if i < first.len() + second.len() {
            assert(encode_ops(index, event)[i] == second[i - first.len()]);
        } else {
            assert(encode_ops(index, event)[i] == third[i - first.len() - second.len()]);
        }
    }
}

/// An archive whose last file is open takes the write of an event into
/// that file.
proof fn lemma_write(a: ArchiveModel, w: WriterModel, event: MergerModel)
    requires
        a.files.len() > 0,
        writable(a.files.last().content, w.event, w.version),
        w.event < u64::MAX,
    ensures
        a.apply_all(ops_of(write_actions(w, event).push(size_query()))) == Some(
            a.with_current(a.files.last().content.apply_all(encode_ops(w.event, event))->0),
        ),
{
    let ops = encode_ops(w.event, event);
    let all = ops.push(OpModel::QuerySize);
    lemma_ops_of_reporting(ops, WriterError::EncodeError);
    assert(ops_of(write_actions(w, event).push(size_query())) =~= all);
    lemma_encode(a.files.last().content, w.event, w.version, event);
    lemma_encode_creates_no_file(w.event, event);
    assert forall|i: int| 0 <= i < all.len() implies !(#[trigger] all[i] is CreateFile) by {
        if i < ops.len() {
            assert(all[i] == ops[i]);
        }
    }
    lemma_archive_applies_to_current(a, all);
    assert(all.drop_last() =~= ops);
}

/// An archive whose last file is open takes the finalising of that file.
proof fn lemma_finalize(a: ArchiveModel, count: u64, version: Seq<char>)
    requires
        a.files.len() > 0,
        writable(a.files.last().content, count, version),
    ensures
        a.apply_all(ops_of(finish_actions(count))) == Some(
            a.with_current(a.files.last().content.apply_all(finish_ops(count))->0),
        ),
{
    let ops = finish_ops(count);
    lemma_ops_of_reporting(ops, WriterError::FinalizeError);
    lemma_finish(a.files.last().content, count, version);
    lemma_archive_applies_to_current(a, ops);
}

/// One write and the size that follows it: the archive takes everything
/// that the writer asks for, the event lies in the file that was open, and
/// what the archive held before is still there.
proof fn lemma_step(a: ArchiveModel, w: WriterModel, total: nat, write: Written)
    requires
        open_archive(a, w, total),
        w.event < u64::MAX,
        over_budget(written(w), write.size) ==> w.run < i32::MAX,
    ensures
        a.apply_all(ops_of(round_actions(w, write))) is Some,
        ({
            let b = a.apply_all(ops_of(round_actions(w, write)))->0;
            &&& open_archive(b, observed(written(w), write.size), total + 1)
            &&& b.files.len() >= a.files.len()
            &&& holds_event(b.files[w.run as int].content, w.event, write.event)
            &&& forall|i: int, index: u64, event: MergerModel|
                0 <= i < a.files.len() && (i == w.run ==> index < w.event) && #[trigger] holds_event(
                    a.files[i].content,
                    index,
                    event,
                ) ==> holds_event(b.files[i].content, index, event)
        }),
{
    let version = w.version;
    let last = a.files.len() - 1;
    let c = a.files.last().content;
    let c1 = c.apply_all(encode_ops(w.event, write.event))->0;
    let a1 = a.with_current(c1);
    let w1 = written(w);
    let writing = write_actions(w, write.event).push(size_query());
    let observing = observe_actions(w1, write.size);
    lemma_write(a, w, write.event);
    lemma_encode(c, w.event, version, write.event);
    lemma_ops_of_concat(writing, observing);
    lemma_archive_apply_all_concat(a, ops_of(writing), ops_of(observing));
    lemma_total_events_update_last(a.files, a1.files.last());
    assert(a1.files.last().content == c1);
    assert(a.files[last].run == last);
    assert forall|i: int, index: u64, event: MergerModel|
        0 <= i < a.files.len() && (i == w.run ==> index < w.event) && #[trigger] holds_event(
            a.files[i].content,
            index,
            event,
        ) implies holds_event(a1.files[i].content, index, event) by {
        if i == last {
            lemma_other_event_kept(c, c1, w.event, index, event);
        }
    }
    if over_budget(w1, write.size) {
        let c2 = c1.apply_all(finish_ops(w1.event))->0;
        let a2 = a1.with_current(c2);
        let run = (w.run + 1) as i32;
        let finishing = finish_actions(w1.event);
        let starting = start_actions(run, version);
        lemma_finalize(a1, w1.event, version);
        lemma_finish(c1, w1.event, version);
        assert(a2.files == a.files.update(last, FileModel { run: w.run, content: c2 }));
        assert(!a2.has_run(run)) by {
            assert forall|i: int| 0 <= i < a2.files.len() implies (#[trigger] a2.files[i]).run
                != run by {
                assert(a.files[i].run == i);
            }
        }
        lemma_start(a2, run, version);
        lemma_ops_of_concat(finishing, starting);
        lemma_archive_apply_all_concat(a1, ops_of(finishing), ops_of(starting));
        let b = a2.apply_all(ops_of(starting))->0;
        assert(a.apply_all(ops_of(writing + observing)) == Some(b));
        assert forall|i: int| 0 <= i < b.files.len() implies (#[trigger] b.files[i]).run == i by {
            if i < a.files.len() {
                assert(b.files[i] == b.files.drop_last()[i]);
                assert(a.files[i].run == i);
            }
        }
        assert forall|i: int| 0 <= i < b.files.len() - 1 implies closed_file(
            (#[trigger] b.files[i]).content,
            version,
        ) by {
            assert(b.files[i] == b.files.drop_last()[i]);
            if i < last {
                assert(closed_file(a.files[i].content, version));
            }
        }
        lemma_total_events_update_last(a.files, a2.files.last());
        assert(b.files =~= a2.files.push(b.files.last()));
        lemma_total_events_push(a2.files, b.files.last());
        assert forall|i: int, index: u64, event: MergerModel|
            0 <= i < a.files.len() && (i == w.run ==> index < w.event) && #[trigger] holds_event(
                a.files[i].content,
                index,
                event,
            ) implies holds_event(b.files[i].content, index, event) by {
            assert(b.files[i] == b.files.drop_last()[i]);
            assert(holds_event(a1.files[i].content, index, event));
        }
        assert(b.files[w.run as int] == b.files.drop_last()[w.run as int]);
    } else {
        assert(observing =~= Seq::<ActionModel>::empty());
        assert(ops_of(observing) =~= Seq::<OpModel>::empty());
        assert(a.apply_all(ops_of(writing + observing)) == Some(a1));
        assert forall|i: int| 0 <= i < a1.files.len() implies (#[trigger] a1.files[i]).run
            == i by {
            assert(a.files[i].run == i);
        }
        assert forall|i: int| 0 <= i < a1.files.len() - 1 implies closed_file(
            (#[trigger] a1.files[i]).content,
            version,
        ) by {
            assert(closed_file(a.files[i].content, version));
        }
    }
}

/// While a session is in progress the archive has taken every action. It
/// has one file per run, all closed but the last, and every event that was
/// written lies in its place, as it was given.
pub proof fn lemma_session(budget: u64, version: Seq<char>, writes: Seq<Written>)
    requires
        feasible(budget, version, writes),
    ensures
        archive_of(actions_after(budget, version, writes)) is Some,
        state_after(budget, version, writes).budget == budget,
        state_after(budget, version, writes).version == version,
        open_archive(
            archive_of(actions_after(budget, version, writes))->0,
            state_after(budget, version, writes),
            writes.len(),
        ),
        forall|j: int|
            0 <= j < writes.len() ==> #[trigger] in_place(
                archive_of(actions_after(budget, version, writes))->0,
                budget,
                version,
                writes,
                j,
            ) && comes_before(
                place_of(budget, version, writes, j),
                state_after(budget, version, writes),
            ),
    decreases writes.len(),
{
    if writes.len() == 0 {
        let none = ArchiveModel::empty();
        assert(!none.has_run(0));
        lemma_start(none, 0, version);
        let a = archive_of(actions_after(budget, version, writes))->0;
        assert(a.files.len() == 1);
        assert(a.files.drop_last() =~= Seq::<FileModel>::empty());
        assert(total_events(a.files.drop_last()) == 0);
    } else {
        let earlier = writes.drop_last();
        let write = writes.last();
        lemma_session(budget, version, earlier);
        let a0 = archive_of(actions_after(budget, version, earlier))->0;
        let w0 = state_after(budget, version, earlier);
        let w = state_after(budget, version, writes);
        lemma_step(a0, w0, earlier.len(), write);
        let before = actions_after(budget, version, earlier);
        let round = round_actions(w0, write);
        lemma_ops_of_concat(before, round);
        lemma_archive_apply_all_concat(ArchiveModel::empty(), ops_of(before), ops_of(round));
        let a = archive_of(actions_after(budget, version, writes))->0;
        assert forall|j: int| 0 <= j < writes.len() implies #[trigger] in_place(
            a,
            budget,
            version,
            writes,
            j,
        ) && comes_before(place_of(budget, version, writes, j), w) by {
            if j < earlier.len() {
                assert(writes.take(j) =~= earlier.take(j));
                assert(writes[j] == earlier[j]);
                assert(in_place(a0, budget, version, earlier, j));
                let place = place_of(budget, version, earlier, j);
                assert(comes_before(place, w0));
                assert(holds_event(a0.files[place.run as int].content, place.event, writes[j].event));
            } else {
                assert(writes.take(j) =~= earlier);
            }
        }
    }
}

/// Once the writer is closed the archive has taken every action. It has
/// one file per run, each closed, the files declare as many events in all
/// as were written, and every event lies in its place, as it was given.
pub proof fn lemma_closed_session(budget: u64, version: Seq<char>, writes: Seq<Written>)
    requires
        feasible(budget, version, writes),
    ensures
        archive_of(closed_actions(budget, version, writes)) is Some,
        closed_archive(
            archive_of(closed_actions(budget, version, writes))->0,
            state_after(budget, version, writes),
            writes.len(),
        ),
        state_after(budget, version, writes).version == version,
        forall|j: int|
            0 <= j < writes.len() ==> #[trigger] in_place(
                archive_of(closed_actions(budget, version, writes))->0,
                budget,
                version,
                writes,
                j,
            ),
{
    lemma_session(budget, version, writes);
    let before = actions_after(budget, version, writes);
    let w = state_after(budget, version, writes);
    let a = archive_of(before)->0;
    let last = a.files.len() - 1;
    let c = a.files.last().content;
    let closed = c.apply_all(finish_ops(w.event))->0;
    let b = a.with_current(closed);
    lemma_finalize(a, w.event, version);
    lemma_finish(c, w.event, version);
    lemma_ops_of_concat(before, close_actions(w));
    lemma_archive_apply_all_concat(ArchiveModel::empty(), ops_of(before), ops_of(close_actions(w)));
    assert(archive_of(closed_actions(budget, version, writes)) == Some(b));
    lemma_total_events_update_last(a.files, b.files.last());
    assert forall|i: int| 0 <= i < b.files.len() implies (#[trigger] b.files[i]).run == i by {
        assert(a.files[i].run == i);
    }
    assert forall|i: int| 0 <= i < b.files.len() implies closed_file(
        (#[trigger] b.files[i]).content,
        version,
    ) by {
        if i < last {
            assert(closed_file(a.files[i].content, version));
        }
    }
    assert forall|j: int| 0 <= j < writes.len() implies #[trigger] in_place(
        b,
        budget,
        version,
        writes,
        j,
    ) by {
        assert(in_place(a, budget, version, writes, j));
    }
}

/// A session that the writer can take is one whose every beginning it can
/// take.
pub proof fn lemma_feasible_prefix(budget: u64, version: Seq<char>, writes: Seq<Written>, j: int)
    requires
        feasible(budget, version, writes),
        0 <= j <= writes.len(),
    ensures
        feasible(budget, version, writes.take(j)),
    decreases writes.len(),
{
    if j == writes.len() {
        assert(writes.take(j) =~= writes);
    } else {
        assert(writes.take(j) =~= writes.drop_last().take(j));
        lemma_feasible_prefix(budget, version, writes.drop_last(), j);
    }
}

/// The run of the open file never goes down in the course of a session.
pub proof fn lemma_runs_in_order(
    budget: u64,
    version: Seq<char>,
    writes: Seq<Written>,
    i: int,
    j: int,
)
    requires
        feasible(budget, version, writes),
        0 <= i <= j <= writes.len(),
    ensures
        place_of(budget, version, writes, i).run <= place_of(budget, version, writes, j).run,
    decreases j - i,
{
    if i < j {
        lemma_runs_in_order(budget, version, writes, i, j - 1);
        lemma_feasible_prefix(budget, version, writes, j);
        assert(writes.take(j).drop_last() =~= writes.take(j - 1));
    }
}

/// Rollover goes by size alone. A write after which the file has reached
/// the budget is the last one of that file: the next event is the first of
/// the file of the following run, and every later event lies in that file
/// or a later one. A write that leaves the file under the budget is
/// followed by the next event of the same file.
pub proof fn lemma_rollover_on_size(budget: u64, version: Seq<char>, writes: Seq<Written>, j: int)
    requires
        feasible(budget, version, writes),
        0 <= j < writes.len(),
    ensures
        ({
            let here = place_of(budget, version, writes, j);
            let next = place_of(budget, version, writes, j + 1);
            &&& writes[j].size >= budget ==> next.run == here.run + 1 && next.event == 0
            &&& writes[j].size >= budget ==> forall|later: int|
                j < later <= writes.len() ==> (#[trigger] place_of(
                    budget,
                    version,
                    writes,
                    later,
                )).run > here.run
            &&& writes[j].size < budget ==> next.run == here.run && next.event == here.event + 1
        }),
{
    lemma_feasible_prefix(budget, version, writes, j);
    lemma_feasible_prefix(budget, version, writes, j + 1);
    lemma_session(budget, version, writes.take(j));
    assert(writes.take(j + 1).drop_last() =~= writes.take(j));
    assert(writes.take(j + 1).last() == writes[j]);
    assert forall|later: int| j < later <= writes.len() implies place_of(
        budget,
        version,
        writes,
        j + 1,
    ).run <= (#[trigger] place_of(budget, version, writes, later)).run by {
        lemma_runs_in_order(budget, version, writes, j + 1, later);
    }
}

/// However the events of a session fall into files: once the writer is
/// closed, the `max_event` of the files add up to the number of events
/// that were written, and each file has the groups of exactly the events
/// below its `max_event`.
pub proof fn lemma_every_event_counted(budget: u64, version: Seq<char>, writes: Seq<Written>)
    requires
        feasible(budget, version, writes),
    ensures
        archive_of(closed_actions(budget, version, writes)) is Some,
        ({
            let a = archive_of(closed_actions(budget, version, writes))->0;
            &&& total_events(a.files) == writes.len()
            &&& forall|i: int|
                0 <= i < a.files.len() ==> (#[trigger] a.files[i]).content.max_event() is Some
            &&& forall|i: int, k: u64|
                0 <= i < a.files.len() ==> (#[trigger] a.files[i].content.groups.contains(
                    Node::Event(k),
                ) <==> k < a.files[i].content.max_event()->0)
        }),
{
    lemma_closed_session(budget, version, writes);
    let a = archive_of(closed_actions(budget, version, writes))->0;
    assert forall|i: int| 0 <= i < a.files.len() implies (#[trigger] a.files[i]).content.max_event()
        is Some by {
        assert(closed_file(a.files[i].content, version));
    }
    assert forall|i: int, k: u64| 0 <= i < a.files.len() implies (
    #[trigger] a.files[i].content.groups.contains(Node::Event(k)) <==> k
        < a.files[i].content.max_event()->0) by {
        assert(closed_file(a.files[i].content, version));
    }
}

/// Reading a closed file back: its `max_event` is the number of event
/// groups that it holds.
pub proof fn lemma_max_event_counts_groups(
    budget: u64,
    version: Seq<char>,
    writes: Seq<Written>,
    i: int,
)
    requires
        feasible(budget, version, writes),
        archive_of(closed_actions(budget, version, writes)) is Some,
        0 <= i < archive_of(closed_actions(budget, version, writes))->0.files.len(),
    ensures
        ({
            let c = archive_of(closed_actions(budget, version, writes))->0.files[i].content;
            &&& c.max_event() is Some
            &&& c.event_groups().finite()
            &&& c.event_groups().len() == c.max_event()->0
        }),
{
    lemma_closed_session(budget, version, writes);
    let c = archive_of(closed_actions(budget, version, writes))->0.files[i].content;
    assert(closed_file(c, version));
    let n = c.max_event()->0;
    lemma_indices_below(n as nat);
    assert(c.event_groups() =~= indices_below(n as nat));
}

/// Every file of the archive, open or closed, begins its count at zero and
/// carries the version tag of the writer.
pub proof fn lemma_file_headers(budget: u64, version: Seq<char>, writes: Seq<Written>)
    requires
        feasible(budget, version, writes),
    ensures
        archive_of(actions_after(budget, version, writes)) is Some,
        archive_of(closed_actions(budget, version, writes)) is Some,
        forall|i: int|
            0 <= i < archive_of(actions_after(budget, version, writes))->0.files.len() ==> {
                let c = (#[trigger] archive_of(
                    actions_after(budget, version, writes),
                )->0.files[i]).content;
                c.min_event() == Some(0u64) && c.version() == Some(version)
            },
        forall|i: int|
            0 <= i < archive_of(closed_actions(budget, version, writes))->0.files.len() ==> {
                let c = (#[trigger] archive_of(
                    closed_actions(budget, version, writes),
                )->0.files[i]).content;
                c.min_event() == Some(0u64) && c.version() == Some(version)
            },
{
    lemma_session(budget, version, writes);
    lemma_closed_session(budget, version, writes);
    let a = archive_of(actions_after(budget, version, writes))->0;
    let b = archive_of(closed_actions(budget, version, writes))->0;
    assert forall|i: int| 0 <= i < a.files.len() implies {
        let c = (#[trigger] a.files[i]).content;
        c.min_event() == Some(0u64) && c.version() == Some(version)
    } by {
        if i < a.files.len() - 1 {
            assert(closed_file(a.files[i].content, version));
        }
    }
    assert forall|i: int| 0 <= i < b.files.len() implies {
        let c = (#[trigger] b.files[i]).content;
        c.min_event() == Some(0u64) && c.version() == Some(version)
    } by {
        assert(closed_file(b.files[i].content, version));
    }
}

} // verus!
