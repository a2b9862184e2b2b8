use std::collections::BTreeMap;

use harmonizer::action::{Action, Op, Value, ValueKind};
use harmonizer::error::WriterError;
use harmonizer::event::{FribEvent, GetEvent, MergerEvent};
use harmonizer::layout::{Attr, Node};
use harmonizer::writer::HarmonicWriter;

/// A file as a reader would find it, kept in memory.
#[derive(Debug, Clone, PartialEq)]
struct Stored {
    run: i32,
    groups: Vec<String>,
    datasets: BTreeMap<String, Vec<i16>>,
    attributes: BTreeMap<(String, String), (ValueKind, Option<Value>)>,
    size_queries: usize,
}

impl Stored {
    fn holds(&self, path: &str) -> bool {
        self.groups.iter().any(|group| group == path) || self.datasets.contains_key(path)
    }

    fn attribute(&self, path: &str, name: &str) -> Option<Value> {
        match self.attributes.get(&(path.to_string(), name.to_string())) {
            Some((_, value)) => value.clone(),
            None => None,
        }
    }

    fn has_attribute(&self, path: &str, name: &str) -> bool {
        self.attributes.contains_key(&(path.to_string(), name.to_string()))
    }

    fn attribute_names(&self, path: &str) -> Vec<String> {
        self.attributes.keys().filter(|key| key.0 == path).map(|key| key.1.clone()).collect()
    }

    fn children(&self, path: &str) -> Vec<String> {
        let prefix = format!("{}/", path);
        let mut found: Vec<String> = Vec::new();
        for node in self.groups.iter().chain(self.datasets.keys()) {
            if let Some(rest) = node.strip_prefix(&prefix) {
                if !rest.contains('/') {
                    found.push(rest.to_string());
                }
            }
        }
        found
    }

    fn max_event(&self) -> Option<Value> {
        self.attribute("events", "max_event")
    }
}

fn joined(node: &Node) -> (String, String) {
    let path = node.path();
    let parent = path[..path.len() - 1].join("/");
    (parent, path.join("/"))
}

/// Carries the actions out in order, but for the one numbered `broken`,
/// which fails as a container call would: the error that the action names
/// comes back and nothing after it is carried out.
fn attempt(
    files: &mut Vec<Stored>,
    actions: &[Action],
    broken: Option<usize>,
) -> Result<(), WriterError> {
    for (i, action) in actions.iter().enumerate() {
        if broken == Some(i) {
            return Err(action.on_failure);
        }
        perform(files, std::slice::from_ref(action));
    }
    Ok(())
}

/// Carries the actions out as the container library would, and refuses
/// what it refuses.
fn perform(files: &mut Vec<Stored>, actions: &[Action]) {
    for action in actions {
        if let Op::CreateFile { run } = &action.op {
            assert!(files.iter().all(|file| file.run != *run), "run {} has a file", run);
            files.push(Stored {
                run: *run,
                groups: Vec::new(),
                datasets: BTreeMap::new(),
                attributes: BTreeMap::new(),
                size_queries: 0,
            });
            continue;
        }
        let file = files.last_mut().expect("no file is open");
        match &action.op {
            Op::CreateFile { .. } => unreachable!(),
            Op::QuerySize => file.size_queries += 1,
            Op::CreateGroup { node } => {
                let (parent, path) = joined(node);
                assert!(node.group());
                assert!(parent.is_empty() || file.groups.contains(&parent), "no {}", parent);
                assert!(!file.holds(&path), "{} exists", path);
                file.groups.push(path);
            }
            Op::CreateDataset { node, data } => {
                let (parent, path) = joined(node);
                assert!(!node.group());
                assert!(file.groups.contains(&parent), "no {}", parent);
                assert!(!file.holds(&path), "{} exists", path);
                file.datasets.insert(path, data.clone());
            }
            Op::CreateAttribute { node, attr, value } => {
                let (_, path) = joined(node);
                assert!(file.holds(&path), "no {}", path);
                let key = (path, attr.name().to_string());
                assert!(!file.attributes.contains_key(&key), "{:?} exists", key);
                file.attributes.insert(key, (value.kind(), Some(value.clone())));
            }
            Op::ReserveAttribute { node, attr, kind } => {
                let (_, path) = joined(node);
                assert!(file.holds(&path), "no {}", path);
                let key = (path, attr.name().to_string());
                assert!(!file.attributes.contains_key(&key), "{:?} exists", key);
                file.attributes.insert(key, (*kind, None));
            }
            Op::RewriteAttribute { node, attr, value } => {
                let (_, path) = joined(node);
                let key = (path, attr.name().to_string());
                let slot = file.attributes.get_mut(&key).expect("no such attribute");
                assert_eq!(slot.0, value.kind());
                slot.1 = Some(value.clone());
            }
        }
    }
}

fn plain(run_number: i32, event: u64) -> MergerEvent {
    MergerEvent { run_number, event, get: None, frib: None }
}

fn get_payload() -> GetEvent {
    GetEvent { id: 5, timestamp: 10, timestamp_other: 11, traces: vec![1, 2, 3] }
}

fn frib_payload() -> FribEvent {
    FribEvent { event: 8, timestamp: 90, traces: vec![-4, 0, 4], coincidence: vec![7] }
}

/// Runs a writer over the events, each with the size that the file is
/// found to have after it, and closes it.
fn archive_of(budget: u64, writes: Vec<(MergerEvent, u64)>) -> Vec<Stored> {
    let mut files: Vec<Stored> = Vec::new();
    let (mut writer, start) = HarmonicWriter::new(budget, "harmonizer", "0.1.0");
    perform(&mut files, &start);
    for (event, size) in writes {
        let encode = writer.write(event);
        perform(&mut files, &encode);
        assert!(writer.current_event() < u64::MAX);
        let query = writer.encoded();
        perform(&mut files, &[query]);
        assert!(size < writer.harmonic_size() || writer.current_run() < i32::MAX);
        let roll = writer.observe_size(size);
        perform(&mut files, &roll);
    }
    let finish = writer.close();
    perform(&mut files, &finish);
    files
}

/// Writes an event with nothing going wrong, up to the size query.
fn put(writer: &mut HarmonicWriter, event: MergerEvent) -> Vec<Action> {
    let mut actions = writer.write(event);
    actions.push(writer.encoded());
    actions
}

fn act(op: Op, on_failure: WriterError) -> Action {
    Action { op, on_failure }
}

fn init_actions(tag: &str) -> Vec<Action> {
    vec![
        act(Op::CreateGroup { node: Node::Events }, WriterError::CreateError),
        act(
            Op::CreateAttribute { node: Node::Events, attr: Attr::MinEvent, value: Value::U64(0) },
            WriterError::CreateError,
        ),
        act(
            Op::ReserveAttribute {
                node: Node::Events,
                attr: Attr::MaxEvent,
                kind: ValueKind::U64,
            },
            WriterError::CreateError,
        ),
        act(
            Op::CreateAttribute {
                node: Node::Events,
                attr: Attr::Version,
                value: Value::Text(tag.to_string()),
            },
            WriterError::CreateError,
        ),
    ]
}

fn finish_actions(count: u64) -> Vec<Action> {
    vec![act(
        Op::RewriteAttribute {
            node: Node::Events,
            attr: Attr::MaxEvent,
            value: Value::U64(count),
        },
        WriterError::FinalizeError,
    )]
}

#[test]
fn new_writer_starts_run_zero() {
    let (writer, actions) = HarmonicWriter::new(1_000, "harmonizer", "0.1.0");
    assert_eq!(writer.current_run(), 0);
    assert_eq!(writer.current_event(), 0);
    assert_eq!(writer.harmonic_size(), 1_000);
    let mut expected = vec![act(Op::CreateFile { run: 0 }, WriterError::CreateError)];
    expected.extend(init_actions("harmonizer:0.1.0"));
    assert_eq!(actions, expected);
}

#[test]
fn write_of_a_plain_event() {
    let (mut writer, _) = HarmonicWriter::new(1_000, "harmonizer", "0.1.0");
    let actions = writer.write(plain(-3, 77));
    let group = Node::Event(0);
    let expected = vec![
        act(Op::CreateGroup { node: group }, WriterError::EncodeError),
        act(
            Op::CreateAttribute { node: group, attr: Attr::OrigRun, value: Value::I32(-3) },
            WriterError::EncodeError,
        ),
        act(
            Op::CreateAttribute { node: group, attr: Attr::OrigEvent, value: Value::U64(77) },
            WriterError::EncodeError,
        ),
    ];
    assert_eq!(actions, expected);
    assert_eq!(writer.current_event(), 0);
    let query = writer.encoded();
    assert_eq!(query, act(Op::QuerySize, WriterError::SizeQueryError));
    assert_eq!(writer.current_event(), 1);
    assert_eq!(writer.current_run(), 0);
}

#[test]
fn an_event_counts_once_it_is_confirmed() {
    let (mut writer, _) = HarmonicWriter::new(1_000, "harmonizer", "0.1.0");
    let first = writer.write(plain(1, 1));
    let again = writer.write(plain(1, 1));
    assert_eq!(first, again);
    assert_eq!(writer.current_event(), 0);
    assert_eq!(writer.close(), finish_actions(0));
    writer.encoded();
    assert_eq!(writer.current_event(), 1);
    assert_eq!(writer.close(), finish_actions(1));
    let next = writer.write(plain(1, 2));
    assert_eq!(next[0], act(Op::CreateGroup { node: Node::Event(1) }, WriterError::EncodeError));
}

#[test]
fn a_failed_write_is_not_counted() {
    let mut files: Vec<Stored> = Vec::new();
    let (mut writer, start) = HarmonicWriter::new(1_000, "harmonizer", "0.1.0");
    perform(&mut files, &start);
    let encode = put(&mut writer, plain(0, 10));
    perform(&mut files, &encode);
    assert!(writer.observe_size(10).is_empty());

    let event = MergerEvent { run_number: 0, event: 11, get: Some(get_payload()), frib: None };
    let encode = writer.write(event);
    let mut broken = 0;
    while broken < encode.len() {
        let mut partly = files.clone();
        assert_eq!(attempt(&mut partly, &encode, Some(broken)), Err(WriterError::EncodeError));
        assert_eq!(partly[0].holds("events/event_1"), broken > 0);
        broken += 1;
    }
    assert_eq!(attempt(&mut files, &encode, Some(4)), Err(WriterError::EncodeError));

    assert_eq!(writer.current_event(), 1);
    assert_eq!(writer.current_run(), 0);
    assert_eq!(writer.harmonic_size(), 1_000);
    assert_eq!(files.len(), 1);
    assert_eq!(files[0].max_event(), None);
    let finish = writer.close();
    assert_eq!(finish, finish_actions(1));
    perform(&mut files, &finish);
    assert_eq!(files[0].max_event(), Some(Value::U64(1)));
    assert!(files[0].holds("events/event_1/get_traces"));
    assert!(!files[0].has_attribute("events/event_1/get_traces", "timestamp"));
}

#[test]
fn a_failed_size_query_comes_after_the_count() {
    let mut files: Vec<Stored> = Vec::new();
    let (mut writer, start) = HarmonicWriter::new(1_000, "harmonizer", "0.1.0");
    perform(&mut files, &start);
    let encode = writer.write(plain(0, 10));
    assert_eq!(attempt(&mut files, &encode, None), Ok(()));
    let query = writer.encoded();
    assert_eq!(attempt(&mut files, &[query], Some(0)), Err(WriterError::SizeQueryError));
    assert_eq!(writer.current_event(), 1);
    assert_eq!(writer.current_run(), 0);
    assert_eq!(files[0].size_queries, 0);
    assert_eq!(files[0].children("events"), vec!["event_0".to_string()]);
}

#[test]
fn a_failed_start_is_a_create_error() {
    let (_, start) = HarmonicWriter::new(1_000, "harmonizer", "0.1.0");
    let mut broken = 0;
    while broken < start.len() {
        let mut files: Vec<Stored> = Vec::new();
        assert_eq!(attempt(&mut files, &start, Some(broken)), Err(WriterError::CreateError));
        assert_eq!(files.len(), if broken == 0 { 0 } else { 1 });
        broken += 1;
    }
}

#[test]
fn a_failed_rollover_names_its_stage() {
    let mut files: Vec<Stored> = Vec::new();
    let (mut writer, start) = HarmonicWriter::new(1, "harmonizer", "0.1.0");
    perform(&mut files, &start);
    let encode = put(&mut writer, plain(0, 10));
    perform(&mut files, &encode);
    let roll = writer.observe_size(1);
    assert_eq!(attempt(&mut files.clone(), &roll, Some(0)), Err(WriterError::FinalizeError));
    assert_eq!(attempt(&mut files.clone(), &roll, Some(1)), Err(WriterError::CreateError));
    assert_eq!(attempt(&mut files.clone(), &roll, Some(5)), Err(WriterError::CreateError));
    assert_eq!(attempt(&mut files, &roll, Some(1)), Err(WriterError::CreateError));
    assert_eq!(files.len(), 1);
    assert_eq!(files[0].max_event(), Some(Value::U64(1)));
}

#[test]
fn a_fresh_file_is_initialised() {
    let (mut writer, _) = HarmonicWriter::new(1_000, "harmonizer", "0.1.0");
    assert_eq!(writer.init_file(), init_actions("harmonizer:0.1.0"));
    put(&mut writer, plain(0, 0));
    writer.observe_size(5_000);
    put(&mut writer, plain(0, 1));
    assert_eq!(writer.current_run(), 1);
    assert_eq!(writer.init_file(), init_actions("harmonizer:0.1.0"));
    let (other, _) = HarmonicWriter::new(0, "x", "");
    assert_eq!(other.init_file(), init_actions("x:"));
}

#[test]
fn finishing_declares_the_events_of_the_open_file() {
    let (mut writer, _) = HarmonicWriter::new(1_000, "harmonizer", "0.1.0");
    assert_eq!(writer.finish_file(), finish_actions(0));
    put(&mut writer, plain(0, 0));
    put(&mut writer, plain(0, 1));
    assert_eq!(writer.finish_file(), finish_actions(2));
    assert_eq!(writer.finish_file(), writer.close());
    writer.observe_size(1_000);
    assert_eq!(writer.finish_file(), finish_actions(0));
}

#[test]
fn write_of_an_event_with_both_payloads() {
    let (mut writer, _) = HarmonicWriter::new(1_000, "harmonizer", "0.1.0");
    put(&mut writer, plain(1, 1));
    put(&mut writer, plain(1, 2));
    let event = MergerEvent {
        run_number: 12,
        event: u64::MAX,
        get: Some(get_payload()),
        frib: Some(frib_payload()),
    };
    let actions = writer.write(event);
    let group = Node::Event(2);
    let traces = Node::GetTraces(2);
    let physics = Node::FribPhysics(2);
    let expected = vec![
        act(Op::CreateGroup { node: group }, WriterError::EncodeError),
        act(
            Op::CreateAttribute { node: group, attr: Attr::OrigRun, value: Value::I32(12) },
            WriterError::EncodeError,
        ),
        act(
            Op::CreateAttribute {
                node: group,
                attr: Attr::OrigEvent,
                value: Value::U64(u64::MAX),
            },
            WriterError::EncodeError,
        ),
        act(Op::CreateDataset { node: traces, data: vec![1, 2, 3] }, WriterError::EncodeError),
        act(
            Op::CreateAttribute { node: traces, attr: Attr::Id, value: Value::U32(5) },
            WriterError::EncodeError,
        ),
        act(
            Op::CreateAttribute { node: traces, attr: Attr::Timestamp, value: Value::U64(10) },
            WriterError::EncodeError,
        ),
        act(
            Op::CreateAttribute {
                node: traces,
                attr: Attr::TimestampOther,
                value: Value::U64(11),
            },
            WriterError::EncodeError,
        ),
        act(Op::CreateGroup { node: physics }, WriterError::EncodeError),
        act(
            Op::CreateAttribute { node: physics, attr: Attr::Event, value: Value::U32(8) },
            WriterError::EncodeError,
        ),
        act(
            Op::CreateAttribute { node: physics, attr: Attr::Timestamp, value: Value::U32(90) },
            WriterError::EncodeError,
        ),
        act(
            Op::CreateDataset { node: Node::FribTraces(2), data: vec![-4, 0, 4] },
            WriterError::EncodeError,
        ),
        act(
            Op::CreateDataset { node: Node::FribCoincidence(2), data: vec![7] },
            WriterError::EncodeError,
        ),
    ];
    assert_eq!(actions, expected);
    assert_eq!(writer.current_event(), 2);
    assert_eq!(writer.encoded(), act(Op::QuerySize, WriterError::SizeQueryError));
    assert_eq!(writer.current_event(), 3);
}

#[test]
fn a_file_under_the_budget_stays_open() {
    let (mut writer, _) = HarmonicWriter::new(100, "harmonizer", "0.1.0");
    put(&mut writer, plain(0, 0));
    let actions = writer.observe_size(99);
    assert!(actions.is_empty());
    assert_eq!(writer.current_run(), 0);
    assert_eq!(writer.current_event(), 1);
    assert!(writer.observe_size(0).is_empty());
    assert_eq!(writer.current_event(), 1);
}

#[test]
fn a_file_at_the_budget_is_closed() {
    let (mut writer, _) = HarmonicWriter::new(100, "harmonizer", "0.1.0");
    put(&mut writer, plain(0, 0));
    put(&mut writer, plain(0, 1));
    let actions = writer.observe_size(100);
    let mut expected = finish_actions(2);
    expected.push(act(Op::CreateFile { run: 1 }, WriterError::CreateError));
    expected.extend(init_actions("harmonizer:0.1.0"));
    assert_eq!(actions, expected);
    assert_eq!(writer.current_run(), 1);
    assert_eq!(writer.current_event(), 0);
}

#[test]
fn a_file_over_the_budget_is_closed() {
    let (mut writer, _) = HarmonicWriter::new(100, "harmonizer", "0.1.0");
    put(&mut writer, plain(0, 0));
    let actions = writer.observe_size(u64::MAX);
    assert_eq!(actions.len(), 6);
    assert_eq!(actions[0], finish_actions(1)[0]);
    assert_eq!(actions[1], act(Op::CreateFile { run: 1 }, WriterError::CreateError));
    assert_eq!(writer.current_run(), 1);
    assert_eq!(writer.current_event(), 0);
    let next = writer.write(plain(0, 1));
    assert_eq!(next[0], act(Op::CreateGroup { node: Node::Event(0) }, WriterError::EncodeError));
}

#[test]
fn a_budget_of_zero_closes_every_file() {
    let (mut writer, _) = HarmonicWriter::new(0, "harmonizer", "0.1.0");
    put(&mut writer, plain(0, 0));
    assert_eq!(writer.observe_size(0).len(), 6);
    assert_eq!(writer.current_run(), 1);
}

#[test]
fn close_finalises_the_open_file() {
    let (mut writer, _) = HarmonicWriter::new(100, "harmonizer", "0.1.0");
    assert_eq!(writer.close(), finish_actions(0));
    put(&mut writer, plain(0, 0));
    put(&mut writer, plain(0, 1));
    put(&mut writer, plain(0, 2));
    assert_eq!(writer.close(), finish_actions(3));
    assert_eq!(writer.current_event(), 3);
    assert_eq!(writer.current_run(), 0);
}

#[test]
fn every_failure_has_its_error() {
    let (mut writer, start) = HarmonicWriter::new(1, "harmonizer", "0.1.0");
    assert!(start.iter().all(|action| action.on_failure == WriterError::CreateError));
    let event =
        MergerEvent { run_number: 0, event: 0, get: Some(get_payload()), frib: Some(frib_payload()) };
    let encode = writer.write(event);
    assert_eq!(encode.len(), 12);
    assert!(encode.iter().all(|action| action.on_failure == WriterError::EncodeError));
    let query = writer.encoded();
    assert_eq!(query.op, Op::QuerySize);
    assert_eq!(query.on_failure, WriterError::SizeQueryError);
    let roll = writer.observe_size(1);
    assert_eq!(roll[0].on_failure, WriterError::FinalizeError);
    assert!(roll[1..].iter().all(|action| action.on_failure == WriterError::CreateError));
    let finish = writer.close();
    assert!(finish.iter().all(|action| action.on_failure == WriterError::FinalizeError));
}

#[test]
fn three_events_with_a_budget_of_one_byte() {
    let writes = vec![(plain(4, 100), 2_048), (plain(4, 101), 2_048), (plain(5, 0), 2_048)];
    let files = archive_of(1, writes);
    let origin = [(4, 100), (4, 101), (5, 0)];
    for (run, (orig_run, orig_event)) in origin.iter().enumerate() {
        let file = &files[run];
        assert_eq!(file.run, run as i32);
        assert_eq!(file.max_event(), Some(Value::U64(1)));
        assert_eq!(file.children("events"), vec!["event_0".to_string()]);
        assert!(file.children("events/event_0").is_empty());
        assert_eq!(
            file.attribute_names("events/event_0"),
            vec!["orig_event".to_string(), "orig_run".to_string()]
        );
        assert_eq!(file.attribute("events/event_0", "orig_run"), Some(Value::I32(*orig_run)));
        assert_eq!(file.attribute("events/event_0", "orig_event"), Some(Value::U64(*orig_event)));
    }
    // The third event closed its file too, so a further file was opened;
    // closing the writer finalises it empty.
    assert_eq!(files.len(), 4);
    assert_eq!(files[3].run, 3);
    assert_eq!(files[3].max_event(), Some(Value::U64(0)));
    assert!(files[3].children("events").is_empty());
}

#[test]
fn one_event_with_get_payload() {
    let event = MergerEvent { run_number: 1, event: 2, get: Some(get_payload()), frib: None };
    let files = archive_of(1_000_000, vec![(event, 4_096)]);
    assert_eq!(files.len(), 1);
    let file = &files[0];
    assert_eq!(file.max_event(), Some(Value::U64(1)));
    assert_eq!(file.children("events"), vec!["event_0".to_string()]);
    assert_eq!(file.datasets.get("events/event_0/get_traces"), Some(&vec![1i16, 2, 3]));
    assert_eq!(file.attribute("events/event_0/get_traces", "id"), Some(Value::U32(5)));
    assert_eq!(file.attribute("events/event_0/get_traces", "timestamp"), Some(Value::U64(10)));
    assert_eq!(
        file.attribute("events/event_0/get_traces", "timestamp_other"),
        Some(Value::U64(11))
    );
    assert_eq!(file.attribute_names("events/event_0/get_traces").len(), 3);
    assert!(!file.holds("events/event_0/frib_physics"));
    assert_eq!(file.children("events/event_0"), vec!["get_traces".to_string()]);
}

#[test]
fn close_without_events() {
    let files = archive_of(1_000, Vec::new());
    assert_eq!(files.len(), 1);
    assert_eq!(files[0].run, 0);
    assert_eq!(files[0].max_event(), Some(Value::U64(0)));
    assert!(files[0].children("events").is_empty());
    assert_eq!(files[0].groups, vec!["events".to_string()]);
}

#[test]
fn max_event_is_a_placeholder_until_the_file_is_closed() {
    let mut files: Vec<Stored> = Vec::new();
    let (mut writer, start) = HarmonicWriter::new(1_000, "harmonizer", "0.1.0");
    perform(&mut files, &start);
    assert!(files[0].has_attribute("events", "max_event"));
    assert_eq!(files[0].max_event(), None);
    let encode = put(&mut writer, plain(0, 0));
    perform(&mut files, &encode);
    assert_eq!(files[0].max_event(), None);
    assert_eq!(files[0].size_queries, 1);
    let finish = writer.close();
    perform(&mut files, &finish);
    assert_eq!(files[0].max_event(), Some(Value::U64(1)));
}

fn mixed_session() -> (Vec<Stored>, usize) {
    let sizes: [u64; 9] = [10, 50, 100, 30, 120, 99, 100, 5, 60];
    let mut writes: Vec<(MergerEvent, u64)> = Vec::new();
    for (i, size) in sizes.iter().enumerate() {
        let event = MergerEvent {
            run_number: 7,
            event: 1_000 + i as u64,
            get: if i % 2 == 0 { Some(get_payload()) } else { None },
            frib: if i % 3 == 0 { Some(frib_payload()) } else { None },
        };
        writes.push((event, *size));
    }
    (archive_of(100, writes), sizes.len())
}

#[test]
fn declared_events_add_up_to_the_events_written() {
    let (files, written) = mixed_session();
    let counts: Vec<Option<Value>> = files.iter().map(|file| file.max_event()).collect();
    assert_eq!(
        counts,
        vec![
            Some(Value::U64(3)),
            Some(Value::U64(2)),
            Some(Value::U64(2)),
            Some(Value::U64(2)),
        ]
    );
    let mut total: u64 = 0;
    for file in &files {
        if let Some(Value::U64(count)) = file.max_event() {
            total += count;
        }
    }
    assert_eq!(total, written as u64);
}

#[test]
fn each_file_holds_the_event_groups_below_its_max_event() {
    let (files, _) = mixed_session();
    for file in &files {
        let count = match file.max_event() {
            Some(Value::U64(count)) => count,
            other => panic!("max_event is {:?}", other),
        };
        let expected: Vec<String> = (0..count).map(|k| format!("event_{}", k)).collect();
        assert_eq!(file.children("events"), expected);
    }
}

#[test]
fn max_event_is_the_number_of_event_groups() {
    let (files, _) = mixed_session();
    for file in &files {
        let groups = file.children("events").len() as u64;
        assert_eq!(file.max_event(), Some(Value::U64(groups)));
    }
}

#[test]
fn runs_are_numbered_in_order() {
    let (files, _) = mixed_session();
    let runs: Vec<i32> = files.iter().map(|file| file.run).collect();
    assert_eq!(runs, vec![0, 1, 2, 3]);
}

#[test]
fn events_lie_where_they_were_written() {
    let (files, _) = mixed_session();
    let places = [(0, 0), (0, 1), (0, 2), (1, 0), (1, 1), (2, 0), (2, 1), (3, 0), (3, 1)];
    for (i, (run, index)) in places.iter().enumerate() {
        let group = format!("events/event_{}", index);
        let file = &files[*run];
        assert_eq!(file.attribute(&group, "orig_event"), Some(Value::U64(1_000 + i as u64)));
        assert_eq!(file.attribute(&group, "orig_run"), Some(Value::I32(7)));
        assert_eq!(file.holds(&format!("{}/get_traces", group)), i % 2 == 0);
        assert_eq!(file.holds(&format!("{}/frib_physics", group)), i % 3 == 0);
    }
}

#[test]
fn min_event_is_zero_in_every_file() {
    let (files, _) = mixed_session();
    assert_eq!(files.len(), 4);
    for file in &files {
        assert_eq!(file.attribute("events", "min_event"), Some(Value::U64(0)));
    }
}

#[test]
fn version_is_in_every_file() {
    let (files, _) = mixed_session();
    for file in &files {
        assert_eq!(
            file.attribute("events", "version"),
            Some(Value::Text("harmonizer:0.1.0".to_string()))
        );
    }
    let mut other: Vec<Stored> = Vec::new();
    let (_, start) = HarmonicWriter::new(5, "spyral", "2.0.0-rc1");
    perform(&mut other, &start);
    assert_eq!(
        other[0].attribute("events", "version"),
        Some(Value::Text("spyral:2.0.0-rc1".to_string()))
    );
}

#[test]
fn the_events_group_has_three_attributes() {
    let (files, _) = mixed_session();
    for file in &files {
        assert_eq!(
            file.attribute_names("events"),
            vec!["max_event".to_string(), "min_event".to_string(), "version".to_string()]
        );
    }
}

#[test]
fn an_event_without_payloads_has_only_its_provenance() {
    let files = archive_of(1_000, vec![(plain(-1, 9), 10)]);
    let file = &files[0];
    assert!(!file.holds("events/event_0/get_traces"));
    assert!(!file.holds("events/event_0/frib_physics"));
    assert!(file.children("events/event_0").is_empty());
    assert!(file.datasets.is_empty());
    assert_eq!(
        file.attribute_names("events/event_0"),
        vec!["orig_event".to_string(), "orig_run".to_string()]
    );
    assert_eq!(file.attribute("events/event_0", "orig_run"), Some(Value::I32(-1)));
    assert_eq!(file.attribute("events/event_0", "orig_event"), Some(Value::U64(9)));
}

#[test]
fn an_event_with_frib_payload_only() {
    let event = MergerEvent { run_number: 3, event: 4, get: None, frib: Some(frib_payload()) };
    let files = archive_of(1_000, vec![(event, 10)]);
    let file = &files[0];
    assert!(!file.holds("events/event_0/get_traces"));
    assert_eq!(file.children("events/event_0"), vec!["frib_physics".to_string()]);
    assert_eq!(file.attribute("events/event_0/frib_physics", "event"), Some(Value::U32(8)));
    assert_eq!(file.attribute("events/event_0/frib_physics", "timestamp"), Some(Value::U32(90)));
    assert_eq!(file.attribute_names("events/event_0/frib_physics").len(), 2);
    assert_eq!(file.datasets.get("events/event_0/frib_physics/1903"), Some(&vec![-4i16, 0, 4]));
    assert_eq!(file.datasets.get("events/event_0/frib_physics/977"), Some(&vec![7i16]));
    assert_eq!(file.datasets.len(), 2);
}

#[test]
fn an_event_with_empty_traces() {
    let get = GetEvent { id: 0, timestamp: 0, timestamp_other: 0, traces: Vec::new() };
    let frib = FribEvent { event: 0, timestamp: 0, traces: Vec::new(), coincidence: Vec::new() };
    let event = MergerEvent { run_number: 0, event: 0, get: Some(get), frib: Some(frib) };
    let files = archive_of(1_000, vec![(event, 10)]);
    let file = &files[0];
    assert_eq!(file.datasets.get("events/event_0/get_traces"), Some(&Vec::new()));
    assert_eq!(file.datasets.get("events/event_0/frib_physics/1903"), Some(&Vec::new()));
    assert_eq!(file.datasets.get("events/event_0/frib_physics/977"), Some(&Vec::new()));
}

#[test]
fn many_events_in_one_file() {
    let mut writes: Vec<(MergerEvent, u64)> = Vec::new();
    let mut i: u64 = 0;
    while i < 120 {
        writes.push((plain(1, i), i));
        i += 1;
    }
    let files = archive_of(1_000, writes);
    assert_eq!(files.len(), 1);
    assert_eq!(files[0].max_event(), Some(Value::U64(120)));
    assert_eq!(files[0].children("events").len(), 120);
    assert_eq!(files[0].attribute("events/event_119", "orig_event"), Some(Value::U64(119)));
    assert_eq!(files[0].size_queries, 120);
}
