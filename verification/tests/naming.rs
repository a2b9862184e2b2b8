use harmonizer::action::{Value, ValueKind};
use harmonizer::layout::{Attr, Node};
use harmonizer::naming::{event_group_name, producer_tag};

fn path_of(node: Node) -> Vec<String> {
    node.path()
}

fn names(parts: &[&str]) -> Vec<String> {
    parts.iter().map(|part| part.to_string()).collect()
}

#[test]
fn event_group_names_count_from_zero() {
    assert_eq!(event_group_name(0), "event_0");
    assert_eq!(event_group_name(1), "event_1");
    assert_eq!(event_group_name(9), "event_9");
}

#[test]
fn event_group_names_have_no_padding() {
    assert_eq!(event_group_name(10), "event_10");
    assert_eq!(event_group_name(99), "event_99");
    assert_eq!(event_group_name(100), "event_100");
    assert_eq!(event_group_name(1_000_000), "event_1000000");
    assert_eq!(event_group_name(12_345_678_901), "event_12345678901");
}

#[test]
fn event_group_name_of_largest_index() {
    assert_eq!(event_group_name(u64::MAX), "event_18446744073709551615");
}

#[test]
fn event_group_names_agree_with_std_formatting() {
    let mut index: u64 = 0;
    while index < 5_000 {
        assert_eq!(event_group_name(index), format!("event_{}", index));
        index += 1;
    }
    let mut index: u64 = 1;
    while index < u64::MAX / 7 {
        assert_eq!(event_group_name(index), format!("event_{}", index));
        index *= 7;
    }
}

#[test]
fn event_group_names_differ() {
    let mut seen: Vec<String> = Vec::new();
    let mut index: u64 = 0;
    while index < 300 {
        let name = event_group_name(index);
        assert!(!seen.contains(&name));
        seen.push(name);
        index += 1;
    }
}

#[test]
fn producer_tag_is_name_colon_version() {
    assert_eq!(producer_tag("harmonizer", "0.1.0"), "harmonizer:0.1.0");
    assert_eq!(producer_tag("a", "b"), "a:b");
}

#[test]
fn producer_tag_keeps_empty_parts() {
    assert_eq!(producer_tag("", ""), ":");
    assert_eq!(producer_tag("name", ""), "name:");
    assert_eq!(producer_tag("", "1.2"), ":1.2");
}

#[test]
fn producer_tag_keeps_colons_and_other_characters() {
    assert_eq!(producer_tag("a:b", "1:2"), "a:b:1:2");
    assert_eq!(producer_tag("détecteur", "β-2"), "détecteur:β-2");
}

#[test]
fn paths_lead_from_the_root() {
    assert_eq!(path_of(Node::Events), names(&["events"]));
    assert_eq!(path_of(Node::Event(0)), names(&["events", "event_0"]));
    assert_eq!(path_of(Node::Event(42)), names(&["events", "event_42"]));
    assert_eq!(path_of(Node::GetTraces(3)), names(&["events", "event_3", "get_traces"]));
    assert_eq!(path_of(Node::FribPhysics(3)), names(&["events", "event_3", "frib_physics"]));
    assert_eq!(
        path_of(Node::FribTraces(17)),
        names(&["events", "event_17", "frib_physics", "1903"])
    );
    assert_eq!(
        path_of(Node::FribCoincidence(17)),
        names(&["events", "event_17", "frib_physics", "977"])
    );
}

#[test]
fn paths_of_different_nodes_differ() {
    let mut nodes: Vec<Node> = vec![Node::Events];
    let mut index: u64 = 0;
    while index < 12 {
        nodes.push(Node::Event(index));
        nodes.push(Node::GetTraces(index));
        nodes.push(Node::FribPhysics(index));
        nodes.push(Node::FribTraces(index));
        nodes.push(Node::FribCoincidence(index));
        index += 1;
    }
    for (i, a) in nodes.iter().enumerate() {
        for (j, b) in nodes.iter().enumerate() {
            assert_eq!(i == j, a.path() == b.path());
        }
    }
}

#[test]
fn groups_and_datasets_are_told_apart() {
    assert!(Node::Events.group());
    assert!(Node::Event(5).group());
    assert!(Node::FribPhysics(5).group());
    assert!(!Node::GetTraces(5).group());
    assert!(!Node::FribTraces(5).group());
    assert!(!Node::FribCoincidence(5).group());
}

#[test]
fn attribute_names() {
    assert_eq!(Attr::MinEvent.name(), "min_event");
    assert_eq!(Attr::MaxEvent.name(), "max_event");
    assert_eq!(Attr::Version.name(), "version");
    assert_eq!(Attr::OrigRun.name(), "orig_run");
    assert_eq!(Attr::OrigEvent.name(), "orig_event");
    assert_eq!(Attr::Id.name(), "id");
    assert_eq!(Attr::Timestamp.name(), "timestamp");
    assert_eq!(Attr::TimestampOther.name(), "timestamp_other");
    assert_eq!(Attr::Event.name(), "event");
}

#[test]
fn attribute_names_differ() {
    let all = [
        Attr::MinEvent,
        Attr::MaxEvent,
        Attr::Version,
        Attr::OrigRun,
        Attr::OrigEvent,
        Attr::Id,
        Attr::Timestamp,
        Attr::TimestampOther,
        Attr::Event,
    ];
    for (i, a) in all.iter().enumerate() {
        for (j, b) in all.iter().enumerate() {
            assert_eq!(i == j, a.name() == b.name());
        }
    }
}

#[test]
fn values_know_their_type() {
    assert_eq!(Value::I32(-4).kind(), ValueKind::I32);
    assert_eq!(Value::U32(4).kind(), ValueKind::U32);
    assert_eq!(Value::U64(4).kind(), ValueKind::U64);
    assert_eq!(Value::Text("x".to_string()).kind(), ValueKind::Text);
}
