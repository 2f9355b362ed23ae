use lifec::attributes::{Attribute, AttributeGraph, Value};
use lifec::entity::Entity;
use lifec::node::{EngineStatus, EventStatus, NodeCommand, NodeStatus};
use lifec::wire::{Frame, Ident, Keyword, Word};

fn e(index: u32, generation: i32) -> Entity {
    Entity::new(index, generation)
}

#[test]
fn status_round_trips_through_frames() {
    let statuses = vec![
        NodeStatus::Engine(EngineStatus::Inactive(e(1, 0))),
        NodeStatus::Engine(EngineStatus::Active(e(2, 1))),
        NodeStatus::Engine(EngineStatus::Disposed(e(3, 2))),
        NodeStatus::Event(EventStatus::Scheduled(e(4, 0))),
        NodeStatus::Event(EventStatus::New(e(5, 0))),
        NodeStatus::Event(EventStatus::InProgress(e(6, 0))),
        NodeStatus::Event(EventStatus::Paused(e(7, 0))),
        NodeStatus::Event(EventStatus::Ready(e(8, 0))),
        NodeStatus::Event(EventStatus::Completed(e(9, 0))),
        NodeStatus::Event(EventStatus::Cancelled(e(10, 0))),
        NodeStatus::Event(EventStatus::Inactive(e(11, 0))),
        NodeStatus::Event(EventStatus::Disposed(e(12, 0))),
        NodeStatus::Profiler(e(13, 0)),
        NodeStatus::Custom(e(14, 3)),
    ];
    for s in statuses {
        let frames = s.encode();
        assert_eq!(frames.len(), 1);
        assert_eq!(NodeStatus::decode(&frames), s);
    }
}

#[test]
fn empty_status_has_no_frames() {
    assert!(NodeStatus::Empty.encode().is_empty());
}

#[test]
fn status_frame_names_the_status() {
    let frames = NodeStatus::Event(EventStatus::Paused(e(7, 2))).encode();
    let f = &frames[0];
    assert_eq!(f.keyword, Keyword::Extension);
    assert_eq!(f.name.text(), "event_status");
    assert_eq!(f.symbol.as_ref().unwrap().text(), "paused");
    assert_eq!(f.entity, e(7, 2));
}

#[test]
fn status_index_names_each_frame() {
    let mut frames = NodeStatus::Profiler(e(1, 0)).encode();
    frames.extend(NodeStatus::Custom(e(2, 0)).encode());
    let index = NodeStatus::build_index(&frames);
    assert_eq!(index.len(), 2);
    assert_eq!(index[0].key, "0-node-status");
    assert_eq!((index[0].start, index[0].end), (0, 1));
    assert_eq!(index[1].key, "1-node-status");
    assert_eq!((index[1].start, index[1].end), (1, 2));
}

fn same_command(a: &NodeCommand, b: &NodeCommand) -> bool {
    a.describe() == b.describe()
        && match (a, b) {
            (NodeCommand::Update(x), NodeCommand::Update(y)) => {
                x.entity_id() == y.entity_id()
                    && x.attributes().len() == y.attributes().len()
                    && x.attributes().iter().zip(y.attributes().iter()).all(|(p, q)| {
                        p.id == q.id && p.name == q.name && format!("{:?}", p.value) == format!("{:?}", q.value)
                    })
            }
            (NodeCommand::Swap { owner: o1, from: f1, to: t1 }, NodeCommand::Swap { owner: o2, from: f2, to: t2 }) => {
                o1 == o2 && f1 == f2 && t1 == t2
            }
            (NodeCommand::Custom(n1, e1), NodeCommand::Custom(n2, e2)) => n1 == n2 && e1 == e2,
            _ => true,
        }
}

#[test]
fn commands_round_trip_through_frames() {
    let mut graph = AttributeGraph::new(9);
    graph.with("name".to_string(), Value::TextBuffer("value".to_string()));
    graph.with("name::count".to_string(), Value::Int(3));
    let commands = vec![
        NodeCommand::Activate(e(1, 0)),
        NodeCommand::Reset(e(2, 0)),
        NodeCommand::Pause(e(3, 0)),
        NodeCommand::Resume(e(4, 0)),
        NodeCommand::Cancel(e(5, 0)),
        NodeCommand::Spawn(e(6, 0)),
        NodeCommand::Update(graph),
        NodeCommand::Swap { owner: e(7, 0), from: e(8, 0), to: e(9, 0) },
        NodeCommand::custom("rebuild", e(10, 1)),
    ];
    for c in commands {
        let frames = NodeCommand::encode(&c, 2);
        let back = NodeCommand::decode(&frames);
        assert!(same_command(&c, &back), "{:?} came back as {:?}", c, back);
    }
}

#[test]
fn update_frames_define_each_attribute() {
    let mut graph = AttributeGraph::new(4);
    graph.with("a".to_string(), Value::Bool(true));
    graph.with("a::b".to_string(), Value::Int(7));
    graph.with("c".to_string(), Value::Int(8));
    let frames = NodeCommand::encode(&NodeCommand::Update(graph), 3);
    assert_eq!(frames.len(), 4);
    // the update frame names the graph's entity at the world's generation
    assert_eq!(frames[0].entity, e(4, 3));
    // then the root is added, about no entity
    assert_eq!(frames[1].keyword, Keyword::Add);
    assert_eq!(frames[1].name.text(), "a");
    assert!(frames[1].symbol.is_none());
    assert_eq!(frames[1].entity, e(0, 0));
    // then each property is defined under the root's name
    assert_eq!(frames[2].keyword, Keyword::Define);
    assert_eq!(frames[2].name.text(), "b");
    assert_eq!(frames[2].symbol.as_ref().map(|s| s.text()), Some("a".to_string()));
    assert_eq!(frames[2].entity, e(4, 3));
    assert_eq!(frames[3].name.text(), "c");
}

#[test]
fn update_decoding_prefixes_names_with_symbols() {
    let owner = e(5, 1);
    let frames = vec![
        Frame::extension(Word::NodeCommand, Word::Update, owner),
        Frame {
            keyword: Keyword::Add,
            name: Ident::Text("timeout".to_string()),
            symbol: Some(Ident::Text("server".to_string())),
            value: Some(Value::Int(80)),
            entity: owner,
        },
    ];
    match NodeCommand::decode(&frames) {
        NodeCommand::Update(g) => {
            assert_eq!(g.entity_id(), 5);
            assert_eq!(g.attributes().len(), 1);
            let a: &Attribute = &g.attributes()[0];
            assert_eq!(a.name, "server::timeout");
            assert_eq!(a.id, 5);
        }
        other => panic!("unexpected {:?}", other),
    }
}

#[test]
fn command_descriptions() {
    assert_eq!(NodeCommand::Activate(e(4, 0)).describe(), "activate 4");
    assert_eq!(NodeCommand::custom("go", e(12, 0)).describe(), "custom.go 12");
    assert_eq!(NodeCommand::Update(AttributeGraph::new(33)).describe(), "update 33");
}

#[test]
fn command_index_covers_each_command() {
    let mut frames = NodeCommand::encode(&NodeCommand::Activate(e(1, 0)), 0);
    frames.extend(NodeCommand::encode(&NodeCommand::Swap { owner: e(2, 0), from: e(3, 0), to: e(4, 0) }, 0));
    frames.extend(NodeCommand::encode(&NodeCommand::custom("x", e(5, 0)), 0));
    let index = NodeCommand::build_index(&frames);
    let ranges: Vec<(usize, usize)> = index.iter().map(|i| (i.start, i.end)).collect();
    assert_eq!(ranges, vec![(0, 1), (1, 4), (4, 6)]);
}

#[test]
fn command_index_with_updates() {
    let mut graph = AttributeGraph::new(9);
    graph.with("root".to_string(), Value::Int(1));
    graph.with("root::x".to_string(), Value::Int(2));
    let mut frames = NodeCommand::encode(&NodeCommand::Update(graph), 0);
    frames.extend(NodeCommand::encode(&NodeCommand::Activate(e(1, 0)), 0));
    let mut last = AttributeGraph::new(4);
    last.with("r".to_string(), Value::Int(3));
    frames.extend(NodeCommand::encode(&NodeCommand::Update(last), 0));
    let index = NodeCommand::build_index(&frames);
    let entries: Vec<(String, usize, usize)> = index.iter().map(|i| (i.key.clone(), i.start, i.end)).collect();
    // an update followed by another command covers one frame less than its three
    assert_eq!(entries, vec![
        ("0".to_string(), 0, 2),
        ("3".to_string(), 3, 4),
        ("4".to_string(), 4, 6),
    ]);
}
