use lifec::appendix::{Appendix, General, State};
use lifec::attributes::{Attribute, AttributeGraph, Value};
use lifec::entity::Entity;
use lifec::event::{EventComponent, EventGraph};
use lifec::section::Section;

fn text(g: &AttributeGraph, name: &str) -> Option<String> {
    g.find_text(name)
}

#[test]
fn section_copies_state_attributes_under_its_entity() {
    let mut attrs = AttributeGraph::new(4);
    attrs.with("a".to_string(), Value::Int(1));
    let state_attrs = vec![
        Attribute::new(9, "b".to_string(), Value::Int(2)),
        Attribute::new(9, "a".to_string(), Value::Int(3)),
    ];
    let s: Section<u8> = Section::new("Title", attrs, 7, &state_attrs);
    assert_eq!(s.title(), "Title");
    assert_eq!(s.get_gen(), 0);
    assert_eq!(s.get_parent_entity(), 0);
    let list = s.attributes().attributes();
    assert_eq!(list.len(), 2);
    assert_eq!(list[0].name, "a");
    assert!(matches!(list[0].value, Value::Int(3)));
    assert_eq!(list[0].id, 4);
    assert_eq!(list[1].name, "b");
    assert_eq!(list[1].id, 4);
    assert_eq!(s.state, 7);
}

#[test]
fn builders_set_title_file_attribute_and_parent() {
    let mut s: Section<()> = Section::default();
    s.with_title("Files")
        .with_file("notes.txt", Some(b"hello".to_vec()))
        .with_attribute(&Attribute::new(3, "flag".to_string(), Value::Bool(true)))
        .with_parent_entity_id(12);
    // the title goes into the `title::` attribute; entity 12 becomes the
    // parent, and the attributes move to it
    assert_eq!(s.title(), "");
    assert_eq!(text(s.attributes(), "title::"), Some("Files".to_string()));
    assert_eq!(s.get_parent_entity(), 12);
    assert_eq!(s.attributes().entity_id(), 12);
    let g = s.attributes();
    assert!(matches!(g.find_attr_value("file::notes.txt"), Some(Value::BinaryVector(b)) if b == b"hello"));
    assert_eq!(s.is_attr_checkbox("flag"), Some(true));
    assert_eq!(s.is_attr_checkbox("missing"), None);
    assert!(g.attributes().iter().all(|a| a.id == 12));
}

#[test]
fn missing_file_contents_leave_attributes() {
    let mut s: Section<()> = Section::default();
    s.with_file("gone.txt", None);
    assert!(s.attributes().attributes().is_empty());
}

#[test]
fn generation_counts_up() {
    let mut s: Section<()> = Section::default();
    s.next_gen();
    s.next_gen();
    assert_eq!(s.get_gen(), 2);
}

#[test]
fn state_follows_attribute() {
    let mut attrs = AttributeGraph::new(0);
    attrs.with("count".to_string(), Value::Int(5));
    let mut s: Section<i32> = Section::new("c", attrs, 1, &vec![]);
    s.modify_state_with_attr("count", |a: &Attribute, st: &i32| match a.value {
        Value::Int(v) => v + *st,
        _ => *st,
    });
    assert_eq!(s.state, 6);
    s.modify_state_with_attr("missing", |_: &Attribute, _: &i32| 100);
    assert_eq!(s.state, 6);
}

#[test]
fn custom_editor_replaces_attribute() {
    let mut attrs = AttributeGraph::new(0);
    attrs.with("name".to_string(), Value::TextBuffer("old".to_string()));
    let mut s: Section<()> = Section::new("n", attrs, (), &vec![]);
    s.edit_attr_custom("name", |a: &Attribute| Attribute::new(a.id, a.name.clone(), Value::TextBuffer("new".to_string())));
    assert_eq!(text(s.attributes(), "name"), Some("new".to_string()));
}

#[test]
fn cleanup_drops_empty_values() {
    let mut attrs = AttributeGraph::new(0);
    attrs.with("keep".to_string(), Value::Int(1));
    attrs.with("drop".to_string(), Value::Empty);
    let mut s: Section<()> = Section::new("x", attrs, (), &vec![]);
    s.cleanup_empty_attributes();
    assert_eq!(s.attributes().len(), 1);
    assert_eq!(s.attributes().attributes()[0].name, "keep");
}

#[test]
fn copies_enable_systems_and_editing() {
    let s: Section<String> = Section::new("t", AttributeGraph::new(0), "state".to_string(), &vec![]);
    let a = s.enable_app_systems();
    assert!(a.enable_app_systems);
    assert!(!a.enable_edit_attributes);
    assert_eq!(a.state, "state");
    let b = a.enable_edit_attributes();
    assert!(b.enable_app_systems && b.enable_edit_attributes);
}

#[test]
fn showing_records_open_state_and_title() {
    let mut attrs = AttributeGraph::new(0);
    attrs.with("opened::".to_string(), Value::Bool(false));
    attrs.with("title::".to_string(), Value::TextBuffer("Renamed".to_string()));
    let mut s: Section<()> = Section::new("t", attrs, (), &vec![]);
    assert!(s.default_open());
    s.after_show(true);
    assert_eq!(s.attributes().is_enabled("opened::"), Some(true));
    assert_eq!(s.title(), "Renamed");
}

#[test]
fn event_round_trips_through_a_section() {
    let mut ev = EventComponent::new("label", "{ on;; }");
    ev.dispatch = "go".to_string();
    ev.call = "run".to_string();
    let s: Section<()> = ev.to_section(&vec![]);
    assert_eq!(s.title(), "label");
    let back = EventComponent::from_section(&s);
    assert_eq!(back.label, "label");
    assert_eq!(back.on, "{ on;; }");
    assert_eq!(back.dispatch, "go");
    assert_eq!(back.call, "run");
    assert!(back.transitions.is_empty());
}

#[test]
fn section_without_event_text_gives_empty_event() {
    let s: Section<()> = Section::default();
    let back = EventComponent::from_section(&s);
    assert_eq!(back.label, "");
    assert_eq!(back.on, "");
}

#[test]
fn event_graph_keeps_order() {
    let mut g = EventGraph::new();
    g.add_event(EventComponent::new("a", "x"));
    g.add_event(EventComponent::new("b", "y"));
    let copy = g.duplicate();
    let labels: Vec<&str> = copy.events().iter().map(|e| e.label.as_str()).collect();
    assert_eq!(labels, vec!["a", "b"]);
}

#[test]
fn appendix_looks_up_names_and_states() {
    let mut a = Appendix::new();
    let x = Entity::new(3, 0);
    let y = Entity::new(3, 1);
    a.insert_general(x, General { name: "x".to_string() });
    a.insert_general(y, General { name: "y".to_string() });
    a.insert_general(x, General { name: "x2".to_string() });
    a.insert_state(y, State { control_symbol: "ctl".to_string(), graph: None });
    assert_eq!(a.name(x).map(|s| s.as_str()), Some("x2"));
    assert_eq!(a.name_by_id(3).map(|s| s.as_str()), Some("x2"));
    assert_eq!(a.control_symbol(y).map(|s| s.as_str()), Some("ctl"));
    assert!(a.control_symbol(x).is_none());
    assert!(a.name_by_id(4).is_none());
}

#[test]
fn event_section_copies_the_state_attributes() {
    let ev = EventComponent::new("label", "{ on;; }");
    let state_attrs = vec![Attribute::new(9, "extra".to_string(), Value::Int(4))];
    let s: Section<()> = ev.to_section(&state_attrs);
    assert_eq!(s.attributes().find_attr_value("extra").map(|v| format!("{:?}", v)), Some("Int(4)".to_string()));
    assert_eq!(s.attributes().find_text("label"), Some("label".to_string()));
}
