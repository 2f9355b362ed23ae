use lifec::attributes::Value;
use lifec::attributes::Attribute;
use lifec::node_graph::{link_step, LinkStep, NodeGraph};

fn thunks() -> Vec<String> {
    vec!["println".to_string(), "add".to_string()]
}

#[test]
fn reference_source_shares_its_reference() {
    let r = link_step(&Value::Reference(7), &Value::Reference(1), false, &thunks());
    assert!(matches!(r, LinkStep::ShareReference(7)));
    let r = link_step(&Value::Reference(9), &Value::Empty, true, &thunks());
    assert!(matches!(r, LinkStep::ShareReference(9)));
}

#[test]
fn symbol_source_hands_its_first_return_to_an_empty_target() {
    let s = Value::Symbol("thunk::add".to_string());
    assert!(matches!(link_step(&s, &Value::Empty, true, &thunks()), LinkStep::TakeFirstReturn));
    assert!(matches!(link_step(&s, &Value::Empty, false, &thunks()), LinkStep::Keep));
}

#[test]
fn empty_source_stops_at_a_symbol() {
    let t = Value::Symbol("thunk::add".to_string());
    assert!(matches!(link_step(&Value::Empty, &t, true, &thunks()), LinkStep::Stop));
}

#[test]
fn other_sources_give_an_empty_target_a_reference() {
    assert!(matches!(link_step(&Value::Int(3), &Value::Empty, false, &thunks()), LinkStep::TakeReference));
    assert!(matches!(link_step(&Value::Empty, &Value::Empty, false, &thunks()), LinkStep::TakeReference));
}

#[test]
fn known_thunk_targets_take_inputs() {
    let t = Value::Symbol("thunk::println".to_string());
    match link_step(&Value::Symbol("x".to_string()), &t, true, &thunks()) {
        LinkStep::ForwardOutputs(name) => assert_eq!(name, "println"),
        other => panic!("unexpected {:?}", other),
    }
    assert!(matches!(link_step(&Value::Symbol("x".to_string()), &t, false, &thunks()), LinkStep::Stop));
    match link_step(&Value::Reference(4), &t, false, &thunks()) {
        LinkStep::ForwardReferenced(name, 4) => assert_eq!(name, "println"),
        other => panic!("unexpected {:?}", other),
    }
    match link_step(&Value::Int(2), &t, false, &thunks()) {
        LinkStep::ForwardValue(name) => assert_eq!(name, "println"),
        other => panic!("unexpected {:?}", other),
    }
}

#[test]
fn unknown_or_unprefixed_thunks_change_nothing() {
    let unknown = Value::Symbol("thunk::missing".to_string());
    assert!(matches!(link_step(&Value::Int(2), &unknown, true, &thunks()), LinkStep::Keep));
    let plain = Value::Symbol("println".to_string());
    assert!(matches!(link_step(&Value::Int(2), &plain, true, &thunks()), LinkStep::Keep));
    assert!(matches!(link_step(&Value::Int(2), &Value::Int(3), true, &thunks()), LinkStep::Keep));
}

fn attr(name: &str, value: Value) -> Attribute {
    Attribute::new(1, name.to_string(), value)
}

#[test]
fn links_are_added_once() {
    let mut g = NodeGraph::new();
    g.add_node(1, "a".to_string(), attr("a", Value::Reference(7)), 7);
    g.add_node(2, "b".to_string(), attr("b", Value::Empty), 0);
    assert!(g.add_link(10, 1, 2));
    assert!(!g.add_link(11, 1, 2));
    assert!(g.add_link(12, 2, 1));
}

#[test]
fn visiting_a_link_shares_a_reference() {
    let mut g = NodeGraph::new();
    g.add_node(1, "a".to_string(), attr("a", Value::Reference(7)), 7);
    g.add_node(2, "b".to_string(), attr("b", Value::Empty), 0);
    let (go_on, step) = g.visit(1, 2, &thunks());
    assert!(go_on);
    assert!(matches!(step, Some(LinkStep::ShareReference(7))));
    assert!(matches!(g.find_node(2).unwrap().attribute.value, Value::Reference(7)));
    let (go_on, step) = g.visit(1, 3, &thunks());
    assert!(go_on);
    assert!(step.is_none());
}

#[test]
fn visiting_a_thunk_feeds_it() {
    let mut g = NodeGraph::new();
    g.add_node(1, "a".to_string(), attr("count", Value::Int(4)), 4);
    g.add_node(2, "b".to_string(), attr("b", Value::Symbol("thunk::add".to_string())), 5);
    g.add_node(3, "c".to_string(), attr("c", Value::Reference(99)), 99);
    g.visit(1, 2, &thunks());
    let fed = g.find_node(2).unwrap();
    assert_eq!(fed.thunk.as_deref(), Some("add"));
    assert!(matches!(fed.values.as_ref().unwrap().find_attr_value("count"), Some(Value::Int(4))));
    // a reference source forwards the value stored under its reference
    let (go_on, _) = g.visit(3, 2, &thunks());
    assert!(go_on);
    assert!(matches!(g.find_node(2).unwrap().values.as_ref().unwrap().find_attr_value("c"), Some(Value::Reference(99))));
}

#[test]
fn a_missing_referenced_value_stops_the_walk() {
    let mut g = NodeGraph::new();
    g.add_node(1, "a".to_string(), attr("a", Value::Reference(7)), 8);
    g.add_node(2, "b".to_string(), attr("b", Value::Symbol("thunk::add".to_string())), 5);
    let (go_on, step) = g.visit(1, 2, &thunks());
    assert!(!go_on);
    assert!(matches!(step, Some(LinkStep::ForwardReferenced(_, 7))));
}

#[test]
fn dropping_a_link_lets_go_of_references() {
    let mut g = NodeGraph::new();
    g.add_node(1, "a".to_string(), attr("a", Value::Reference(7)), 7);
    g.add_node(2, "b".to_string(), attr("b", Value::Reference(7)), 0);
    g.add_link(10, 1, 2);
    assert!(g.drop_link(10, false));
    assert!(matches!(g.find_node(2).unwrap().attribute.value, Value::Empty));
    assert!(matches!(g.find_node(1).unwrap().attribute.value, Value::Empty));
    assert!(!g.drop_link(10, false));
}

#[test]
fn dropping_a_link_can_preserve_the_referenced_value() {
    let mut g = NodeGraph::new();
    g.add_node(1, "a".to_string(), attr("a", Value::Int(3)), 7);
    g.add_node(2, "b".to_string(), attr("b", Value::Reference(7)), 8);
    g.add_link(10, 1, 2);
    assert!(g.drop_link(10, true));
    assert!(matches!(g.find_node(2).unwrap().attribute.value, Value::Int(3)));
    assert!(matches!(g.find_node(1).unwrap().attribute.value, Value::Int(3)));
}

#[test]
fn an_empty_title_is_taken_from_the_attribute() {
    let mut g = NodeGraph::new();
    g.add_node(1, String::new(), attr("count", Value::Int(1)), 3);
    g.add_node(2, "given".to_string(), attr("other", Value::Int(1)), 4);
    assert_eq!(g.find_node(1).unwrap().title, "count");
    assert_eq!(g.find_node(2).unwrap().title, "given");
}

#[test]
fn a_plain_source_gives_an_empty_target_its_reference() {
    let mut g = NodeGraph::new();
    g.add_node(1, "a".to_string(), attr("a", Value::Int(5)), 40);
    g.add_node(2, "b".to_string(), attr("b", Value::Empty), 41);
    let (go_on, step) = g.visit(1, 2, &thunks());
    assert!(go_on);
    assert!(matches!(step, Some(LinkStep::TakeReference)));
    assert!(matches!(g.find_node(2).unwrap().attribute.value, Value::Reference(40)));
    assert!(matches!(g.find_node(1).unwrap().attribute.value, Value::Int(5)));
}

#[test]
fn a_thunk_node_hands_on_its_first_return_and_its_outputs() {
    let mut g = NodeGraph::new();
    g.add_node(1, "a".to_string(), attr("a", Value::Symbol("thunk::add".to_string())), 1);
    g.add_node(2, "b".to_string(), attr("b", Value::Empty), 2);
    g.add_node(3, "c".to_string(), attr("c", Value::Symbol("thunk::println".to_string())), 3);
    // the first thunk was given an input, and returned a sum
    g.add_node(4, "x".to_string(), attr("x", Value::Int(2)), 4);
    g.add_node(5, "y".to_string(), attr("y", Value::Symbol("thunk::add".to_string())), 5);
    g.visit(4, 1, &thunks());
    assert!(g.record_returns(1, vec![(77, attr("sum", Value::Int(9)))]));
    assert!(!g.record_returns(42, vec![]));
    let (_, step) = g.visit(1, 2, &thunks());
    assert!(matches!(step, Some(LinkStep::TakeFirstReturn)));
    assert!(matches!(g.find_node(2).unwrap().attribute.value, Value::Reference(77)));
    let (_, step) = g.visit(1, 3, &thunks());
    assert!(matches!(step, Some(LinkStep::ForwardOutputs(_))));
    let fed = g.find_node(3).unwrap();
    assert_eq!(fed.thunk.as_deref(), Some("println"));
    let values = fed.values.as_ref().unwrap();
    assert!(matches!(values.find_attr_value("x"), Some(Value::Int(2))));
    assert!(matches!(values.find_attr_value("sum"), Some(Value::Int(9))));
}

#[test]
fn dangling_references_are_reset() {
    let mut g = NodeGraph::new();
    g.add_node(1, "a".to_string(), attr("a", Value::Reference(500)), 7);
    g.add_node(2, "b".to_string(), attr("b", Value::Reference(7)), 8);
    g.reset_dangling();
    assert!(matches!(g.find_node(1).unwrap().attribute.value, Value::Empty));
    assert!(matches!(g.find_node(2).unwrap().attribute.value, Value::Reference(7)));
}
