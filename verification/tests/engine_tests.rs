use lifec::engine::{BlockList, BlockStep, Engine, EngineAttribute, EngineError, Lifecycle, Limit, Sequence, Transition};
use lifec::entity::Entity;
use lifec::text::{parse_idents, parse_usize};

fn e(index: u32) -> Entity {
    Entity::new(index, 0)
}

fn names(engine: &Engine) -> Vec<(Transition, Vec<String>)> {
    engine.iter_transitions().clone()
}

#[test]
fn transitions_are_added_in_order() {
    let mut engine = Engine::new(e(1));
    assert_eq!(engine.apply_named("once", "setup"), Ok(()));
    assert_eq!(engine.apply_named("start", "a, b  c"), Ok(()));
    assert_eq!(
        names(&engine),
        vec![
            (Transition::Once, vec!["setup".to_string()]),
            (Transition::Start, vec!["a".to_string(), "b".to_string(), "c".to_string()]),
        ]
    );
    assert_eq!(engine.start(), Some(e(1)));
    assert_eq!(engine.lifecycle_action(), None);
}

#[test]
fn transitions_stop_once_a_lifecycle_is_set() {
    let mut engine = Engine::empty();
    engine.apply(EngineAttribute::Loop, "").unwrap();
    engine.apply(EngineAttribute::Start, "late").unwrap();
    assert!(engine.iter_transitions().is_empty());
    assert_eq!(engine.lifecycle_action(), Some(Lifecycle::Loop));
}

#[test]
fn repeat_sets_the_limit() {
    let mut engine = Engine::empty();
    assert_eq!(engine.apply_named("repeat", "5"), Ok(()));
    assert_eq!(engine.limit(), Some(Limit(5)));
    assert_eq!(engine.lifecycle_action(), Some(Lifecycle::Repeat(5)));
}

#[test]
fn bad_repeat_is_refused_and_engine_kept() {
    let mut engine = Engine::empty();
    engine.apply_named("once", "a").unwrap();
    assert_eq!(engine.apply_named("repeat", "five"), Err(EngineError::InvalidRepeatCount));
    assert_eq!(engine.apply_named("repeat", "-1"), Err(EngineError::InvalidRepeatCount));
    assert_eq!(engine.limit(), None);
    assert_eq!(engine.lifecycle_action(), None);
    assert_eq!(engine.iter_transitions().len(), 1);
}

#[test]
fn repeat_without_count_repeats_forever() {
    let mut engine = Engine::empty();
    assert_eq!(engine.apply_named("repeat", ""), Ok(()));
    assert_eq!(engine.lifecycle_action(), Some(Lifecycle::Loop));
    assert_eq!(engine.limit(), None);
    let blocks = BlockList::new();
    assert_eq!(engine.interpret(e(3), "s", &blocks).sequence.cursor(), &vec![e(3)]);
}

#[test]
fn unknown_attribute_is_refused() {
    let mut engine = Engine::empty();
    assert_eq!(engine.apply_named("jump", "x"), Err(EngineError::UnknownAttribute));
    assert_eq!(EngineAttribute::named("fork"), Some(EngineAttribute::Fork));
    assert_eq!(EngineAttribute::named("Fork"), None);
}

#[test]
fn parse_usize_follows_from_str() {
    assert_eq!(parse_usize("0"), Some(0));
    assert_eq!(parse_usize("+42"), Some(42));
    assert_eq!(parse_usize("007"), Some(7));
    assert_eq!(parse_usize(""), None);
    assert_eq!(parse_usize("+"), None);
    assert_eq!(parse_usize("4 2"), None);
    assert_eq!(parse_usize("18446744073709551616"), "18446744073709551616".parse::<usize>().ok());
    assert_eq!(parse_usize("12"), "12".parse::<usize>().ok());
}

#[test]
fn idents_split_on_spaces_and_commas() {
    assert_eq!(parse_idents(" a,b ,, c\td\n"), vec!["a", "b", "c", "d"]);
    assert!(parse_idents("  , ").is_empty());
}

#[test]
fn block_list_finds_by_name() {
    let mut blocks = BlockList::new();
    blocks.insert("a start".to_string(), e(2));
    blocks.insert("b start".to_string(), e(3));
    blocks.insert("a start".to_string(), e(4));
    assert_eq!(blocks.find("a start"), Some(e(4)));
    assert_eq!(blocks.find("b start"), Some(e(3)));
    assert_eq!(blocks.find("c start"), None);
    assert_eq!(Engine::find_block(&blocks, "b start"), Some(e(3)));
}

#[test]
fn control_block_assigns_events_and_start() {
    let mut blocks = BlockList::new();
    blocks.insert("setup demo".to_string(), e(10));
    blocks.insert("run demo".to_string(), e(11));
    blocks.insert("other".to_string(), e(20));
    let mut engine = Engine::empty();
    engine.apply_named("once", "setup").unwrap();
    engine.apply_named("start", "missing run").unwrap();
    engine.apply_named("next", "other").unwrap();
    let plan = engine.interpret(e(1), "demo", &blocks);
    assert_eq!(plan.sequence.events(), &vec![e(10), e(11)]);
    assert_eq!(plan.assignments, vec![(e(10), Transition::Once), (e(11), Transition::Start)]);
    assert_eq!(plan.sequence.cursor(), &vec![e(20)]);
    assert_eq!(engine.start(), Some(e(10)));
}

#[test]
fn fork_continues_to_every_engine_found() {
    let mut blocks = BlockList::new();
    blocks.insert("x".to_string(), e(5));
    blocks.insert("y".to_string(), e(6));
    let mut engine = Engine::new(e(9));
    engine.apply_named("fork", "x, nope, y").unwrap();
    let plan = engine.interpret(e(1), "demo", &blocks);
    assert_eq!(plan.sequence.cursor(), &vec![e(5), e(6)]);
    assert!(plan.sequence.events().is_empty());
    assert_eq!(engine.start(), Some(e(9)));
}

#[test]
fn loop_and_repeat_continue_to_the_block() {
    let blocks = BlockList::new();
    let mut looping = Engine::empty();
    looping.apply_named("loop", "").unwrap();
    assert_eq!(looping.interpret(e(7), "s", &blocks).sequence.cursor(), &vec![e(7)]);
    let mut repeating = Engine::empty();
    repeating.apply_named("repeat", "3").unwrap();
    assert_eq!(repeating.interpret(e(8), "s", &blocks).sequence.cursor(), &vec![e(8)]);
    let mut exiting = Engine::empty();
    exiting.apply_named("exit", "").unwrap();
    assert!(exiting.interpret(e(9), "s", &blocks).sequence.cursor().is_empty());
}

#[test]
fn sequence_keeps_order() {
    let mut s = Sequence::new();
    s.add(e(1));
    s.add(e(2));
    s.set_cursor(e(3));
    let copy = s.duplicate();
    assert_eq!(copy.events(), &vec![e(1), e(2)]);
    assert_eq!(copy.cursor(), &vec![e(3)]);
}

#[test]
fn test_engine() {
    // The engine of block `test` lists the events `step_one` and `step_two`;
    // interpreting its control block gives a sequence in which each event has
    // been added, with its transition.
    let mut blocks = BlockList::new();
    blocks.insert("test".to_string(), e(1));
    blocks.insert("step_one test".to_string(), e(2));
    blocks.insert("step_two test".to_string(), e(6));
    let mut engine = Engine::empty();
    engine.apply_named("event", "step_one").unwrap();
    engine.apply_named("event", "step_two").unwrap();
    let plan = engine.interpret(e(1), "test", &blocks);
    assert_eq!(plan.sequence.events(), &vec![e(2), e(6)]);
    for event in plan.sequence.events() {
        assert!(plan.assignments.iter().any(|(a, _)| a == event), "should have been added");
    }
    assert_eq!(engine.start(), Some(e(2)));
}

#[test]
fn root_block_is_skipped_and_others_interpreted() {
    let mut blocks = BlockList::new();
    blocks.insert("run demo".to_string(), e(11));
    let mut engine = Engine::empty();
    engine.apply_named("start", "run").unwrap();
    assert!(matches!(engine.interpret_block(e(0), "", "", &blocks), BlockStep::Root));
    assert_eq!(engine.start(), None);
    match engine.interpret_block(e(11), "run", "demo", &blocks) {
        BlockStep::Event(name) => assert_eq!(name, "run"),
        _ => panic!("expected an event block"),
    }
    assert_eq!(engine.start(), None);
    match engine.interpret_block(e(1), "", "demo", &blocks) {
        BlockStep::Control(plan) => assert_eq!(plan.sequence.events(), &vec![e(11)]),
        _ => panic!("expected a control block"),
    }
    assert_eq!(engine.start(), Some(e(11)));
}

#[test]
fn event_with_a_symbol_links_another_namespace() {
    let mut blocks = BlockList::new();
    blocks.insert("setup demo".to_string(), e(10));
    blocks.insert("install other".to_string(), e(12));
    let mut engine = Engine::empty();
    engine.apply_named("event", "setup").unwrap();
    engine.apply_named("event", "install other").unwrap();
    let plan = engine.interpret(e(1), "demo", &blocks);
    assert_eq!(plan.sequence.events(), &vec![e(10), e(12)]);
    assert_eq!(plan.assignments, vec![(e(10), Transition::Start), (e(12), Transition::Start)]);
}
