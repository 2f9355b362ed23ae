use lifec::appendix::{Appendix, General, State};
use lifec::attributes::Value;
use lifec::debugger::{last_progress, log_text, shown_message, Completion, Debugger, ErrorContext, Properties, PropertyValue, StatusUpdate};
use lifec::entity::Entity;
use lifec::wire::{Ident, Keyword, Word};

fn e(index: u32) -> Entity {
    Entity::new(index, 0)
}

fn update(entity: Entity, n: u32) -> StatusUpdate {
    StatusUpdate { entity, progress: n, message: format!("step {n}") }
}

fn completion(timestamp: i64, event: Entity, thunk: Entity) -> Completion {
    Completion {
        timestamp,
        event,
        thunk,
        control_values: vec![("mode".to_string(), Value::Symbol("fast".to_string()))],
        query: Properties {
            name: "query".to_string(),
            entries: vec![
                ("path".to_string(), PropertyValue::Single(Value::TextBuffer("/tmp".to_string()))),
                ("ids".to_string(), PropertyValue::List(vec![Value::Int(1), Value::Int(2), Value::Int(3)])),
            ],
        },
        returns: Some(Properties {
            name: "returns".to_string(),
            entries: vec![("ok".to_string(), PropertyValue::Single(Value::Bool(true)))],
        }),
    }
}

fn appendix() -> Appendix {
    let mut a = Appendix::new();
    a.insert_general(e(1), General { name: "first".to_string() });
    a.insert_general(e(2), General { name: "plugin".to_string() });
    a.insert_state(e(1), State { control_symbol: "engine_a".to_string(), graph: None });
    a
}

#[test]
fn status_log_keeps_the_newest_updates() {
    let mut d = Debugger::new(Appendix::new());
    for n in 0..15 {
        d.on_status_update(update(e(3), n));
    }
    let log = d.status_log(e(3)).unwrap();
    // a log keeps ten updates: when it is full, its oldest goes
    assert_eq!(log.len(), 10);
    assert_eq!(log[0].progress, 5);
    assert_eq!(log[9].progress, 14);
    assert!(d.status_log(e(4)).is_none());
}

#[test]
fn status_logs_are_kept_in_entity_order() {
    let mut d = Debugger::new(Appendix::new());
    d.on_status_update(update(e(9), 1));
    d.on_status_update(update(e(2), 2));
    d.on_status_update(update(Entity::new(2, -1), 3));
    d.on_status_update(update(e(5), 4));
    let keys: Vec<Entity> = d.status_logs().iter().map(|(k, _)| *k).collect();
    assert_eq!(keys, vec![Entity::new(2, -1), e(2), e(5), e(9)]);
}

#[test]
fn completions_keep_the_newest() {
    let mut d = Debugger::new(Appendix::new());
    for t in 0..1005 {
        d.on_completion(completion(t, e(1), e(2)));
    }
    assert_eq!(d.completions().len(), 1000);
    assert_eq!(d.completions()[0].timestamp, 5);
    assert_eq!(d.completions()[999].timestamp, 1004);
}

#[test]
fn errors_are_recorded_and_update_flag_taken_once() {
    let mut d = Debugger::new(Appendix::new());
    assert_eq!(d.take_update(), None);
    d.on_error_context(ErrorContext { entity: e(1), message: "boom".to_string() });
    assert_eq!(d.errors().len(), 1);
    assert_eq!(d.take_update(), Some(()));
    assert_eq!(d.take_update(), None);
}

#[test]
fn completions_grouped_by_control_symbol() {
    let mut d = Debugger::new(appendix());
    d.on_completion(completion(1, e(1), e(2)));
    d.on_completion(completion(2, e(7), e(2)));
    let mut by_id = completion(3, e(8), e(2));
    by_id.query.entries.push(("event_id".to_string(), PropertyValue::Single(Value::Int(2))));
    d.on_completion(by_id);
    d.on_completion(completion(4, e(1), e(2)));
    let groups = d.completion_groups();
    assert_eq!(
        groups,
        vec![
            ("".to_string(), vec![1]),
            ("engine_a".to_string(), vec![0, 3]),
            ("plugin".to_string(), vec![2]),
        ]
    );
}

#[test]
fn logs_grouped_by_control_symbol() {
    let mut d = Debugger::new(appendix());
    d.on_status_update(update(e(1), 1));
    d.on_status_update(update(e(6), 1));
    let groups = d.log_groups();
    assert_eq!(groups, vec![("".to_string(), vec![e(6)]), ("engine_a".to_string(), vec![e(1)])]);
}

#[test]
fn property_int_reads_single_integers() {
    let p = Properties {
        name: "q".to_string(),
        entries: vec![
            ("n".to_string(), PropertyValue::Single(Value::Int(5))),
            ("t".to_string(), PropertyValue::Single(Value::TextBuffer("x".to_string()))),
            ("n".to_string(), PropertyValue::Single(Value::Int(9))),
        ],
    };
    assert_eq!(p.property_int("n"), Some(5));
    assert_eq!(p.property_int("t"), None);
    assert_eq!(p.property_int("m"), None);
}

#[test]
fn debugger_frames_start_with_each_completion() {
    let mut d = Debugger::new(appendix());
    d.on_completion(completion(0x1_0000_0002, e(1), e(2)));
    let frames = d.encode();
    assert_eq!(frames[0].keyword, Keyword::Extension);
    assert_eq!(frames[0].name.word(), Some(Word::Debugger));
    // the timestamp is sent as its low and high halves
    assert_eq!(frames[1].name.word(), Some(Word::Timestamp));
    assert!(matches!(frames[1].value, Some(Value::IntPair(2, 1))));
    // the event by its control symbol, the plugin by its name
    assert!(matches!(&frames[2].value, Some(Value::Symbol(s)) if s == "engine_a"));
    assert!(matches!(&frames[3].value, Some(Value::Symbol(s)) if s == "plugin"));
    // control values, the query with one frame per listed value, the returns
    assert!(matches!(&frames[4].symbol, Some(Ident::Word(Word::ControlValues))));
    assert!(matches!(&frames[6].symbol, Some(Ident::Word(Word::Query))));
    assert_eq!(frames.len(), 4 + 2 + 1 + 4 + 1 + 1);
    let index = Debugger::build_index(&frames);
    assert_eq!(index.len(), 1);
    assert_eq!((index[0].key.as_str(), index[0].start, index[0].end), ("", 0, frames.len()));
}

#[test]
fn debugger_round_trips_through_frames() {
    let mut d = Debugger::new(appendix());
    d.on_completion(completion(-5, e(1), e(2)));
    d.on_completion(completion(i64::MAX, e(7), e(2)));
    let mut no_returns = completion(12, e(1), e(3));
    no_returns.returns = None;
    no_returns.control_values.clear();
    d.on_completion(no_returns);
    for n in 0..4 {
        d.on_status_update(update(e(1), n));
        d.on_status_update(update(e(6), 10 + n));
    }
    let frames = d.encode();
    let back = Debugger::decode(&frames);
    assert_eq!(back.completions().len(), 3);
    for (a, b) in d.completions().iter().zip(back.completions().iter()) {
        assert_eq!(format!("{:?}", a), format!("{:?}", b));
    }
    for entity in [e(1), e(6)] {
        let x = d.status_log(entity).unwrap();
        let y = back.status_log(entity).unwrap();
        assert_eq!(format!("{:?}", x), format!("{:?}", y));
    }
    // the appendix read back names each event by its control symbol, each plugin by its name
    assert_eq!(back.appendix().name(e(1)).map(|s| s.as_str()), Some("engine_a"));
    assert_eq!(back.appendix().name(e(7)).map(|s| s.as_str()), Some(""));
    assert_eq!(back.appendix().name(e(2)).map(|s| s.as_str()), Some("plugin"));
}

#[test]
fn propagating_takes_the_update() {
    let mut d = Debugger::new(appendix());
    d.on_status_update(update(e(1), 1));
    let (frames, updated) = d.propagate_update();
    assert_eq!(updated, Some(()));
    assert_eq!(frames.len(), 3);
    let (_, again) = d.propagate_update();
    assert_eq!(again, None);
}

#[test]
fn log_display_helpers() {
    let log = vec![update(e(1), 1), update(e(1), 7)];
    assert_eq!(log_text(&log), "step 1\nstep 7");
    assert_eq!(log_text(&vec![]), "");
    assert_eq!(last_progress(&log), 7);
    assert_eq!(last_progress(&vec![]), 0);
    assert_eq!(shown_message("1:1:done"), (true, "done".to_string()));
    assert_eq!(shown_message("1:"), (true, "".to_string()));
    assert_eq!(shown_message("2:x"), (false, "2:x".to_string()));
    assert_eq!(shown_message("1:x").1, "1:x".trim_start_matches("1:"));
}

#[test]
fn completion_labels() {
    let d = Debugger::new(appendix());
    assert_eq!(d.completion_label(&completion(-12, e(1), e(2))), "-12 Completion engine_a first.plugin");
    assert_eq!(d.completion_label(&completion(i64::MIN, e(5), e(6))), format!("{} Completion  .", i64::MIN));
    assert_eq!(d.completion_label(&completion(0, e(5), e(2))), "0 Completion  .plugin");
}
