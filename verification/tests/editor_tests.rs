use lifec::appendix::{Appendix, State};
use lifec::attributes::{Attribute, AttributeGraph, Value};
use lifec::controls::{event_controls, CommandDispatcher, Node};
use lifec::dispatch::{fix_is_auto, fix_sequence, plan_dispatch, DispatchPlan};
use lifec::editor::{
    titled, unique_title, Call, Exit, Fix, Interpret, Interpreter, NextButton, ProgressStatusBar, Sequencer, Shell,
    Start, StartButton, Task, Timer,
};
use lifec::engine::Sequence;
use lifec::entity::Entity;
use lifec::event::EventGraph;
use lifec::event_editor::{EventEditor, SyncAction};
use lifec::file_editor::{file_name_in, FileEditor, FileEntry, FileEntryRuntimeError};
use lifec::host::{HostEditor, PauseAction, Tool};
use lifec::node::{EventStatus, NodeCommand, NodeStatus};
use lifec::text::{drop_first_line, strip_prefix};

fn e(index: u32) -> Entity {
    Entity::new(index, 0)
}

fn is_title(s: &str, prefix: &str) -> bool {
    match s.strip_prefix(prefix) {
        Some(rest) => {
            let hex = &rest[2..];
            rest.starts_with("0x") && hex.len() >= 2 && hex.len() <= 4 && u16::from_str_radix(hex, 16).is_ok()
        }
        None => false,
    }
}

#[test]
fn titles_are_suffixed_like_format() {
    for n in [0u16, 5, 15, 16, 255, 256, 4096, 65535] {
        assert_eq!(titled("Event", n), format!("Event_{:#04x}", n));
    }
    assert_eq!(titled("x", 10), "x_0x0a");
}

#[test]
fn unique_titles_carry_a_number() {
    let t = unique_title("Event Editor");
    assert!(is_title(&t, "Event Editor_"), "{t}");
}

#[test]
fn event_kind_names() {
    assert_eq!(Start::event_name(), "start");
    assert_eq!(Call::event_name(), "call");
    assert_eq!(Exit::event_symbol(), "exit");
    assert_eq!(Fix::event_symbol(), "fix");
    assert_eq!(Shell::name(), "shell");
    assert_eq!(Timer::symbol(), "timer");
    let _ = FileEntryRuntimeError {};
}

#[test]
fn timer_waits_five_seconds_unless_told() {
    let mut g = AttributeGraph::new(0);
    assert_eq!(Timer::duration(&g), 5);
    g.with("duration".to_string(), Value::Int(12));
    assert_eq!(Timer::duration(&g), 12);
    g.with("duration".to_string(), Value::TextBuffer("12".to_string()));
    assert_eq!(Timer::duration(&g), 5);
}

#[test]
fn call_fires_once_per_press() {
    let mut b = StartButton::default();
    b.press();
    assert_eq!(b.pressed, None);
    let mut ctx = AttributeGraph::new(0);
    Call::report(&mut b, false, &ctx, "call".to_string(), e(3));
    assert_eq!(b.caller, Some(e(3)));
    assert_eq!(b.status, "");
    b.press();
    assert!(Call::take_press(&mut b));
    assert!(!Call::take_press(&mut b));
    Call::report(&mut b, true, &ctx, "call".to_string(), e(3));
    assert_eq!(b.status, "Running");
    ctx.with("elapsed".to_string(), Value::TextBuffer("1.5s".to_string()));
    Call::report(&mut b, false, &ctx, "call".to_string(), e(3));
    assert_eq!(b.status, "Completed, elapsed: 1.5s");
    assert_eq!(b.button_text(), Some("call 3".to_string()));
}

#[test]
fn start_always_reports() {
    let mut b = StartButton::default();
    let ctx = AttributeGraph::new(0);
    assert!(!Start::take_press(&mut b));
    Start::report(&mut b, false, &ctx, "start".to_string(), e(1));
    assert_eq!(b.status, "Completed");
}

#[test]
fn sequencer_adds_a_next_button_once() {
    let start = StartButton { pressed: Some(false), status: "s".to_string(), label: "l".to_string(), caller: Some(e(2)) };
    let next: NextButton = Sequencer::next_button_for(Some(&start), false).unwrap();
    assert_eq!(next.owner.label, "l");
    assert!(next.auto.is_none() && next.next.is_none());
    assert!(Sequencer::next_button_for(Some(&start), true).is_none());
    assert!(Sequencer::next_button_for(None, false).is_none());
}

#[test]
fn progress_bar_logs_updates() {
    let mut bar = ProgressStatusBar::first(0, "0123456789".to_string());
    for i in 0..12 {
        bar.apply_update(i, "0123456789".to_string());
    }
    assert_eq!(bar.status, "0123456789");
    assert_eq!(bar.progress, 11);
    assert_eq!(bar.log.lines().count(), 12);
    // the shown log drops its first line once it is longer than 10 lines of the status's length
    assert!(bar.log_display.lines().count() < 12);
    assert!(bar.log_display.ends_with("0123456789\n"));
}

#[test]
fn progress_bar_round_trips_through_attributes() {
    let bar = ProgressStatusBar {
        progress: 0.5f32.to_bits(),
        status: "half".to_string(),
        log_display: "a\nb\n".to_string(),
        log: "héllo\n".to_string(),
    };
    let g = bar.to_graph();
    let back = ProgressStatusBar::from_graph(&g);
    assert_eq!(f32::from_bits(back.progress), 0.5);
    assert_eq!(back.status, "half");
    assert_eq!(back.log_display, "a\nb\n");
    assert_eq!(back.log, "héllo\n");
    let mut broken = AttributeGraph::new(0);
    broken.with("history.log".to_string(), Value::BinaryVector(vec![0xff, 0xfe]));
    let empty = ProgressStatusBar::from_graph(&broken);
    assert_eq!(empty.log, "");
    assert_eq!(empty.progress, 0);
}

#[test]
fn tasks_copy_what_their_entity_has() {
    let mut task = Task::default();
    let start = StartButton { pressed: None, status: String::new(), label: "x".to_string(), caller: None };
    let mut seq = Sequence::new();
    seq.add(e(4));
    task.sync(Some(&start), None, Some(&seq));
    assert_eq!(task.start_button.as_ref().unwrap().label, "x");
    assert!(task.progress.is_none());
    task.sync(None, Some(&ProgressStatusBar::first(1, "p".to_string())), None);
    assert_eq!(task.start_button.as_ref().unwrap().label, "x");
    assert_eq!(task.progress.as_ref().unwrap().status, "p");
    task.disable();
    assert!(task.disabled);
}

#[test]
fn text_helpers() {
    assert_eq!(strip_prefix("file::name::a.txt", "file::name::"), Some("a.txt".to_string()));
    assert_eq!(strip_prefix("file::a.txt", "file::name::"), None);
    assert_eq!(drop_first_line("one\ntwo\nthree"), "two\nthree");
    assert_eq!(drop_first_line("single"), "single");
}

#[test]
fn file_editor_follows_sections() {
    let mut fe = FileEditor::new();
    let mut attrs = AttributeGraph::new(1);
    attrs.with("file::name::first.txt".to_string(), Value::Empty);
    attrs.with("file::other".to_string(), Value::Empty);
    attrs.with("file::name::second.txt".to_string(), Value::Empty);
    assert_eq!(file_name_in(&attrs), Some("second.txt".to_string()));
    fe.update(1, &attrs);
    assert!(fe.files().is_empty());
    attrs.with("enable file editor".to_string(), Value::Bool(true));
    fe.update(1, &attrs);
    assert_eq!(fe.files().len(), 1);
    assert_eq!(fe.files()[0].0, 1);
    assert_eq!(fe.files()[0].1.describe(), "file_name: second.txt");
    attrs.with("enable file editor".to_string(), Value::Bool(false));
    fe.update(1, &attrs);
    assert!(fe.files().is_empty());
    let entry = FileEntry { file_name: "z".to_string() };
    assert_eq!(entry.describe(), "file_name: z");
}

#[test]
fn event_editor_loads_and_saves_graphs() {
    let mut editor = EventEditor::new();
    assert!(is_title(editor.title(), "Event Editor_"));
    let mut stored = EventGraph::new();
    stored.add_event(lifec::event::EventComponent::new("a", "b"));
    assert!(matches!(editor.sync(3, Some(true), None), SyncAction::NotFound));
    assert!(matches!(editor.sync(3, Some(true), Some(&stored)), SyncAction::Loaded));
    assert!(matches!(editor.sync(3, Some(true), Some(&stored)), SyncAction::Nothing));
    assert!(editor.add_event(3));
    assert!(!editor.add_event(4));
    match editor.sync(3, Some(false), None) {
        SyncAction::Save(g) => {
            assert_eq!(g.events().len(), 2);
            assert!(is_title(&g.events()[1].label, "Event_"));
            assert_eq!(g.events()[1].on, "{ new_event;; }");
        }
        _ => panic!("expected a save"),
    }
    assert!(editor.graphs().is_empty());
    assert!(matches!(editor.sync(3, None, None), SyncAction::Nothing));
    editor.refresh();
}

#[test]
fn event_controls_by_status() {
    let labels = |s: EventStatus| -> Vec<String> { event_controls(s).into_iter().map(|c| c.label).collect() };
    assert_eq!(labels(EventStatus::Inactive(e(4))), vec!["Start 4", "Pause 4"]);
    assert_eq!(labels(EventStatus::Paused(e(4))), vec!["Resume 4", "Cancel 4"]);
    assert_eq!(labels(EventStatus::InProgress(e(4))), vec!["Pause 4", "Cancel 4"]);
    assert_eq!(labels(EventStatus::Completed(e(4))), vec!["Reset 4"]);
    assert!(labels(EventStatus::Scheduled(e(4))).is_empty());
    // a paused event's cancel button pauses it
    let paused = event_controls(EventStatus::Paused(e(4)));
    assert!(matches!(paused[1].command, NodeCommand::Cancel(x) if x == e(4)));
}

#[test]
fn nodes_dispatch_commands_and_record_edits() {
    let mut appendix = Appendix::new();
    appendix.insert_state(e(1), State { control_symbol: "eng".to_string(), graph: None });
    let mut node = Node::new(NodeStatus::Event(EventStatus::Inactive(e(1))), appendix);
    assert_eq!(node.control_symbol(), "eng");
    let controls = event_controls(EventStatus::Inactive(e(1)));
    node.press(&controls[0]);
    assert!(matches!(node.command, Some(NodeCommand::Activate(x)) if x == e(1)));
    node.cancel(e(1));
    assert!(matches!(node.command, Some(NodeCommand::Cancel(_))));
    node.custom("go", e(1));
    assert_eq!(node.command.as_ref().unwrap().describe(), "custom.go 1");
    let mut g = AttributeGraph::new(5);
    g.with("k".to_string(), Value::Int(1));
    node.record_edit(e(5), g);
    node.record_edit(e(5), AttributeGraph::new(5));
    assert_eq!(node.mutations.len(), 1);
    assert!(matches!(node.take_command(), Some(NodeCommand::Update(_))));
    assert!(node.take_command().is_none());
    assert_eq!(node.take_mutations().len(), 1);
    let empty = Node::new(NodeStatus::Empty, Appendix::new());
    assert_eq!(empty.control_symbol(), "");
}

#[test]
fn host_editor_plans_runtime_commands() {
    let mut host = HostEditor::new();
    assert_eq!(host.tools(), vec![Tool::Pause, Tool::ResetAll]);
    host.observe(false, true);
    assert!(host.is_paused() && host.is_stopped());
    assert_eq!(host.tools(), vec![Tool::Tick, Tool::Resume, Tool::ResetAll]);
    host.use_tool(Tool::Resume);
    host.use_tool(Tool::Tick);
    assert!(host.take_tick());
    assert!(!host.take_tick());
    assert_eq!(host.take_pause(false), Some(PauseAction::Resume));
    assert_eq!(host.take_pause(true), None);
    host.pause_events();
    assert_eq!(host.take_pause(true), Some(PauseAction::Pause));
    host.reset_events();
    assert!(host.take_reset());
}

#[test]
fn host_editor_hands_edits_back_to_fresh_nodes() {
    let mut appendix = Appendix::new();
    appendix.insert_state(e(1), State { control_symbol: "b".to_string(), graph: None });
    appendix.insert_state(e(2), State { control_symbol: "a".to_string(), graph: None });
    let mut host = HostEditor::new();
    let mut n1 = Node::new(NodeStatus::Event(EventStatus::Inactive(e(1))), appendix.clone());
    n1.record_edit(e(9), AttributeGraph::new(9));
    let mut n2 = Node::new(NodeStatus::Event(EventStatus::Paused(e(2))), appendix.clone());
    n2.resume(e(2));
    host.refresh(vec![n1, n2], vec![], vec![]);
    let (commands, edits) = host.drain_nodes();
    assert_eq!(commands.len(), 2);
    assert_eq!(commands[0].describe(), "update 9");
    assert_eq!(commands[1].describe(), "resume 2");
    assert_eq!(edits.len(), 1);
    assert_eq!(edits[0].0, e(1));
    assert!(host.nodes().is_empty());
    let fresh1 = Node::new(NodeStatus::Event(EventStatus::InProgress(e(1))), appendix.clone());
    let fresh2 = Node::new(NodeStatus::Event(EventStatus::Paused(e(2))), appendix.clone());
    let adhoc = Node::new(NodeStatus::Profiler(e(7)), Appendix::new());
    host.refresh(vec![fresh1, fresh2], edits, vec![adhoc]);
    assert_eq!(host.nodes().len(), 2);
    assert_eq!(host.nodes()[0].mutations.len(), 1);
    assert!(host.nodes()[1].mutations.is_empty());
    assert_eq!(host.adhoc_nodes().len(), 1);
    let groups = host.event_groups();
    assert_eq!(groups, vec![("a".to_string(), vec![1]), ("b".to_string(), vec![0])]);
}

#[test]
fn adhoc_nodes_are_listed_together() {
    let mut host = HostEditor::new();
    let a = Node::new(NodeStatus::Profiler(e(1)), Appendix::new());
    let b = Node::new(NodeStatus::Custom(e(2)), Appendix::new());
    host.refresh(vec![a, b], vec![], vec![]);
    assert_eq!(host.event_groups(), vec![("Adhoc Operations".to_string(), vec![0, 1])]);
    let taken = host.take_nodes();
    assert_eq!(taken.len(), 2);
    assert!(host.nodes().is_empty());
}

#[test]
fn dispatch_plans() {
    let mut config = AttributeGraph::new(0);
    assert!(matches!(plan_dispatch(&config, false), DispatchPlan::Ignore));
    assert!(matches!(plan_dispatch(&config, true), DispatchPlan::Create { connect: false, auto: false }));
    config.with("auto".to_string(), Value::Bool(true));
    config.with("enable_connection".to_string(), Value::Bool(true));
    assert!(matches!(plan_dispatch(&config, true), DispatchPlan::Create { connect: true, auto: true }));
    assert!(fix_is_auto(&config));
    config.with("project_src".to_string(), Value::TextBuffer("p.runmd".to_string()));
    assert!(matches!(plan_dispatch(&config, true), DispatchPlan::LoadProject(s) if s == "p.runmd"));
    let s = fix_sequence(e(3));
    assert!(s.events().is_empty());
    assert_eq!(s.cursor(), &vec![e(3)]);
}

struct Doubler(i32);

impl Interpreter for Doubler {
    fn interpret(&self) -> Option<AttributeGraph> {
        let mut g = AttributeGraph::new(0);
        g.with("double".to_string(), Value::Int(self.0 * 2));
        Some(g)
    }
}

#[test]
fn interpret_needs_an_interpreter() {
    let none: Interpret<Doubler> = Interpret { interpreter: None };
    assert!(none.interpret().is_none());
    let some = Interpret { interpreter: Some(Doubler(4)) };
    let g = some.interpret().unwrap();
    assert!(matches!(g.find_attr_value("double"), Some(Value::Int(8))));
    assert_eq!(Interpret::<Doubler>::event_name(), "interpret");
    let _unused: Attribute = Attribute::new(0, "x".to_string(), Value::Empty);
}

#[test]
fn event_templates_configure_new_events() {
    let mut g = lifec::attributes::AttributeGraph::new(5);
    let name = lifec::editor::event_template(lifec::editor::EventKind::Timer, "timer", 0x2a, &mut g);
    assert_eq!(name, "new_timer_0x2a");
    assert_eq!(g.find_text("node_title"), Some("new_timer_0x2a".to_string()));
    assert_eq!(g.find_text("thunk_symbol"), Some("timer".to_string()));
    assert_eq!(g.is_enabled("default_open"), Some(true));
    assert!(matches!(g.find_attr_value("duration"), Some(lifec::attributes::Value::Int(0))));
    let mut h = lifec::attributes::AttributeGraph::new(6);
    let name = lifec::editor::event_template(lifec::editor::EventKind::OpenDir, "open_dir", 3, &mut h);
    assert_eq!(name, "new_open_dir_0x03");
    assert_eq!(h.find_text("file_dir"), Some(String::new()));
    let mut k = lifec::attributes::AttributeGraph::new(7);
    let name = lifec::editor::new_event_template(lifec::editor::EventKind::Process, "process", &mut k);
    assert!(name.starts_with("new_process_0x"));
    assert_eq!(k.find_text("command"), Some(String::new()));
}
