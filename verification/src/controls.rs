use vstd::prelude::*;
use crate::entity::Entity;
use crate::attributes::{AttributeGraph, GraphView};
use crate::appendix::{Appendix, AppendixView};
use crate::keyed::{key_lookup, key_upsert, key_position, has_key, first_key, lemma_key_position};
use crate::node::{EventStatus, NodeCommand, NodeCommandView, NodeStatus};
use crate::text::{decimal, push_decimal};

verus! {

/// Struct for visualizing and commanding node-like entities.
pub struct Node {
    /// Status of the current node,
    pub status: NodeStatus,
    /// Appendix to look up descriptions for related entities,
    pub appendix: Appendix,
    /// Command for this node, waiting to be dispatched,
    pub command: Option<NodeCommand>,
    /// Edited state of the node's thunks, by entity,
    pub mutations: Vec<(Entity, AttributeGraph)>,
}

pub struct NodeView {
    pub status: NodeStatus,
    pub appendix: AppendixView,
    pub command: Option<NodeCommandView>,
    pub mutations: Seq<(Entity, GraphView)>,
}

pub open spec fn mutations_view(m: Seq<(Entity, AttributeGraph)>) -> Seq<(Entity, GraphView)> {
    m.map_values(|p: (Entity, AttributeGraph)| (p.0, p.1@))
}

pub open spec fn opt_command_view(c: Option<NodeCommand>) -> Option<NodeCommandView> {
    match c {
        Some(c) => Some(c@),
        None => None,
    }
}

impl View for Node {
    type V = NodeView;

    open spec fn view(&self) -> NodeView {
        NodeView {
            status: self.status,
            appendix: self.appendix@,
            command: opt_command_view(self.command),
            mutations: mutations_view(self.mutations@),
        }
    }
}

/// The control symbol of the engine a node belongs to: the one the appendix
/// records for the node's entity, empty when there is none.
pub open spec fn node_control_symbol(n: NodeView) -> Seq<char> {
    if n.status is Empty {
        Seq::empty()
    } else {
        match key_lookup(n.appendix.state, n.status.spec_entity()) {
            Some(s) => s.control_symbol,
            None => Seq::empty(),
        }
    }
}

/// Dispatches commands for a node.
pub trait CommandDispatcher {
    /// Dispatch a command to activate an entity,
    fn activate(&mut self, entity: Entity);
    /// Dispatch a command to pause an entity,
    fn pause(&mut self, entity: Entity);
    /// Dispatch a command to reset an entity,
    fn reset(&mut self, entity: Entity);
    /// Dispatch a command to resume an entity,
    fn resume(&mut self, entity: Entity);
    /// Dispatch a command to cancel an entity,
    fn cancel(&mut self, entity: Entity);
    /// Dispatch a command to spawn an entity,
    fn spawn(&mut self, entity: Entity);
    /// Dispatch a command to update a graph,
    fn update(&mut self, graph: AttributeGraph);
    /// Dispatch a custom command,
    fn custom(&mut self, name: &str, entity: Entity);
}

/// A node after a command was dispatched: only the pending command changes.
pub open spec fn dispatched(old: NodeView, c: NodeCommandView) -> NodeView {
    NodeView { command: Some(c), ..old }
}

impl CommandDispatcher for Node {
    fn activate(&mut self, entity: Entity)
        ensures
            final(self)@ == dispatched(old(self)@, NodeCommandView::Activate(entity)),
    {
        self.command = Some(NodeCommand::Activate(entity));
    }

    fn pause(&mut self, entity: Entity)
        ensures
            final(self)@ == dispatched(old(self)@, NodeCommandView::Pause(entity)),
    {
        self.command = Some(NodeCommand::Pause(entity));
    }

    fn reset(&mut self, entity: Entity)
        ensures
            final(self)@ == dispatched(old(self)@, NodeCommandView::Reset(entity)),
    {
        self.command = Some(NodeCommand::Reset(entity));
    }

    fn resume(&mut self, entity: Entity)
        ensures
            final(self)@ == dispatched(old(self)@, NodeCommandView::Resume(entity)),
    {
        self.command = Some(NodeCommand::Resume(entity));
    }

    fn cancel(&mut self, entity: Entity)
        ensures
            final(self)@ == dispatched(old(self)@, NodeCommandView::Cancel(entity)),
    {
        self.command = Some(NodeCommand::Cancel(entity));
    }

    fn spawn(&mut self, entity: Entity)
        ensures
            final(self)@ == dispatched(old(self)@, NodeCommandView::Spawn(entity)),
    {
        self.command = Some(NodeCommand::Spawn(entity));
    }

    fn update(&mut self, graph: AttributeGraph)
        ensures
            final(self)@ == dispatched(old(self)@, NodeCommandView::Update(graph@)),
    {
        self.command = Some(NodeCommand::Update(graph));
    }

    fn custom(&mut self, name: &str, entity: Entity)
        ensures
            final(self)@ == dispatched(old(self)@, NodeCommandView::Custom(name@, entity)),
    {
        self.command = Some(NodeCommand::custom(name, entity));
    }
}

/// A button that an event node shows: its label and the command it dispatches.
pub struct Control {
    pub label: String,
    pub command: NodeCommand,
}

pub struct ControlView {
    pub label: Seq<char>,
    pub command: NodeCommandView,
}

impl View for Control {
    type V = ControlView;

    open spec fn view(&self) -> ControlView {
        ControlView { label: self.label@, command: self.command@ }
    }
}

pub open spec fn controls_view(v: Seq<Control>) -> Seq<ControlView> {
    v.map_values(|c: Control| c@)
}

/// The button `{word} {id}` dispatching `c`.
pub open spec fn control(word: Seq<char>, e: Entity, c: NodeCommandView) -> ControlView {
    ControlView { label: word + " "@ + decimal(e.index as nat), command: c }
}

/// The buttons an event node shows for each status of its event; each button
/// dispatches the command it is named for.
pub open spec fn event_controls_spec(status: EventStatus) -> Seq<ControlView> {
    let e = status.spec_entity();
    match status {
        EventStatus::Inactive(_) => seq![
            control("Start"@, e, NodeCommandView::Activate(e)),
            control("Pause"@, e, NodeCommandView::Pause(e)),
        ],
        EventStatus::Paused(_) => seq![
            control("Resume"@, e, NodeCommandView::Resume(e)),
            control("Cancel"@, e, NodeCommandView::Cancel(e)),
        ],
        EventStatus::InProgress(_) => seq![
            control("Pause"@, e, NodeCommandView::Pause(e)),
            control("Cancel"@, e, NodeCommandView::Cancel(e)),
        ],
        EventStatus::Cancelled(_) | EventStatus::Completed(_) => seq![
            control("Reset"@, e, NodeCommandView::Reset(e)),
        ],
        _ => Seq::empty(),
    }
}

fn make_control(word: &str, e: Entity, command: NodeCommand) -> (c: Control)
    ensures
        c@ == control(word@, e, command@),
{
    let mut label = word.to_owned();
    label.append(" ");
    push_decimal(&mut label, e.index as u64);
    Control { label, command }
}

/// The buttons an event node shows for an event.
pub fn event_controls(status: EventStatus) -> (cs: Vec<Control>)
    ensures
        controls_view(cs@) == event_controls_spec(status),
{
    let e = status.entity();
    let mut cs: Vec<Control> = Vec::new();
    match status {
        EventStatus::Inactive(_) => {
            cs.push(make_control("Start", e, NodeCommand::Activate(e)));
            cs.push(make_control("Pause", e, NodeCommand::Pause(e)));
        },
        EventStatus::Paused(_) => {
            cs.push(make_control("Resume", e, NodeCommand::Resume(e)));
            cs.push(make_control("Cancel", e, NodeCommand::Cancel(e)));
        },
        EventStatus::InProgress(_) => {
            cs.push(make_control("Pause", e, NodeCommand::Pause(e)));
            cs.push(make_control("Cancel", e, NodeCommand::Cancel(e)));
        },
        EventStatus::Cancelled(_) | EventStatus::Completed(_) => {
            cs.push(make_control("Reset", e, NodeCommand::Reset(e)));
        },
        _ => {},
    }
    assert(controls_view(cs@) =~= event_controls_spec(status));
    cs
}

impl Node {
    /// Creates a node for a status, with no pending command and no edits.
    pub fn new(status: NodeStatus, appendix: Appendix) -> (n: Node)
        ensures
            n@.status == status,
            n@.appendix == appendix@,
            n@.command is None,
            n@.mutations.len() == 0,
    {
        let n = Node { status, appendix, command: None, mutations: Vec::new() };
        assert(n@.mutations =~= Seq::<(Entity, GraphView)>::empty());
        n
    }

    /// Returns the control symbol of the engine the node belongs to, empty when unknown.
    pub fn control_symbol(&self) -> (s: String)
        ensures
            s@ == node_control_symbol(self@),
    {
        if self.status.is_empty() {
            return String::new();
        }
        match self.appendix.control_symbol(self.status.entity()) {
            Some(s) => s.clone(),
            None => String::new(),
        }
    }

    /// Presses a button: its command becomes the node's pending command.
    pub fn press(&mut self, control: &Control)
        ensures
            final(self)@ == dispatched(old(self)@, control@.command),
    {
        self.command = Some(control.command.duplicate());
    }

    /// Records an edit of a thunk's state: the edited graph is kept for the
    /// thunk's entity and an update with it becomes the pending command.
    pub fn record_edit(&mut self, thunk: Entity, graph: AttributeGraph)
        ensures
            final(self)@.mutations == key_upsert(old(self)@.mutations, thunk, graph@),
            final(self)@.command == Some(NodeCommandView::Update(graph@)),
            final(self)@.status == old(self)@.status,
            final(self)@.appendix == old(self)@.appendix,
    {
        let ghost gv = graph@;
        let copy = graph.duplicate();
        let ghost ms = mutations_view(self.mutations@);
        let found = self.mutation_position(thunk);
        match found {
            Some(k) => {
                self.mutations.set(k, (thunk, copy));
            },
            None => {
                self.mutations.push((thunk, copy));
            },
        }
        assert(mutations_view(self.mutations@) =~= key_upsert(ms, thunk, gv));
        self.command = Some(NodeCommand::Update(graph));
    }

    fn mutation_position(&self, thunk: Entity) -> (r: Option<usize>)
        ensures
            r is Some <==> has_key(mutations_view(self.mutations@), thunk),
            r matches Some(i) ==> i as int == key_position(mutations_view(self.mutations@), thunk)
                && i < self.mutations@.len(),
    {
        let ghost ms = mutations_view(self.mutations@);
        proof {
            lemma_key_position(ms, thunk);
        }
        let mut i: usize = 0;
        while i < self.mutations.len()
            invariant
                i <= self.mutations@.len(),
                ms == mutations_view(self.mutations@),
                forall|j: int| 0 <= j < i ==> #[trigger] ms[j].0 != thunk,
            decreases self.mutations@.len() - i,
        {
            if self.mutations[i].0 == thunk {
                assert(first_key(ms, thunk, i as int));
                return Some(i);
            }
            i = i + 1;
        }
        None
    }

    /// Takes the pending command, if any, leaving none.
    pub fn take_command(&mut self) -> (c: Option<NodeCommand>)
        ensures
            opt_command_view(c) == old(self)@.command,
            final(self)@ == (NodeView { command: None, ..old(self)@ }),
    {
        let mut c: Option<NodeCommand> = None;
        std::mem::swap(&mut c, &mut self.command);
        c
    }

    /// Takes the recorded edits, leaving none.
    pub fn take_mutations(&mut self) -> (m: Vec<(Entity, AttributeGraph)>)
        ensures
            mutations_view(m@) == old(self)@.mutations,
            final(self)@ == (NodeView { mutations: Seq::empty(), ..old(self)@ }),
    {
        let mut m: Vec<(Entity, AttributeGraph)> = Vec::new();
        std::mem::swap(&mut m, &mut self.mutations);
        assert(mutations_view(self.mutations@) =~= Seq::<(Entity, GraphView)>::empty());
        m
    }
}

/// Pressing a button of an event node dispatches exactly the command the
/// button names, and nothing else about the node changes.
pub proof fn law_press_dispatches(n: NodeView, status: EventStatus, i: int)
    requires
        0 <= i < event_controls_spec(status).len(),
    ensures
        dispatched(n, event_controls_spec(status)[i].command).command == Some(event_controls_spec(status)[i].command),
        dispatched(n, event_controls_spec(status)[i].command).status == n.status,
        dispatched(n, event_controls_spec(status)[i].command).mutations == n.mutations,
{
}

/// Every button of an event node commands that event's own entity.
pub proof fn law_controls_target_event(status: EventStatus, i: int)
    requires
        0 <= i < event_controls_spec(status).len(),
    ensures
        match event_controls_spec(status)[i].command {
            NodeCommandView::Activate(e) => e == status.spec_entity(),
            NodeCommandView::Pause(e) => e == status.spec_entity(),
            NodeCommandView::Resume(e) => e == status.spec_entity(),
            NodeCommandView::Cancel(e) => e == status.spec_entity(),
            NodeCommandView::Reset(e) => e == status.spec_entity(),
            _ => false,
        },
{
}

/// The label of the button `word` for the entity `e`.
pub open spec fn button_label(word: Seq<char>, e: Entity) -> Seq<char> {
    word + " "@ + decimal(e.index as nat)
}

proof fn lemma_labels_differ(a: Seq<char>, b: Seq<char>, e: Entity, k: int)
    requires
        0 <= k < a.len(),
        k < b.len(),
        a[k] != b[k],
    ensures
        button_label(a, e) != button_label(b, e),
{
    assert(button_label(a, e)[k] == a[k]);
    assert(button_label(b, e)[k] == b[k]);
}

proof fn lemma_button_words_distinct(e: Entity)
    ensures
        button_label("Start"@, e) != button_label("Pause"@, e),
        button_label("Start"@, e) != button_label("Cancel"@, e),
        button_label("Start"@, e) != button_label("Resume"@, e),
        button_label("Start"@, e) != button_label("Reset"@, e),
        button_label("Pause"@, e) != button_label("Cancel"@, e),
        button_label("Pause"@, e) != button_label("Resume"@, e),
        button_label("Pause"@, e) != button_label("Reset"@, e),
        button_label("Cancel"@, e) != button_label("Resume"@, e),
        button_label("Cancel"@, e) != button_label("Reset"@, e),
        button_label("Resume"@, e) != button_label("Reset"@, e),
{
    reveal_strlit("Start");
    reveal_strlit("Pause");
    reveal_strlit("Cancel");
    reveal_strlit("Resume");
    reveal_strlit("Reset");
    lemma_labels_differ("Start"@, "Pause"@, e, 0);
    lemma_labels_differ("Start"@, "Cancel"@, e, 0);
    lemma_labels_differ("Start"@, "Resume"@, e, 0);
    lemma_labels_differ("Start"@, "Reset"@, e, 0);
    lemma_labels_differ("Pause"@, "Cancel"@, e, 0);
    lemma_labels_differ("Pause"@, "Resume"@, e, 0);
    lemma_labels_differ("Pause"@, "Reset"@, e, 0);
    lemma_labels_differ("Cancel"@, "Resume"@, e, 0);
    lemma_labels_differ("Cancel"@, "Reset"@, e, 0);
    lemma_labels_differ("Resume"@, "Reset"@, e, 3);
}

/// Every button of an event node dispatches the command its label names, for
/// the event's own entity: `Cancel` cancels, `Pause` pauses, `Start`
/// activates, `Resume` resumes and `Reset` resets.
pub proof fn law_buttons_do_what_they_say(status: EventStatus, i: int)
    requires
        0 <= i < event_controls_spec(status).len(),
    ensures
        ({
            let c = event_controls_spec(status)[i];
            let e = status.spec_entity();
            &&& c.label == button_label("Cancel"@, e) ==> c.command == NodeCommandView::Cancel(e)
            &&& c.label == button_label("Pause"@, e) ==> c.command == NodeCommandView::Pause(e)
            &&& c.label == button_label("Start"@, e) ==> c.command == NodeCommandView::Activate(e)
            &&& c.label == button_label("Resume"@, e) ==> c.command == NodeCommandView::Resume(e)
            &&& c.label == button_label("Reset"@, e) ==> c.command == NodeCommandView::Reset(e)
        }),
{
    lemma_button_words_distinct(status.spec_entity());
}

/// A running or paused event can always be cancelled from its node, an
/// inactive one started, and a finished one reset: its node offers a button,
/// labelled so, that does it.
pub proof fn law_events_offer_their_commands(status: EventStatus)
    ensures
        ({
            let cs = event_controls_spec(status);
            let e = status.spec_entity();
            &&& (status is InProgress || status is Paused) ==> exists|i: int| 0 <= i < cs.len()
                && #[trigger] cs[i] == (ControlView { label: button_label("Cancel"@, e), command: NodeCommandView::Cancel(e) })
            &&& status is Inactive ==> exists|i: int| 0 <= i < cs.len()
                && #[trigger] cs[i] == (ControlView { label: button_label("Start"@, e), command: NodeCommandView::Activate(e) })
            &&& (status is Completed || status is Cancelled) ==> exists|i: int| 0 <= i < cs.len()
                && #[trigger] cs[i] == (ControlView { label: button_label("Reset"@, e), command: NodeCommandView::Reset(e) })
        }),
{
    let cs = event_controls_spec(status);
    let e = status.spec_entity();
    if status is InProgress || status is Paused {
        assert(cs[1] == (ControlView { label: button_label("Cancel"@, e), command: NodeCommandView::Cancel(e) }));
    }
    if status is Inactive {
        assert(cs[0] == (ControlView { label: button_label("Start"@, e), command: NodeCommandView::Activate(e) }));
    }
    if status is Completed || status is Cancelled {
        assert(cs[0] == (ControlView { label: button_label("Reset"@, e), command: NodeCommandView::Reset(e) }));
    }
}

} // verus!
