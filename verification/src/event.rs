use vstd::prelude::*;
use crate::attributes::{AttributeGraph, AttributeView, GraphView, ValueView, lookup, upsert, lemma_upsert_lookup};
use crate::section::{Section, SectionView};
use crate::text::strings_view;

verus! {

/// Event component is the most basic data unit of the runtime
#[derive(Debug, Clone, PartialEq, Eq, Hash, PartialOrd, Ord)]
pub struct EventComponent {
    pub label: String,
    pub on: String,
    pub dispatch: String,
    pub call: String,
    pub transitions: Vec<String>,
}

pub struct EventComponentView {
    pub label: Seq<char>,
    pub on: Seq<char>,
    pub dispatch: Seq<char>,
    pub call: Seq<char>,
    pub transitions: Seq<Seq<char>>,
}

impl View for EventComponent {
    type V = EventComponentView;

    open spec fn view(&self) -> EventComponentView {
        EventComponentView {
            label: self.label@,
            on: self.on@,
            dispatch: self.dispatch@,
            call: self.call@,
            transitions: strings_view(self.transitions@),
        }
    }
}

/// The attributes a section edits for an event: its label, `on`, `dispatch` and `call`.
pub open spec fn event_attributes(e: EventComponentView) -> Seq<AttributeView> {
    let a0 = upsert(Seq::empty(), AttributeView { id: 0, name: "label"@, value: ValueView::TextBuffer(e.label) });
    let a1 = upsert(a0, AttributeView { id: 0, name: "on"@, value: ValueView::TextBuffer(e.on) });
    let a2 = upsert(a1, AttributeView { id: 0, name: "dispatch"@, value: ValueView::TextBuffer(e.dispatch) });
    upsert(a2, AttributeView { id: 0, name: "call"@, value: ValueView::TextBuffer(e.call) })
}

/// The text of the attribute named `name`, if it holds text.
pub open spec fn text_of(attrs: Seq<AttributeView>, name: Seq<char>) -> Option<Seq<char>> {
    match lookup(attrs, name) {
        Some(a) => match a.value {
            ValueView::TextBuffer(t) => Some(t),
            _ => None,
        },
        None => None,
    }
}

/// The event a section describes: when the section has text for the label,
/// `on`, `dispatch` and `call`, those; otherwise an event with empty fields.
/// Transitions are not kept in a section.
pub open spec fn event_of_attributes(attrs: Seq<AttributeView>) -> EventComponentView {
    match (text_of(attrs, "label"@), text_of(attrs, "on"@), text_of(attrs, "dispatch"@), text_of(attrs, "call"@)) {
        (Some(label), Some(on), Some(dispatch), Some(call)) =>
            EventComponentView { label, on, dispatch, call, transitions: Seq::empty() },
        _ => EventComponentView {
            label: Seq::empty(),
            on: Seq::empty(),
            dispatch: Seq::empty(),
            call: Seq::empty(),
            transitions: Seq::empty(),
        },
    }
}

impl EventComponent {
    /// Creates an event with a label and the event it is on.
    pub fn new(label: &str, on: &str) -> (e: EventComponent)
        ensures
            e@ == (EventComponentView {
                label: label@,
                on: on@,
                dispatch: Seq::empty(),
                call: Seq::empty(),
                transitions: Seq::empty(),
            }),
    {
        let e = EventComponent {
            label: label.to_owned(),
            on: on.to_owned(),
            dispatch: String::new(),
            call: String::new(),
            transitions: Vec::new(),
        };
        assert(e@.transitions =~= Seq::<Seq<char>>::empty());
        e
    }

    /// Returns a copy of this event.
    pub fn duplicate(&self) -> (e: EventComponent)
        ensures
            e@ == self@,
    {
        EventComponent {
            label: self.label.clone(),
            on: self.on.clone(),
            dispatch: self.dispatch.clone(),
            call: self.call.clone(),
            transitions: crate::attributes::copy_strings(&self.transitions),
        }
    }

    /// Makes a section that edits this event, titled by its label, with the
    /// default state; `state_attributes` are that state's attributes, which are
    /// copied into the section after the event's.
    pub fn to_section<S: Default>(&self, state_attributes: &Vec<crate::attributes::Attribute>) -> (s: Section<S>)
        ensures
            s@.title == self@.label,
            s@.attributes == crate::section::copy_all(GraphView { entity: 0, attributes: event_attributes(self@) },
                crate::attributes::attributes_view(state_attributes@)),
            s@.id == 0,
            !s@.enable_app_systems,
            !s@.enable_edit_attributes,
            s@.gen == 0,
    {
        let mut graph = AttributeGraph::new(0);
        graph.add_text_attr("label".to_owned(), self.label.clone());
        graph.add_text_attr("on".to_owned(), self.on.clone());
        graph.add_text_attr("dispatch".to_owned(), self.dispatch.clone());
        graph.add_text_attr("call".to_owned(), self.call.clone());
        Section::new(self.label.as_str(), graph, S::default(), state_attributes)
    }

    /// Reads the event that a section edits.
    pub fn from_section<S>(s: &Section<S>) -> (e: EventComponent)
        ensures
            e@ == event_of_attributes(s@.attributes.attributes),
    {
        let label = s.attributes().find_text("label");
        let on = s.attributes().find_text("on");
        let dispatch = s.attributes().find_text("dispatch");
        let call = s.attributes().find_text("call");
        match (label, on, dispatch, call) {
            (Some(label), Some(on), Some(dispatch), Some(call)) => {
                let e = EventComponent { label, on, dispatch, call, transitions: Vec::new() };
                assert(e@.transitions =~= Seq::<Seq<char>>::empty());
                e
            },
            _ => {
                let e = EventComponent {
                    label: String::new(),
                    on: String::new(),
                    dispatch: String::new(),
                    call: String::new(),
                    transitions: Vec::new(),
                };
                assert(e@.transitions =~= Seq::<Seq<char>>::empty());
                e
            },
        }
    }
}

/// Editing an event in a section and reading it back gives the event back,
/// without its transitions.
pub proof fn law_event_section_round_trip(e: EventComponentView)
    ensures
        event_of_attributes(event_attributes(e)) == (EventComponentView { transitions: Seq::empty(), ..e }),
{
    reveal_strlit("label");
    reveal_strlit("on");
    reveal_strlit("dispatch");
    reveal_strlit("call");
    let a0 = upsert(Seq::empty(), AttributeView { id: 0, name: "label"@, value: ValueView::TextBuffer(e.label) });
    let a1 = upsert(a0, AttributeView { id: 0, name: "on"@, value: ValueView::TextBuffer(e.on) });
    let a2 = upsert(a1, AttributeView { id: 0, name: "dispatch"@, value: ValueView::TextBuffer(e.dispatch) });
    let a3 = upsert(a2, AttributeView { id: 0, name: "call"@, value: ValueView::TextBuffer(e.call) });
    lemma_upsert_lookup(Seq::empty(), AttributeView { id: 0, name: "label"@, value: ValueView::TextBuffer(e.label) });
    lemma_upsert_lookup(a0, AttributeView { id: 0, name: "on"@, value: ValueView::TextBuffer(e.on) });
    lemma_upsert_lookup(a1, AttributeView { id: 0, name: "dispatch"@, value: ValueView::TextBuffer(e.dispatch) });
    lemma_upsert_lookup(a2, AttributeView { id: 0, name: "call"@, value: ValueView::TextBuffer(e.call) });
    assert("label"@[0] != "on"@[0]);
    assert("label"@ != "on"@);
    assert("label"@[0] != "dispatch"@[0]);
    assert("label"@ != "dispatch"@);
    assert("label"@ != "call"@);
    assert("on"@ != "dispatch"@);
    assert("on"@ != "call"@);
    assert("dispatch"@ != "call"@);
    assert(lookup(a3, "label"@) == lookup(a0, "label"@));
    assert(lookup(a3, "on"@) == lookup(a1, "on"@));
    assert(lookup(a3, "dispatch"@) == lookup(a2, "dispatch"@));
}

/// Events of an engine, in the order they were added.
#[derive(Debug, Clone, Default)]
pub struct EventGraph {
    events: Vec<EventComponent>,
}

pub open spec fn events_view(v: Seq<EventComponent>) -> Seq<EventComponentView> {
    v.map_values(|e: EventComponent| e@)
}

impl View for EventGraph {
    type V = Seq<EventComponentView>;

    closed spec fn view(&self) -> Seq<EventComponentView> {
        events_view(self.events@)
    }
}

impl EventGraph {
    /// Creates a graph with no events.
    pub fn new() -> (g: EventGraph)
        ensures
            g@ == Seq::<EventComponentView>::empty(),
    {
        let g = EventGraph { events: Vec::new() };
        assert(g@ =~= Seq::<EventComponentView>::empty());
        g
    }

    /// Adds an event to the graph.
    pub fn add_event(&mut self, event: EventComponent)
        ensures
            final(self)@ == old(self)@.push(event@),
    {
        self.events.push(event);
        assert(self@ =~= old(self)@.push(event@));
    }

    /// Returns the events of the graph.
    pub fn events(&self) -> (e: &Vec<EventComponent>)
        ensures
            events_view(e@) == self@,
    {
        &self.events
    }

    /// Returns a copy of this graph.
    pub fn duplicate(&self) -> (g: EventGraph)
        ensures
            g@ == self@,
    {
        let mut out: Vec<EventComponent> = Vec::new();
        let mut i: usize = 0;
        while i < self.events.len()
            invariant
                i <= self.events@.len(),
                events_view(out@) =~= events_view(self.events@).subrange(0, i as int),
            decreases self.events@.len() - i,
        {
            let e = self.events[i].duplicate();
            let ghost before = out@;
            out.push(e);
            assert(events_view(out@) =~= events_view(before).push(e@));
            i = i + 1;
        }
        assert(events_view(self.events@).subrange(0, i as int) =~= events_view(self.events@));
        EventGraph { events: out }
    }
}

} // verus!
