use vstd::prelude::*;
use crate::event::{EventComponent, EventComponentView, EventGraph};
use crate::editor::{titled_spec, unique_title};
use crate::keyed::{key_lookup, key_upsert, key_remove, key_position, has_key, first_key, distinct_keys,
    lemma_key_position, lemma_key_upsert, lemma_key_remove};

verus! {

/// Editor of the event graphs of the entities that enable it, by entity id.
pub struct EventEditor {
    title: String,
    events: Vec<(u32, EventGraph)>,
}

pub struct EventEditorView {
    pub title: Seq<char>,
    pub events: Seq<(u32, Seq<EventComponentView>)>,
}

pub open spec fn graphs_view(v: Seq<(u32, EventGraph)>) -> Seq<(u32, Seq<EventComponentView>)> {
    v.map_values(|p: (u32, EventGraph)| (p.0, p.1@))
}

impl View for EventEditor {
    type V = EventEditorView;

    closed spec fn view(&self) -> EventEditorView {
        EventEditorView { title: self.title@, events: graphs_view(self.events@) }
    }
}

/// What the editor asks of the entity's storage after looking at it.
pub enum SyncAction {
    /// Nothing to do,
    Nothing,
    /// The entity's graph was loaded into the editor,
    Loaded,
    /// The entity enables the editor but has no graph to load,
    NotFound,
    /// The editor is done with the entity's graph: store it back,
    Save(EventGraph),
}

/// The editor's graphs after it looked at an entity, and what it asks of the
/// storage: an entity that enables the editor has its stored graph loaded once;
/// one that disables it has its graph handed back to be saved.
pub open spec fn sync_spec(events: Seq<(u32, Seq<EventComponentView>)>, id: u32, enabled: Option<bool>, stored: Option<Seq<EventComponentView>>)
    -> (Seq<(u32, Seq<EventComponentView>)>, Option<Option<Seq<EventComponentView>>>)
{
    match enabled {
        Some(true) => if has_key(events, id) {
            (events, None)
        } else {
            match stored {
                Some(g) => (key_upsert(events, id, g), None),
                None => (events, Some(None)),
            }
        },
        Some(false) => match key_lookup(events, id) {
            Some(g) => (key_remove(events, id), Some(Some(g))),
            None => (events, None),
        },
        None => (events, None),
    }
}

/// The action an editor step reports, as the second part of [`sync_spec`]:
/// none for nothing or a load, `Some(None)` when no graph was found, and the
/// graph to save.
pub open spec fn action_view(a: SyncAction) -> Option<Option<Seq<EventComponentView>>> {
    match a {
        SyncAction::Nothing => None,
        SyncAction::Loaded => None,
        SyncAction::NotFound => Some(None),
        SyncAction::Save(g) => Some(Some(g@)),
    }
}

impl EventEditor {
    /// Creates an editor with a unique title and no graphs.
    pub fn new() -> (e: EventEditor)
        ensures
            exists|n: u16| e@.title == titled_spec("Event Editor"@, n),
            e@.events == Seq::<(u32, Seq<EventComponentView>)>::empty(),
    {
        let e = EventEditor { title: unique_title("Event Editor"), events: Vec::new() };
        assert(e@.events =~= Seq::<(u32, Seq<EventComponentView>)>::empty());
        e
    }

    /// The editor's title.
    pub fn title(&self) -> (t: &String)
        ensures
            t@ == self@.title,
    {
        &self.title
    }

    /// The graphs being edited, by entity id.
    pub fn graphs(&self) -> (g: &Vec<(u32, EventGraph)>)
        ensures
            graphs_view(g@) == self@.events,
    {
        &self.events
    }

    fn position(&self, id: u32) -> (r: Option<usize>)
        ensures
            r is Some <==> has_key(self@.events, id),
            r matches Some(i) ==> i as int == key_position(self@.events, id) && i < self.events@.len(),
    {
        let ghost es = self@.events;
        proof {
            lemma_key_position(es, id);
        }
        let mut i: usize = 0;
        while i < self.events.len()
            invariant
                i <= self.events@.len(),
                es == graphs_view(self.events@),
                forall|j: int| 0 <= j < i ==> #[trigger] es[j].0 != id,
            decreases self.events@.len() - i,
        {
            if self.events[i].0 == id {
                assert(first_key(es, id, i as int));
                return Some(i);
            }
            i = i + 1;
        }
        None
    }

    /// One run of the editor for an entity: whether it enables the editor, and
    /// the graph its storage holds.
    pub fn sync(&mut self, id: u32, enabled: Option<bool>, stored: Option<&EventGraph>) -> (a: SyncAction)
        ensures
            final(self)@.title == old(self)@.title,
            final(self)@.events == sync_spec(old(self)@.events, id, enabled, match stored { Some(g) => Some(g@), None => None }).0,
            action_view(a) == sync_spec(old(self)@.events, id, enabled, match stored { Some(g) => Some(g@), None => None }).1,
    {
        let ghost es = self@.events;
        proof {
            lemma_key_position(es, id);
        }
        match enabled {
            Some(true) => {
                match self.position(id) {
                    Some(_) => SyncAction::Nothing,
                    None => match stored {
                        Some(g) => {
                            let copy = g.duplicate();
                            let ghost gv = copy@;
                            self.events.push((id, copy));
                            assert(self@.events =~= key_upsert(es, id, gv));
                            SyncAction::Loaded
                        },
                        None => SyncAction::NotFound,
                    },
                }
            },
            Some(false) => {
                match self.position(id) {
                    Some(p) => {
                        let (_, g) = self.events.remove(p);
                        assert(self@.events =~= es.remove(p as int));
                        SyncAction::Save(g)
                    },
                    None => SyncAction::Nothing,
                }
            },
            None => SyncAction::Nothing,
        }
    }

    /// Adds a new event to the graph of an entity being edited: labelled with a
    /// unique title, on a new event. Returns false when the entity's graph is
    /// not being edited.
    pub fn add_event(&mut self, id: u32) -> (added: bool)
        ensures
            added == has_key(old(self)@.events, id),
            final(self)@.title == old(self)@.title,
            !added ==> final(self)@.events == old(self)@.events,
            added ==> exists|n: u16| final(self)@.events == old(self)@.events.update(
                key_position(old(self)@.events, id),
                (id, key_lookup(old(self)@.events, id).unwrap().push(EventComponentView {
                    label: titled_spec("Event"@, n),
                    on: "{ new_event;; }"@,
                    dispatch: Seq::empty(),
                    call: Seq::empty(),
                    transitions: Seq::empty(),
                }))),
    {
        let ghost es = self@.events;
        proof {
            lemma_key_position(es, id);
        }
        match self.position(id) {
            Some(p) => {
                let label = unique_title("Event");
                let event = EventComponent::new(label.as_str(), "{ new_event;; }");
                let (k, mut graph) = self.events.remove(p);
                graph.add_event(event);
                self.events.insert(p, (k, graph));
                assert(self@.events =~= es.update(p as int, (id, es[p as int].1.push(event@))));
                true
            },
            None => false,
        }
    }

    /// Drops every graph being edited.
    pub fn refresh(&mut self)
        ensures
            final(self)@.title == old(self)@.title,
            final(self)@.events == Seq::<(u32, Seq<EventComponentView>)>::empty(),
    {
        self.events = Vec::new();
        assert(self@.events =~= Seq::<(u32, Seq<EventComponentView>)>::empty());
    }
}

/// A graph goes back to storage as it was edited: enabling loads the stored
/// graph, and disabling right after hands the same graph back to be saved.
pub proof fn law_load_then_save(events: Seq<(u32, Seq<EventComponentView>)>, id: u32, stored: Seq<EventComponentView>)
    requires
        distinct_keys(events),
        !has_key(events, id),
    ensures
        ({
            let loaded = sync_spec(events, id, Some(true), Some(stored)).0;
            &&& sync_spec(loaded, id, Some(false), None).1 == Some(Some(stored))
            &&& sync_spec(loaded, id, Some(false), None).0 =~= events
        }),
{
    lemma_key_upsert(events, id, stored);
    let loaded = key_upsert(events, id, stored);
    lemma_key_position(events, id);
    lemma_key_position(loaded, id);
    assert(first_key(loaded, id, events.len() as int));
    assert(loaded.remove(events.len() as int) =~= events);
}

/// A graph already being edited is never reloaded: while the editor stays
/// enabled for an entity whose graph it holds, a run changes none of its
/// graphs and asks nothing of the storage, whatever the storage holds.
pub proof fn law_loaded_graph_is_kept(events: Seq<(u32, Seq<EventComponentView>)>, id: u32, stored: Option<Seq<EventComponentView>>)
    requires
        has_key(events, id),
    ensures
        sync_spec(events, id, Some(true), stored).0 == events,
        sync_spec(events, id, Some(true), stored).1 is None,
{
}

} // verus!
