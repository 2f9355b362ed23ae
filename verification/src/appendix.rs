use vstd::prelude::*;
use crate::entity::Entity;
use crate::attributes::{AttributeGraph, GraphView};
use crate::keyed::{key_lookup, key_upsert, key_position, first_key, has_key, lemma_key_position};

verus! {

/// General description, name, summary, etc
#[derive(Debug, Clone, Default)]
pub struct General {
    /// Name of this entity,
    pub name: String,
}

/// State description,
#[derive(Debug, Clone, Default)]
pub struct State {
    /// Control symbol,
    pub control_symbol: String,
    /// Initial state,
    pub graph: Option<AttributeGraph>,
}

pub struct StateView {
    pub control_symbol: Seq<char>,
    pub graph: Option<GraphView>,
}

impl View for State {
    type V = StateView;

    open spec fn view(&self) -> StateView {
        StateView {
            control_symbol: self.control_symbol@,
            graph: match self.graph {
                Some(g) => Some(g@),
                None => None,
            },
        }
    }
}

/// Struct for storing descriptions of entities,
#[derive(Debug, Clone, Default)]
pub struct Appendix {
    general: Vec<(Entity, General)>,
    state: Vec<(Entity, State)>,
}

pub struct AppendixView {
    /// Name of each described entity,
    pub general: Seq<(Entity, Seq<char>)>,
    /// State of each described entity,
    pub state: Seq<(Entity, StateView)>,
}

impl View for Appendix {
    type V = AppendixView;

    closed spec fn view(&self) -> AppendixView {
        AppendixView {
            general: self.general@.map_values(|p: (Entity, General)| (p.0, p.1.name@)),
            state: self.state@.map_values(|p: (Entity, State)| (p.0, p.1@)),
        }
    }
}

/// The name recorded for the first described entity whose index is `id`.
pub open spec fn name_by_id_spec(general: Seq<(Entity, Seq<char>)>, id: u32) -> Option<Seq<char>> {
    if exists|i: int| 0 <= i < general.len() && general[i].0.index == id {
        let i = choose|i: int| 0 <= i < general.len() && general[i].0.index == id
            && forall|j: int| 0 <= j < i ==> general[j].0.index != id;
        Some(general[i].1)
    } else {
        None
    }
}

impl Appendix {
    /// Creates an empty appendix.
    pub fn new() -> (a: Appendix)
        ensures
            a@.general == Seq::<(Entity, Seq<char>)>::empty(),
            a@.state == Seq::<(Entity, StateView)>::empty(),
    {
        let a = Appendix { general: Vec::new(), state: Vec::new() };
        assert(a@.general =~= Seq::<(Entity, Seq<char>)>::empty());
        assert(a@.state =~= Seq::<(Entity, StateView)>::empty());
        a
    }

    fn general_position(&self, entity: Entity) -> (r: Option<usize>)
        ensures
            r is Some <==> has_key(self@.general, entity),
            r matches Some(i) ==> i as int == key_position(self@.general, entity) && i < self@.general.len(),
    {
        proof {
            lemma_key_position(self@.general, entity);
        }
        let mut i: usize = 0;
        while i < self.general.len()
            invariant
                i <= self.general@.len(),
                forall|j: int| 0 <= j < i ==> #[trigger] self@.general[j].0 != entity,
            decreases self.general@.len() - i,
        {
            if self.general[i].0 == entity {
                assert(first_key(self@.general, entity, i as int));
                return Some(i);
            }
            i = i + 1;
        }
        None
    }

    fn state_position(&self, entity: Entity) -> (r: Option<usize>)
        ensures
            r is Some <==> has_key(self@.state, entity),
            r matches Some(i) ==> i as int == key_position(self@.state, entity) && i < self@.state.len(),
    {
        proof {
            lemma_key_position(self@.state, entity);
        }
        let mut i: usize = 0;
        while i < self.state.len()
            invariant
                i <= self.state@.len(),
                forall|j: int| 0 <= j < i ==> #[trigger] self@.state[j].0 != entity,
            decreases self.state@.len() - i,
        {
            if self.state[i].0 == entity {
                assert(first_key(self@.state, entity, i as int));
                return Some(i);
            }
            i = i + 1;
        }
        None
    }

    /// Inserts a general description for the entity to the appendix,
    pub fn insert_general(&mut self, entity: Entity, general: General)
        ensures
            final(self)@.general == key_upsert(old(self)@.general, entity, general.name@),
            final(self)@.state == old(self)@.state,
    {
        let ghost name = general.name@;
        match self.general_position(entity) {
            Some(i) => {
                self.general.set(i, (entity, general));
                assert(self@.general =~= key_upsert(old(self)@.general, entity, name));
            },
            None => {
                self.general.push((entity, general));
                assert(self@.general =~= key_upsert(old(self)@.general, entity, name));
            },
        }
    }

    /// Inserts a state description for the entity to the appendix,
    pub fn insert_state(&mut self, entity: Entity, state: State)
        ensures
            final(self)@.state == key_upsert(old(self)@.state, entity, state@),
            final(self)@.general == old(self)@.general,
    {
        let ghost sv = state@;
        match self.state_position(entity) {
            Some(i) => {
                self.state.set(i, (entity, state));
                assert(self@.state =~= key_upsert(old(self)@.state, entity, sv));
            },
            None => {
                self.state.push((entity, state));
                assert(self@.state =~= key_upsert(old(self)@.state, entity, sv));
            },
        }
    }

    /// Returns a general description of the entity
    pub fn general(&self, entity: Entity) -> (r: Option<&General>)
        ensures
            r matches Some(g) ==> key_lookup(self@.general, entity) == Some(g.name@),
            r is None ==> key_lookup(self@.general, entity) is None,
    {
        match self.general_position(entity) {
            Some(i) => Some(&self.general[i].1),
            None => None,
        }
    }

    /// Returns a name for an entity,
    pub fn name(&self, entity: Entity) -> (r: Option<&String>)
        ensures
            r matches Some(n) ==> key_lookup(self@.general, entity) == Some(n@),
            r is None ==> key_lookup(self@.general, entity) is None,
    {
        match self.general_position(entity) {
            Some(i) => Some(&self.general[i].1.name),
            None => None,
        }
    }

    /// Returns the state description of an entity,
    pub fn state(&self, entity: Entity) -> (r: Option<&State>)
        ensures
            r matches Some(s) ==> key_lookup(self@.state, entity) == Some(s@),
            r is None ==> key_lookup(self@.state, entity) is None,
    {
        match self.state_position(entity) {
            Some(i) => Some(&self.state[i].1),
            None => None,
        }
    }

    /// Returns the control symbol of the engine an entity belongs to,
    pub fn control_symbol(&self, entity: Entity) -> (r: Option<&String>)
        ensures
            r matches Some(s) ==> key_lookup(self@.state, entity) matches Some(v) && v.control_symbol == s@,
            r is None ==> key_lookup(self@.state, entity) is None,
    {
        match self.state_position(entity) {
            Some(i) => Some(&self.state[i].1.control_symbol),
            None => None,
        }
    }

    /// Returns the name recorded for an entity with the index `id`, whatever its generation,
    pub fn name_by_id(&self, id: u32) -> (r: Option<&String>)
        ensures
            r matches Some(n) ==> name_by_id_spec(self@.general, id) == Some(n@),
            r is None ==> name_by_id_spec(self@.general, id) is None,
    {
        let mut i: usize = 0;
        while i < self.general.len()
            invariant
                i <= self.general@.len(),
                forall|j: int| 0 <= j < i ==> #[trigger] self@.general[j].0.index != id,
            decreases self.general@.len() - i,
        {
            if self.general[i].0.index == id {
                let ghost g = self@.general;
                assert(0 <= i < g.len() && g[i as int].0.index == id
                    && forall|j: int| 0 <= j < i ==> g[j].0.index != id);
                proof {
                    let k = choose|k: int| 0 <= k < g.len() && g[k].0.index == id
                        && forall|j: int| 0 <= j < k ==> g[j].0.index != id;
                    if k < i {
                        assert(g[k].0.index != id);
                    } else if i < k {
                        assert(g[i as int].0.index != id);
                    }
                }
                return Some(&self.general[i].1.name);
            }
            i = i + 1;
        }
        None
    }
}

} // verus!
