use vstd::prelude::*;
use crate::entity::Entity;

use crate::keyed::{key_lookup, key_upsert, key_position, first_key, has_key, lemma_key_position, distinct_keys, lemma_key_upsert};
use crate::text::{idents, parse_idents, parse_usize, reads_as_usize, digits_value, unsigned_digits, same_text, strings_view};

verus! {

/// How an event of an engine is started.
#[derive(Debug, Clone, Copy, PartialEq, Eq, Hash, Structural)]
pub enum Transition {
    Once,
    Start,
    Select,
    Spawn,
    Buffer,
}

/// What an engine does once all its events have run.
#[derive(Debug, Clone, Copy, PartialEq, Eq, Hash, Structural)]
pub enum Lifecycle {
    Exit,
    Loop,
    Next,
    Fork,
    Repeat(usize),
}

/// Number of times an engine may repeat.
#[derive(Debug, Clone, Copy, PartialEq, Eq, Hash, Structural)]
pub struct Limit(pub usize);

/// An engine is a sequence of events: for each transition, the names of the
/// events it starts, and the lifecycle action taken at the end.
#[derive(Debug, Clone, Default)]
pub struct Engine {
    start: Option<Entity>,
    limit: Option<Limit>,
    transitions: Vec<(Transition, Vec<String>)>,
    lifecycle: Option<(Lifecycle, Option<Vec<String>>)>,
}

pub struct EngineView {
    pub start: Option<Entity>,
    pub limit: Option<Limit>,
    pub transitions: Seq<(Transition, Seq<Seq<char>>)>,
    pub lifecycle: Option<(Lifecycle, Option<Seq<Seq<char>>>)>,
}

pub open spec fn transitions_view(v: Seq<(Transition, Vec<String>)>) -> Seq<(Transition, Seq<Seq<char>>)> {
    v.map_values(|p: (Transition, Vec<String>)| (p.0, strings_view(p.1@)))
}

pub open spec fn names_view(o: Option<Vec<String>>) -> Option<Seq<Seq<char>>> {
    match o {
        Some(v) => Some(strings_view(v@)),
        None => None,
    }
}

impl View for Engine {
    type V = EngineView;

    closed spec fn view(&self) -> EngineView {
        EngineView {
            start: self.start,
            limit: self.limit,
            transitions: transitions_view(self.transitions@),
            lifecycle: match self.lifecycle {
                Some((l, names)) => Some((l, names_view(names))),
                None => None,
            },
        }
    }
}

/// The engine after a transition is added: transitions are added only while no
/// lifecycle action is set.
pub open spec fn with_transition(e: EngineView, t: Transition, events: Seq<Seq<char>>) -> EngineView {
    if e.lifecycle is None {
        EngineView { transitions: e.transitions.push((t, events)), ..e }
    } else {
        e
    }
}

/// The engine after a lifecycle action is set: a repeat also sets the limit.
pub open spec fn with_lifecycle(e: EngineView, l: Lifecycle, engines: Option<Seq<Seq<char>>>) -> EngineView {
    EngineView {
        limit: match l {
            Lifecycle::Repeat(n) => Some(Limit(n)),
            _ => e.limit,
        },
        lifecycle: Some((l, engines)),
        ..e
    }
}

/// Attributes that configure an engine in runmd.
#[derive(Debug, Clone, Copy, PartialEq, Eq, Hash, Structural)]
pub enum EngineAttribute {
    Event,
    Once,
    Start,
    Select,
    Spawn,
    Buffer,
    Exit,
    Loop,
    Next,
    Fork,
    Repeat,
}

/// The engine attribute with the name `n`.
pub open spec fn engine_attribute_named(n: Seq<char>) -> Option<EngineAttribute> {
    if n == "event"@ { Some(EngineAttribute::Event) }
    else if n == "once"@ { Some(EngineAttribute::Once) }
    else if n == "start"@ { Some(EngineAttribute::Start) }
    else if n == "select"@ { Some(EngineAttribute::Select) }
    else if n == "spawn"@ { Some(EngineAttribute::Spawn) }
    else if n == "buffer"@ { Some(EngineAttribute::Buffer) }
    else if n == "exit"@ { Some(EngineAttribute::Exit) }
    else if n == "loop"@ { Some(EngineAttribute::Loop) }
    else if n == "next"@ { Some(EngineAttribute::Next) }
    else if n == "fork"@ { Some(EngineAttribute::Fork) }
    else if n == "repeat"@ { Some(EngineAttribute::Repeat) }
    else { None }
}

impl EngineAttribute {
    /// Returns the attribute with this name, if it is one.
    pub fn named(name: &str) -> (r: Option<EngineAttribute>)
        ensures
            r == engine_attribute_named(name@),
    {
        if same_text(name, "event") { Some(EngineAttribute::Event) }
        else if same_text(name, "once") { Some(EngineAttribute::Once) }
        else if same_text(name, "start") { Some(EngineAttribute::Start) }
        else if same_text(name, "select") { Some(EngineAttribute::Select) }
        else if same_text(name, "spawn") { Some(EngineAttribute::Spawn) }
        else if same_text(name, "buffer") { Some(EngineAttribute::Buffer) }
        else if same_text(name, "exit") { Some(EngineAttribute::Exit) }
        else if same_text(name, "loop") { Some(EngineAttribute::Loop) }
        else if same_text(name, "next") { Some(EngineAttribute::Next) }
        else if same_text(name, "fork") { Some(EngineAttribute::Fork) }
        else if same_text(name, "repeat") { Some(EngineAttribute::Repeat) }
        else { None }
    }
}

/// Why an engine attribute was not applied.
#[derive(Debug, Clone, Copy, PartialEq, Eq, Hash, Structural)]
pub enum EngineError {
    /// A repeat count must be a positive integer,
    InvalidRepeatCount,
    /// The attribute does not configure an engine,
    UnknownAttribute,
}

/// Whether `s` holds a space.
fn has_space(s: &str) -> (r: bool)
    ensures
        r == s@.contains(' '),
{
    let n = s.unicode_len();
    let mut i: usize = 0;
    while i < n
        invariant
            i <= n,
            n == s@.len(),
            forall|j: int| 0 <= j < i ==> s@[j] != ' ',
        decreases n - i,
    {
        if s.get_char(i) == ' ' {
            assert(s@[i as int] == ' ');
            return true;
        }
        i = i + 1;
    }
    false
}

/// The events that `.event` names: two identifiers name one event in another
/// control namespace, `<name> <symbol>`; otherwise each identifier is an event
/// of this engine's namespace.
pub open spec fn event_names(ids: Seq<Seq<char>>) -> Seq<Seq<char>> {
    if ids.len() == 2 { seq![ids[0] + " "@ + ids[1]] } else { ids }
}

/// The engine after an attribute with content `content` is applied, or the
/// error when it is not.
pub open spec fn apply_attribute(e: EngineView, a: EngineAttribute, content: Seq<char>) -> Result<EngineView, EngineError> {
    match a {
        EngineAttribute::Event => Ok(with_transition(e, Transition::Start, event_names(idents(content)))),
        EngineAttribute::Once => Ok(with_transition(e, Transition::Once, idents(content))),
        EngineAttribute::Start => Ok(with_transition(e, Transition::Start, idents(content))),
        EngineAttribute::Select => Ok(with_transition(e, Transition::Select, idents(content))),
        EngineAttribute::Spawn => Ok(with_transition(e, Transition::Spawn, idents(content))),
        EngineAttribute::Buffer => Ok(with_transition(e, Transition::Buffer, idents(content))),
        EngineAttribute::Exit => Ok(with_lifecycle(e, Lifecycle::Exit, None)),
        EngineAttribute::Loop => Ok(with_lifecycle(e, Lifecycle::Loop, None)),
        EngineAttribute::Next => Ok(with_lifecycle(e, Lifecycle::Next, Some(seq![content]))),
        EngineAttribute::Fork => Ok(with_lifecycle(e, Lifecycle::Fork, Some(idents(content)))),
        EngineAttribute::Repeat => if content.len() == 0 {
            Ok(with_lifecycle(e, Lifecycle::Loop, None))
        } else if reads_as_usize(content) {
            Ok(with_lifecycle(e, Lifecycle::Repeat(digits_value(unsigned_digits(content)) as usize), None))
        } else {
            Err(EngineError::InvalidRepeatCount)
        },
    }
}

impl Engine {
    /// Creates a new engine component w/ start,
    pub fn new(start: Entity) -> (e: Engine)
        ensures
            e@ == (EngineView { start: Some(start), limit: None, transitions: Seq::empty(), lifecycle: None }),
    {
        let e = Engine { start: Some(start), limit: None, transitions: Vec::new(), lifecycle: None };
        assert(e@.transitions =~= Seq::<(Transition, Seq<Seq<char>>)>::empty());
        e
    }

    /// Creates an engine with nothing configured.
    pub fn empty() -> (e: Engine)
        ensures
            e@ == (EngineView { start: None, limit: None, transitions: Seq::empty(), lifecycle: None }),
    {
        let e = Engine { start: None, limit: None, transitions: Vec::new(), lifecycle: None };
        assert(e@.transitions =~= Seq::<(Transition, Seq<Seq<char>>)>::empty());
        e
    }

    /// Returns the start of the engine,
    pub fn start(&self) -> (s: Option<Entity>)
        ensures
            s == self@.start,
    {
        self.start
    }

    /// Returns the limit of this engine, if any
    pub fn limit(&self) -> (l: Option<Limit>)
        ensures
            l == self@.limit,
    {
        self.limit
    }

    /// Returns the transitions, in the order they were added,
    pub fn iter_transitions(&self) -> (t: &Vec<(Transition, Vec<String>)>)
        ensures
            transitions_view(t@) == self@.transitions,
    {
        &self.transitions
    }

    /// Returns the lifecycle action, if one is set,
    pub fn lifecycle_action(&self) -> (l: Option<Lifecycle>)
        ensures
            l == (match self@.lifecycle { Some(p) => Some(p.0), None => None::<Lifecycle> }),
    {
        match &self.lifecycle {
            Some((l, _)) => Some(*l),
            None => None,
        }
    }

    /// Adds a transition to the engine; once a lifecycle action is set, the
    /// transitions no longer change.
    pub fn add_transition(&mut self, transition: Transition, events: Vec<String>)
        ensures
            final(self)@ == with_transition(old(self)@, transition, strings_view(events@)),
    {
        if self.lifecycle.is_none() {
            self.transitions.push((transition, events));
            assert(self@.transitions =~= old(self)@.transitions.push((transition, strings_view(events@))));
        }
    }

    /// Sets a lifecycle action for this engine,
    pub fn set_lifecycle(&mut self, lifecycle: Lifecycle, engines: Option<Vec<String>>)
        ensures
            final(self)@ == with_lifecycle(old(self)@, lifecycle, names_view(engines)),
    {
        if let Lifecycle::Repeat(limit) = lifecycle {
            self.limit = Some(Limit(limit));
        }
        self.lifecycle = Some((lifecycle, engines));
    }

    /// Applies an engine attribute with its content, as the runmd parser does for
    /// `.event`, `.once`, `.start`, `.select`, `.spawn`, `.buffer`, `.exit`, `.loop`,
    /// `.next`, `.fork` and `.repeat`.
    pub fn apply(&mut self, attribute: EngineAttribute, content: &str) -> (r: Result<(), EngineError>)
        ensures
            match apply_attribute(old(self)@, attribute, content@) {
                Ok(e) => r is Ok && final(self)@ == e,
                Err(err) => r == Err::<(), EngineError>(err) && final(self)@ == old(self)@,
            },
    {
        match attribute {
            EngineAttribute::Event => {
                let ids = parse_idents(content);
                if ids.len() == 2 {
                    let mut n = ids[0].clone();
                    n.append(" ");
                    n.append(ids[1].as_str());
                    let mut v: Vec<String> = Vec::new();
                    v.push(n);
                    proof {
                        reveal_strlit(" ");
                        assert(strings_view(v@) =~= event_names(strings_view(ids@)));
                    }
                    self.add_transition(Transition::Start, v)
                } else {
                    self.add_transition(Transition::Start, ids)
                }
            },
            EngineAttribute::Once => self.add_transition(Transition::Once, parse_idents(content)),
            EngineAttribute::Start => self.add_transition(Transition::Start, parse_idents(content)),
            EngineAttribute::Select => self.add_transition(Transition::Select, parse_idents(content)),
            EngineAttribute::Spawn => self.add_transition(Transition::Spawn, parse_idents(content)),
            EngineAttribute::Buffer => self.add_transition(Transition::Buffer, parse_idents(content)),
            EngineAttribute::Exit => self.set_lifecycle(Lifecycle::Exit, None),
            EngineAttribute::Loop => self.set_lifecycle(Lifecycle::Loop, None),
            EngineAttribute::Next => {
                let mut v: Vec<String> = Vec::new();
                v.push(content.to_owned());
                assert(strings_view(v@) =~= seq![content@]);
                self.set_lifecycle(Lifecycle::Next, Some(v));
            },
            EngineAttribute::Fork => self.set_lifecycle(Lifecycle::Fork, Some(parse_idents(content))),
            EngineAttribute::Repeat => if content.is_empty() {
                self.set_lifecycle(Lifecycle::Loop, None)
            } else {
                match parse_usize(content) {
                    Some(count) => self.set_lifecycle(Lifecycle::Repeat(count), None),
                    None => return Err(EngineError::InvalidRepeatCount),
                }
            },
        }
        Ok(())
    }

    /// Applies the engine attribute named `name` with its content.
    pub fn apply_named(&mut self, name: &str, content: &str) -> (r: Result<(), EngineError>)
        ensures
            match engine_attribute_named(name@) {
                Some(a) => match apply_attribute(old(self)@, a, content@) {
                    Ok(e) => r is Ok && final(self)@ == e,
                    Err(err) => r == Err::<(), EngineError>(err) && final(self)@ == old(self)@,
                },
                None => r == Err::<(), EngineError>(EngineError::UnknownAttribute) && final(self)@ == old(self)@,
            },
    {
        match EngineAttribute::named(name) {
            Some(a) => self.apply(a, content),
            None => Err(EngineError::UnknownAttribute),
        }
    }
}


/// Names of the blocks in a world and their entities.
#[derive(Debug, Clone, Default)]
pub struct BlockList {
    entries: Vec<(String, Entity)>,
}

pub open spec fn block_entries_view(v: Seq<(String, Entity)>) -> Seq<(Seq<char>, Entity)> {
    v.map_values(|p: (String, Entity)| (p.0@, p.1))
}

impl View for BlockList {
    type V = Seq<(Seq<char>, Entity)>;

    closed spec fn view(&self) -> Seq<(Seq<char>, Entity)> {
        block_entries_view(self.entries@)
    }
}

impl BlockList {
    /// Creates an empty list.
    pub fn new() -> (b: BlockList)
        ensures
            b@ == Seq::<(Seq<char>, Entity)>::empty(),
    {
        let b = BlockList { entries: Vec::new() };
        assert(b@ =~= Seq::<(Seq<char>, Entity)>::empty());
        b
    }

    /// Names a block: the name now finds `entity`.
    pub fn insert(&mut self, name: String, entity: Entity)
        ensures
            final(self)@ == key_upsert(old(self)@, name@, entity),
    {
        proof {
            lemma_key_position(self@, name@);
        }
        let ghost key = name@;
        match self.position(name.as_str()) {
            Some(i) => {
                self.entries.set(i, (name, entity));
                assert(self@ =~= key_upsert(old(self)@, key, entity));
            },
            None => {
                self.entries.push((name, entity));
                assert(self@ =~= key_upsert(old(self)@, key, entity));
            },
        }
    }

    fn position(&self, name: &str) -> (r: Option<usize>)
        ensures
            r is Some <==> has_key(self@, name@),
            r matches Some(i) ==> i as int == key_position(self@, name@) && i < self@.len(),
    {
        proof {
            lemma_key_position(self@, name@);
        }
        let mut i: usize = 0;
        while i < self.entries.len()
            invariant
                i <= self.entries@.len(),
                forall|j: int| 0 <= j < i ==> #[trigger] self@[j].0 != name@,
            decreases self.entries@.len() - i,
        {
            if same_text(self.entries[i].0.as_str(), name) {
                assert(first_key(self@, name@, i as int));
                return Some(i);
            }
            i = i + 1;
        }
        None
    }

    /// Finds the entity of the block named `name`.
    pub fn find(&self, name: &str) -> (r: Option<Entity>)
        ensures
            r == key_lookup(self@, name@),
    {
        match self.position(name) {
            Some(i) => Some(self.entries[i].1),
            None => None,
        }
    }
}

/// A sequence of events, and the entities it continues to when it ends.
#[derive(Debug, Clone, Default)]
pub struct Sequence {
    events: Vec<Entity>,
    cursor: Vec<Entity>,
}

pub struct SequenceView {
    pub events: Seq<Entity>,
    pub cursor: Seq<Entity>,
}

impl View for Sequence {
    type V = SequenceView;

    closed spec fn view(&self) -> SequenceView {
        SequenceView { events: self.events@, cursor: self.cursor@ }
    }
}

impl Sequence {
    /// Creates an empty sequence.
    pub fn new() -> (s: Sequence)
        ensures
            s@.events == Seq::<Entity>::empty(),
            s@.cursor == Seq::<Entity>::empty(),
    {
        Sequence { events: Vec::new(), cursor: Vec::new() }
    }

    /// Returns a copy of this sequence.
    pub fn duplicate(&self) -> (s: Sequence)
        ensures
            s@ == self@,
    {
        let s = Sequence { events: self.events.clone(), cursor: self.cursor.clone() };
        assert(s.events@ =~= self.events@);
        assert(s.cursor@ =~= self.cursor@);
        s
    }

    /// Adds an event at the end of the sequence.
    pub fn add(&mut self, event: Entity)
        ensures
            final(self)@.events == old(self)@.events.push(event),
            final(self)@.cursor == old(self)@.cursor,
    {
        self.events.push(event);
    }

    /// Adds an entity to continue to when the sequence ends.
    pub fn set_cursor(&mut self, next: Entity)
        ensures
            final(self)@.events == old(self)@.events,
            final(self)@.cursor == old(self)@.cursor.push(next),
    {
        self.cursor.push(next);
    }

    /// Returns the events of the sequence, in order.
    pub fn events(&self) -> (e: &Vec<Entity>)
        ensures
            e@ == self@.events,
    {
        &self.events
    }

    /// Returns the entities the sequence continues to.
    pub fn cursor(&self) -> (c: &Vec<Entity>)
        ensures
            c@ == self@.cursor,
    {
        &self.cursor
    }
}

/// The block an event named `name` is found in: `name` followed by `suffix`,
/// or `name` itself when it already names a block with its symbol (it holds
/// a space, as `.event <name> <symbol>` writes it).
pub open spec fn event_key(name: Seq<char>, suffix: Seq<char>) -> Seq<char> {
    if name.contains(' ') { name } else { name + suffix }
}

/// The entities of the blocks that the events `names` are found in (see
/// [`event_key`]), in order; names that no block has are skipped.
pub open spec fn resolve_events(blocks: Seq<(Seq<char>, Entity)>, names: Seq<Seq<char>>, suffix: Seq<char>) -> Seq<Entity>
    decreases names.len(),
{
    if names.len() == 0 {
        Seq::empty()
    } else {
        let rest = resolve_events(blocks, names.drop_last(), suffix);
        match key_lookup(blocks, event_key(names.last(), suffix)) {
            Some(e) => rest.push(e),
            None => rest,
        }
    }
}

/// The events each transition of `ts` starts, with that transition, in order.
pub open spec fn assigned_events(
    blocks: Seq<(Seq<char>, Entity)>,
    ts: Seq<(Transition, Seq<Seq<char>>)>,
    suffix: Seq<char>,
) -> Seq<(Entity, Transition)>
    decreases ts.len(),
{
    if ts.len() == 0 {
        Seq::empty()
    } else {
        let t = ts.last().0;
        assigned_events(blocks, ts.drop_last(), suffix)
            + resolve_events(blocks, ts.last().1, suffix).map_values(|e: Entity| (e, t))
    }
}

/// Where a control block continues, by its lifecycle action: a next engine
/// continues to the first named engine found, a fork to every one found, a
/// loop or a repeat to the block itself.
pub open spec fn lifecycle_cursor(
    blocks: Seq<(Seq<char>, Entity)>,
    lifecycle: Option<(Lifecycle, Option<Seq<Seq<char>>>)>,
    block: Entity,
) -> Seq<Entity> {
    match lifecycle {
        Some((Lifecycle::Next, Some(names))) => {
            let found = resolve_events(blocks, names, Seq::empty());
            if found.len() > 0 { seq![found[0]] } else { Seq::empty() }
        },
        Some((Lifecycle::Fork, Some(names))) => resolve_events(blocks, names, Seq::empty()),
        Some((Lifecycle::Loop, _)) => seq![block],
        Some((Lifecycle::Repeat(_), _)) => seq![block],
        _ => Seq::empty(),
    }
}

/// What interpreting a control block yields.
pub struct ControlPlan {
    /// The events of the engine and where it continues,
    pub sequence: Sequence,
    /// Each event found, with the transition that starts it,
    pub assignments: Vec<(Entity, Transition)>,
}

proof fn lemma_resolve_suffix_eq(blocks: Seq<(Seq<char>, Entity)>, names: Seq<Seq<char>>, k: int, suffix: Seq<char>)
    requires
        0 <= k < names.len(),
    ensures
        resolve_events(blocks, names.subrange(0, k + 1), suffix)
            == (match key_lookup(blocks, event_key(names[k], suffix)) {
                Some(e) => resolve_events(blocks, names.subrange(0, k), suffix).push(e),
                None => resolve_events(blocks, names.subrange(0, k), suffix),
            }),
{
    assert(names.subrange(0, k + 1).drop_last() =~= names.subrange(0, k));
}

impl Engine {
    /// Finds the entity for a block,
    pub fn find_block(blocks: &BlockList, expression: &str) -> (r: Option<Entity>)
        ensures
            r == key_lookup(blocks@, expression@),
    {
        blocks.find(expression)
    }

    /// Interprets the control block `block`, whose symbol is `symbol`: each
    /// event `{name} {symbol}` of each transition that names a block is given
    /// that transition and added to the sequence, the first of them becomes the
    /// engine's start if it has none, and the lifecycle action sets where the
    /// sequence continues.
    pub fn interpret(&mut self, block: Entity, symbol: &str, blocks: &BlockList) -> (plan: ControlPlan)
        ensures
            ({
                let suffix = " "@ + symbol@;
                let assigned = assigned_events(blocks@, old(self)@.transitions, suffix);
                &&& plan.assignments@ == assigned
                &&& plan.sequence@.events == assigned.map_values(|p: (Entity, Transition)| p.0)
                &&& plan.sequence@.cursor == lifecycle_cursor(blocks@, old(self)@.lifecycle, block)
                &&& final(self)@ == EngineView {
                    start: if old(self)@.start is Some { old(self)@.start }
                        else if assigned.len() > 0 { Some(assigned[0].0) }
                        else { None },
                    ..old(self)@
                }
            }),
    {
        let ghost suffix = " "@ + symbol@;
        let mut sequence = Sequence::new();
        let mut assignments: Vec<(Entity, Transition)> = Vec::new();
        let mut t: usize = 0;
        let n = self.transitions.len();
        while t < n
            invariant
                t <= n,
                n == self.transitions@.len(),
                self@ == (EngineView { start: self@.start, ..old(self)@ }),
                self.transitions == old(self).transitions,
                suffix == " "@ + symbol@,
                assignments@ == assigned_events(blocks@, old(self)@.transitions.subrange(0, t as int), suffix),
                sequence@.events == assignments@.map_values(|p: (Entity, Transition)| p.0),
                sequence@.cursor == Seq::<Entity>::empty(),
                self@.start == (if old(self)@.start is Some { old(self)@.start }
                    else if assignments@.len() > 0 { Some(assignments@[0].0) } else { None }),
            decreases n - t,
        {
            let transition = self.transitions[t].0;
            let ghost names = old(self)@.transitions[t as int].1;
            let ghost base = assignments@;
            let mut j: usize = 0;
            let m = self.transitions[t].1.len();
            while j < m
                invariant
                    j <= m,
                    t < n,
                    n == self.transitions@.len(),
                    self.transitions == old(self).transitions,
                    suffix == " "@ + symbol@,
                    self@ == (EngineView { start: self@.start, ..old(self)@ }),
                    m == self.transitions@[t as int].1@.len(),
                    names == strings_view(self.transitions@[t as int].1@),
                    transition == self.transitions@[t as int].0,
                    assignments@ == base + resolve_events(blocks@, names.subrange(0, j as int), suffix)
                        .map_values(|e: Entity| (e, transition)),
                    sequence@.events == assignments@.map_values(|p: (Entity, Transition)| p.0),
                    sequence@.cursor == Seq::<Entity>::empty(),
                    self@.start == (if old(self)@.start is Some { old(self)@.start }
                        else if assignments@.len() > 0 { Some(assignments@[0].0) } else { None }),
                decreases m - j,
            {
                let mut key = self.transitions[t].1[j].clone();
                if !has_space(key.as_str()) {
                    key.append(" ");
                    key.append(symbol);
                }
                proof {
                    lemma_resolve_suffix_eq(blocks@, names, j as int, suffix);
                    assert(key@ =~= event_key(names[j as int], suffix));
                }
                match Engine::find_block(blocks, key.as_str()) {
                    Some(event) => {
                        let ghost prev = assignments@;
                        assignments.push((event, transition));
                        sequence.add(event);
                        if self.start.is_none() {
                            self.start = Some(event);
                        }
                        assert(assignments@.map_values(|p: (Entity, Transition)| p.0)
                            =~= prev.map_values(|p: (Entity, Transition)| p.0).push(event));
                        assert(resolve_events(blocks@, names.subrange(0, j + 1 as int), suffix).map_values(|e: Entity| (e, transition))
                            =~= resolve_events(blocks@, names.subrange(0, j as int), suffix).map_values(|e: Entity| (e, transition)).push((event, transition)));
                        assert(assignments@ =~= base + resolve_events(blocks@, names.subrange(0, j + 1 as int), suffix)
                            .map_values(|e: Entity| (e, transition)));
                    },
                    None => {},
                }
                j = j + 1;
            }
            proof {
                let ts = old(self)@.transitions;
                assert(ts.subrange(0, t + 1 as int).drop_last() =~= ts.subrange(0, t as int));
                assert(names.subrange(0, m as int) =~= names);
                assert(ts[t as int] == (transition, names));
            }
            t = t + 1;
        }
        assert(old(self)@.transitions.subrange(0, n as int) =~= old(self)@.transitions);
        let ghost assigned = assignments@;
        match &self.lifecycle {
            Some((Lifecycle::Next, Some(engines))) => {
                let mut j: usize = 0;
                let mut first: Option<Entity> = None;
                let ghost names = strings_view(engines@);
                while j < engines.len() && first.is_none()
                    invariant
                        j <= engines@.len(),
                        names == strings_view(engines@),
                        first is None ==> resolve_events(blocks@, names.subrange(0, j as int), Seq::empty()).len() == 0,
                        first matches Some(e) ==> resolve_events(blocks@, names, Seq::empty()).len() > 0
                            && resolve_events(blocks@, names, Seq::empty())[0] == e,
                    decreases engines@.len() - j,
                {
                    proof {
                        lemma_resolve_suffix_eq(blocks@, names, j as int, Seq::empty());
                        assert(engines@[j as int]@ + Seq::<char>::empty() =~= engines@[j as int]@);
                        assert(event_key(names[j as int], Seq::empty()) == engines@[j as int]@);
                    }
                    match Engine::find_block(blocks, engines[j].as_str()) {
                        Some(e) => {
                            proof {
                                lemma_resolve_prefix_first(blocks@, names, j + 1, Seq::empty());
                            }
                            first = Some(e);
                        },
                        None => {},
                    }
                    j = j + 1;
                }
                match first {
                    Some(e) => {
                        sequence.set_cursor(e);
                        assert(sequence@.cursor =~= seq![e]);
                    },
                    None => {
                        assert(names.subrange(0, engines@.len() as int) =~= names);
                    },
                }
            },
            Some((Lifecycle::Fork, Some(engines))) => {
                let mut j: usize = 0;
                let ghost names = strings_view(engines@);
                while j < engines.len()
                    invariant
                        j <= engines@.len(),
                        names == strings_view(engines@),
                        sequence@.cursor == resolve_events(blocks@, names.subrange(0, j as int), Seq::empty()),
                        sequence@.events == assigned.map_values(|p: (Entity, Transition)| p.0),
                    decreases engines@.len() - j,
                {
                    proof {
                        lemma_resolve_suffix_eq(blocks@, names, j as int, Seq::empty());
                        assert(engines@[j as int]@ + Seq::<char>::empty() =~= engines@[j as int]@);
                        assert(event_key(names[j as int], Seq::empty()) == engines@[j as int]@);
                    }
                    match Engine::find_block(blocks, engines[j].as_str()) {
                        Some(e) => sequence.set_cursor(e),
                        None => {},
                    }
                    j = j + 1;
                }
                assert(names.subrange(0, engines@.len() as int) =~= names);
            },
            Some((Lifecycle::Loop, _)) | Some((Lifecycle::Repeat(_), _)) => {
                sequence.set_cursor(block);
                assert(sequence@.cursor =~= seq![block]);
            },
            _ => {},
        }
        ControlPlan { sequence, assignments }
    }

    /// Interprets a block of the project with its engine: the root block (no
    /// name, no symbol) is skipped; a control block (a symbol and no name) is
    /// interpreted as [`Engine::interpret`] does; any other block is an event,
    /// which takes the block's name.
    pub fn interpret_block(&mut self, block: Entity, name: &str, symbol: &str, blocks: &BlockList) -> (step: BlockStep)
        ensures
            name@.len() == 0 && symbol@.len() == 0 ==> step is Root && final(self)@ == old(self)@,
            name@.len() > 0 ==> (step matches BlockStep::Event(n) && n@ == name@ && final(self)@ == old(self)@),
            name@.len() == 0 && symbol@.len() > 0 ==> (step matches BlockStep::Control(plan) && ({
                let suffix = " "@ + symbol@;
                let assigned = assigned_events(blocks@, old(self)@.transitions, suffix);
                &&& plan.assignments@ == assigned
                &&& plan.sequence@.events == assigned.map_values(|p: (Entity, Transition)| p.0)
                &&& plan.sequence@.cursor == lifecycle_cursor(blocks@, old(self)@.lifecycle, block)
                &&& final(self)@ == EngineView {
                    start: if old(self)@.start is Some { old(self)@.start }
                        else if assigned.len() > 0 { Some(assigned[0].0) }
                        else { None },
                    ..old(self)@
                }
            })),
    {
        if name.unicode_len() > 0 {
            BlockStep::Event(name.to_string())
        } else if symbol.unicode_len() == 0 {
            BlockStep::Root
        } else {
            BlockStep::Control(self.interpret(block, symbol, blocks))
        }
    }
}

/// What interpreting a block of the project gives.
pub enum BlockStep {
    /// The root block, which nothing is done for,
    Root,
    /// A control block, and the plan of its engine,
    Control(ControlPlan),
    /// An event block, and the name its event takes,
    Event(String),
}

/// When the first `k` names already resolve to one entity, the first entity
/// resolved from all of them is that one.
proof fn lemma_resolve_prefix_first(blocks: Seq<(Seq<char>, Entity)>, names: Seq<Seq<char>>, k: int, suffix: Seq<char>)
    requires
        0 <= k <= names.len(),
        resolve_events(blocks, names.subrange(0, k), suffix).len() > 0,
    ensures
        resolve_events(blocks, names, suffix).len() > 0,
        resolve_events(blocks, names, suffix)[0] == resolve_events(blocks, names.subrange(0, k), suffix)[0],
    decreases names.len() - k,
{
    if k < names.len() {
        lemma_resolve_suffix_eq(blocks, names, k, suffix);
        lemma_resolve_prefix_first(blocks, names, k + 1, suffix);
    } else {
        assert(names.subrange(0, k) =~= names);
    }
}


/// Once a lifecycle action is set, adding a transition changes nothing.
pub proof fn law_transitions_fixed_after_lifecycle(e: EngineView, t: Transition, events: Seq<Seq<char>>)
    requires
        e.lifecycle is Some,
    ensures
        with_transition(e, t, events) == e,
{
}

/// `.repeat <count>` sets the engine to repeat `count` times: its limit is the
/// count, and its lifecycle action is the repeat.
pub proof fn law_repeat_sets_limit(e: EngineView, content: Seq<char>)
    requires
        reads_as_usize(content),
    ensures
        apply_attribute(e, EngineAttribute::Repeat, content) matches Ok(r)
            && r.limit == Some(Limit(digits_value(unsigned_digits(content)) as usize))
            && r.lifecycle == Some((Lifecycle::Repeat(digits_value(unsigned_digits(content)) as usize), None::<Seq<Seq<char>>>))
            && r.transitions == e.transitions,
{
}

/// A repeat count that does not read as a number is refused, and the engine is kept.
pub proof fn law_bad_repeat_refused(e: EngineView, content: Seq<char>)
    requires
        content.len() > 0,
        !reads_as_usize(content),
    ensures
        apply_attribute(e, EngineAttribute::Repeat, content) == Err::<EngineView, EngineError>(EngineError::InvalidRepeatCount),
{
}

/// `.repeat` without a count repeats forever: the engine loops back to itself.
pub proof fn law_repeat_without_count_loops(blocks: Seq<(Seq<char>, Entity)>, e: EngineView, block: Entity)
    ensures
        apply_attribute(e, EngineAttribute::Repeat, Seq::empty()) matches Ok(r)
            && r.lifecycle == Some((Lifecycle::Loop, None::<Seq<Seq<char>>>))
            && r.limit == e.limit
            && lifecycle_cursor(blocks, r.lifecycle, block) == seq![block],
{
}

/// `.fork a, b` continues the engine to every listed engine that exists, in
/// order, and `.next a` to the first listed engine that exists.
pub proof fn law_fork_and_next_cursor(blocks: Seq<(Seq<char>, Entity)>, e: EngineView, content: Seq<char>, block: Entity)
    ensures
        apply_attribute(e, EngineAttribute::Fork, content) matches Ok(f)
            && lifecycle_cursor(blocks, f.lifecycle, block) == resolve_events(blocks, idents(content), Seq::empty()),
        apply_attribute(e, EngineAttribute::Next, content) matches Ok(n)
            && lifecycle_cursor(blocks, n.lifecycle, block) == resolve_events(blocks, seq![content], Seq::empty()),
        apply_attribute(e, EngineAttribute::Loop, content) matches Ok(l)
            && lifecycle_cursor(blocks, l.lifecycle, block) == seq![block],
        apply_attribute(e, EngineAttribute::Exit, content) matches Ok(x)
            && lifecycle_cursor(blocks, x.lifecycle, block) == Seq::<Entity>::empty(),
{
    let found = resolve_events(blocks, seq![content], Seq::empty());
    assert(seq![content].drop_last() =~= Seq::<Seq<char>>::empty());
    assert(resolve_events(blocks, Seq::<Seq<char>>::empty(), Seq::empty()).len() == 0);
    assert(found.len() <= 1);
    if found.len() > 0 {
        assert(seq![found[0]] =~= found);
    } else {
        assert(found =~= Seq::<Entity>::empty());
    }
}

/// An engine that declares one event under one transition, whose block is
/// found in the control block's namespace, starts exactly that block, under
/// that transition, whatever the transition is.
pub proof fn law_event_keeps_its_transition(blocks: Seq<(Seq<char>, Entity)>, t: Transition, name: Seq<char>, symbol: Seq<char>, b: Entity)
    requires
        !name.contains(' '),
        key_lookup(blocks, name + " "@ + symbol) == Some(b),
    ensures
        assigned_events(blocks, seq![(t, seq![name])], " "@ + symbol) == seq![(b, t)],
{
    let suffix = " "@ + symbol;
    let ts = seq![(t, seq![name])];
    assert(ts.drop_last() =~= Seq::<(Transition, Seq<Seq<char>>)>::empty());
    assert(seq![name].drop_last() =~= Seq::<Seq<char>>::empty());
    assert(name + " "@ + symbol =~= name + suffix);
    assert(event_key(name, suffix) == name + suffix);
    let r = resolve_events(blocks, seq![name], suffix);
    assert(seq![name].last() == name);
    assert(resolve_events(blocks, Seq::<Seq<char>>::empty(), suffix) =~= Seq::<Entity>::empty());
    assert(key_lookup(blocks, event_key(seq![name].last(), suffix)) == Some(b));
    assert(r =~= Seq::<Entity>::empty().push(b));
    assert(r =~= seq![b]);
    assert(assigned_events(blocks, Seq::empty(), suffix) =~= Seq::<(Entity, Transition)>::empty());
    assert(r.map_values(|e: Entity| (e, t)) =~= seq![(b, t)]);
    assert(Seq::<(Entity, Transition)>::empty() + seq![(b, t)] =~= seq![(b, t)]);
}

/// Every event a control block starts carries a transition its engine
/// declared, and is one of the blocks that transition names.
pub proof fn law_assignments_carry_declared_transitions(blocks: Seq<(Seq<char>, Entity)>, ts: Seq<(Transition, Seq<Seq<char>>)>, suffix: Seq<char>)
    ensures
        forall|k: int| 0 <= k < assigned_events(blocks, ts, suffix).len() ==> exists|i: int| 0 <= i < ts.len()
            && (#[trigger] assigned_events(blocks, ts, suffix)[k]).1 == ts[i].0
            && resolve_events(blocks, ts[i].1, suffix).contains(assigned_events(blocks, ts, suffix)[k].0),
    decreases ts.len(),
{
    if ts.len() > 0 {
        let init = ts.drop_last();
        law_assignments_carry_declared_transitions(blocks, init, suffix);
        let a0 = assigned_events(blocks, init, suffix);
        let last_kind = ts.last().0;
        let r = resolve_events(blocks, ts.last().1, suffix);
        let m = r.map_values(|e: Entity| (e, last_kind));
        let a = assigned_events(blocks, ts, suffix);
        assert(a == a0 + m);
        assert forall|k: int| 0 <= k < a.len() implies exists|i: int| 0 <= i < ts.len()
            && (#[trigger] a[k]).1 == ts[i].0
            && resolve_events(blocks, ts[i].1, suffix).contains(a[k].0) by {
            if k < a0.len() {
                assert(a[k] == a0[k]);
                let i = choose|i: int| 0 <= i < init.len() && (#[trigger] a0[k]).1 == init[i].0
                    && resolve_events(blocks, init[i].1, suffix).contains(a0[k].0);
                assert(ts[i] == init[i]);
            } else {
                let j = k - a0.len();
                assert(a[k] == m[j]);
                assert(m[j] == (r[j], last_kind));
                assert(r.contains(r[j]));
                assert(ts[ts.len() - 1] == ts.last());
            }
        }
    }
}

/// Each transition attribute adds one transition of its own kind, carrying the
/// events its content lists, to an engine that has no lifecycle action yet:
/// `.once`, `.start`, `.select`, `.spawn` and `.buffer` are read by those
/// names and give the transitions of the same names.
pub proof fn law_transition_attributes_keep_their_kind(e: EngineView, content: Seq<char>)
    requires
        e.lifecycle is None,
    ensures
        engine_attribute_named("once"@) == Some(EngineAttribute::Once),
        engine_attribute_named("start"@) == Some(EngineAttribute::Start),
        engine_attribute_named("select"@) == Some(EngineAttribute::Select),
        engine_attribute_named("spawn"@) == Some(EngineAttribute::Spawn),
        engine_attribute_named("buffer"@) == Some(EngineAttribute::Buffer),
        apply_attribute(e, EngineAttribute::Once, content)
            == Ok::<EngineView, EngineError>(EngineView { transitions: e.transitions.push((Transition::Once, idents(content))), ..e }),
        apply_attribute(e, EngineAttribute::Start, content)
            == Ok::<EngineView, EngineError>(EngineView { transitions: e.transitions.push((Transition::Start, idents(content))), ..e }),
        apply_attribute(e, EngineAttribute::Select, content)
            == Ok::<EngineView, EngineError>(EngineView { transitions: e.transitions.push((Transition::Select, idents(content))), ..e }),
        apply_attribute(e, EngineAttribute::Spawn, content)
            == Ok::<EngineView, EngineError>(EngineView { transitions: e.transitions.push((Transition::Spawn, idents(content))), ..e }),
        apply_attribute(e, EngineAttribute::Buffer, content)
            == Ok::<EngineView, EngineError>(EngineView { transitions: e.transitions.push((Transition::Buffer, idents(content))), ..e }),
{
    reveal_strlit("event");
    reveal_strlit("once");
    reveal_strlit("start");
    reveal_strlit("select");
    reveal_strlit("spawn");
    reveal_strlit("buffer");
    assert("start"@ != "event"@ && "start"@ != "once"@) by {
        assert("start"@[0] != "event"@[0]);
        assert("start"@[0] != "once"@[0]);
    }
    assert("select"@ != "event"@ && "select"@ != "once"@ && "select"@ != "start"@) by {
        assert("select"@[0] != "event"@[0]);
        assert("select"@[0] != "once"@[0]);
        assert("select"@[1] != "start"@[1]);
    }
    assert("spawn"@ != "event"@ && "spawn"@ != "once"@ && "spawn"@ != "start"@ && "spawn"@ != "select"@) by {
        assert("spawn"@[0] != "event"@[0]);
        assert("spawn"@[0] != "once"@[0]);
        assert("spawn"@[1] != "start"@[1]);
        assert("spawn"@[1] != "select"@[1]);
    }
    assert("buffer"@ != "event"@ && "buffer"@ != "once"@ && "buffer"@ != "start"@ && "buffer"@ != "select"@ && "buffer"@ != "spawn"@) by {
        assert("buffer"@[0] != "event"@[0]);
        assert("buffer"@[0] != "once"@[0]);
        assert("buffer"@[0] != "start"@[0]);
        assert("buffer"@[0] != "select"@[0]);
        assert("buffer"@[0] != "spawn"@[0]);
    }
    assert("once"@ != "event"@) by {
        assert("once"@[0] != "event"@[0]);
    }
}

} // verus!
