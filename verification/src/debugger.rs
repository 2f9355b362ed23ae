use vstd::prelude::*;
use crate::entity::Entity;
use crate::attributes::{Value, ValueView};
use crate::appendix::{Appendix, AppendixView, name_by_id_spec};
use crate::keyed::{key_lookup, key_position, first_key, has_key, lemma_key_position};
use crate::order::{group_all, groups_sorted, groups_view, group_of, texts_view};
use crate::text::same_text;

verus! {

/// A status update: the entity it is about, its progress (the bit pattern of
/// an `f32`) and its message.
#[derive(Debug, Clone)]
pub struct StatusUpdate {
    pub entity: Entity,
    pub progress: u32,
    pub message: String,
}

pub struct StatusUpdateView {
    pub entity: Entity,
    pub progress: u32,
    pub message: Seq<char>,
}

impl View for StatusUpdate {
    type V = StatusUpdateView;

    open spec fn view(&self) -> StatusUpdateView {
        StatusUpdateView { entity: self.entity, progress: self.progress, message: self.message@ }
    }
}

impl StatusUpdate {
    /// Returns a copy of this update.
    pub fn duplicate(&self) -> (u: StatusUpdate)
        ensures
            u@ == self@,
    {
        StatusUpdate { entity: self.entity, progress: self.progress, message: self.message.clone() }
    }
}

pub open spec fn updates_view(v: Seq<StatusUpdate>) -> Seq<StatusUpdateView> {
    v.map_values(|u: StatusUpdate| u@)
}

/// Value of a block property.
#[derive(Debug, Clone)]
pub enum PropertyValue {
    Single(Value),
    List(Vec<Value>),
    Empty,
}

/// Mathematical form of a [`PropertyValue`].
pub enum PropertyValueView {
    Single(ValueView),
    List(Seq<ValueView>),
    Empty,
}

pub open spec fn values_view(v: Seq<Value>) -> Seq<ValueView> {
    v.map_values(|x: Value| x@)
}

impl View for PropertyValue {
    type V = PropertyValueView;

    open spec fn view(&self) -> PropertyValueView {
        match self {
            PropertyValue::Single(v) => PropertyValueView::Single(v@),
            PropertyValue::List(vs) => PropertyValueView::List(values_view(vs@)),
            PropertyValue::Empty => PropertyValueView::Empty,
        }
    }
}

/// Named properties of a block, such as the query or the returns of a plugin call.
#[derive(Debug, Clone, Default)]
pub struct Properties {
    pub name: String,
    pub entries: Vec<(String, PropertyValue)>,
}

pub open spec fn property_entries_view(v: Seq<(String, PropertyValue)>) -> Seq<(Seq<char>, PropertyValue)> {
    v.map_values(|p: (String, PropertyValue)| (p.0@, p.1))
}

/// The integer held by the property named `name`, when it holds a single integer.
pub open spec fn property_int_spec(entries: Seq<(Seq<char>, PropertyValue)>, name: Seq<char>) -> Option<i32> {
    match key_lookup(entries, name) {
        Some(PropertyValue::Single(Value::Int(i))) => Some(i),
        _ => None,
    }
}

pub struct PropertiesView {
    pub name: Seq<char>,
    pub entries: Seq<(Seq<char>, PropertyValueView)>,
}

pub open spec fn property_values_view(v: Seq<(String, PropertyValue)>) -> Seq<(Seq<char>, PropertyValueView)> {
    v.map_values(|p: (String, PropertyValue)| (p.0@, p.1@))
}

impl View for Properties {
    type V = PropertiesView;

    open spec fn view(&self) -> PropertiesView {
        PropertiesView { name: self.name@, entries: property_values_view(self.entries@) }
    }
}

impl Properties {
    /// Returns the integer held by the property named `name`.
    pub fn property_int(&self, name: &str) -> (r: Option<i32>)
        ensures
            r == property_int_spec(property_entries_view(self.entries@), name@),
    {
        let ghost es = property_entries_view(self.entries@);
        proof {
            lemma_key_position(es, name@);
        }
        let mut i: usize = 0;
        while i < self.entries.len()
            invariant
                i <= self.entries@.len(),
                es == property_entries_view(self.entries@),
                forall|j: int| 0 <= j < i ==> #[trigger] es[j].0 != name@,
            decreases self.entries@.len() - i,
        {
            if same_text(self.entries[i].0.as_str(), name) {
                assert(first_key(es, name@, i as int));
                return match &self.entries[i].1 {
                    PropertyValue::Single(Value::Int(v)) => Some(*v),
                    _ => None,
                };
            }
            i = i + 1;
        }
        None
    }
}

/// Record of a plugin call that completed.
#[derive(Debug, Clone)]
pub struct Completion {
    /// When the call completed, in seconds since the epoch,
    pub timestamp: i64,
    /// The event the call belongs to,
    pub event: Entity,
    /// The plugin that was called,
    pub thunk: Entity,
    /// Control values of the call,
    pub control_values: Vec<(String, Value)>,
    /// Input of the call,
    pub query: Properties,
    /// Output of the call,
    pub returns: Option<Properties>,
}

pub struct CompletionView {
    pub timestamp: i64,
    pub event: Entity,
    pub thunk: Entity,
    pub control_values: Seq<(Seq<char>, ValueView)>,
    pub query: PropertiesView,
    pub returns: Option<PropertiesView>,
}

pub open spec fn named_values_view(v: Seq<(String, Value)>) -> Seq<(Seq<char>, ValueView)> {
    v.map_values(|p: (String, Value)| (p.0@, p.1@))
}

impl View for Completion {
    type V = CompletionView;

    open spec fn view(&self) -> CompletionView {
        CompletionView {
            timestamp: self.timestamp,
            event: self.event,
            thunk: self.thunk,
            control_values: named_values_view(self.control_values@),
            query: self.query@,
            returns: match self.returns { Some(r) => Some(r@), None => None },
        }
    }
}

pub open spec fn completions_view(v: Seq<Completion>) -> Seq<CompletionView> {
    v.map_values(|c: Completion| c@)
}

/// Error reported by an event.
#[derive(Debug, Clone)]
pub struct ErrorContext {
    pub entity: Entity,
    pub message: String,
}

/// Order of entities in the debugger's logs: by index, then by generation.
pub open spec fn entity_less(a: Entity, b: Entity) -> bool {
    a.index < b.index || (a.index == b.index && a.generation < b.generation)
}

/// Keys of the logs are in strictly increasing entity order.
pub open spec fn logs_sorted(l: Seq<(Entity, Seq<StatusUpdateView>)>) -> bool {
    forall|i: int, j: int| 0 <= i < j < l.len() ==> entity_less(#[trigger] l[i].0, #[trigger] l[j].0)
}

pub open spec fn logs_view(v: Seq<(Entity, Vec<StatusUpdate>)>) -> Seq<(Entity, Seq<StatusUpdateView>)> {
    v.map_values(|p: (Entity, Vec<StatusUpdate>)| (p.0, updates_view(p.1@)))
}

/// Struct for engine debugger,
pub struct Debugger {
    appendix: Appendix,
    completions: Vec<Completion>,
    status_updates: Vec<(Entity, Vec<StatusUpdate>)>,
    errors: Vec<ErrorContext>,
    status_update_limits: Option<usize>,
    completion_limits: Option<usize>,
    updated: bool,
}

pub struct DebuggerView {
    pub appendix: AppendixView,
    pub completions: Seq<Completion>,
    pub status_updates: Seq<(Entity, Seq<StatusUpdateView>)>,
    pub errors: Seq<ErrorContext>,
    pub status_update_limit: nat,
    pub completion_limit: nat,
    pub updated: bool,
}

impl View for Debugger {
    type V = DebuggerView;

    closed spec fn view(&self) -> DebuggerView {
        DebuggerView {
            appendix: self.appendix@,
            completions: self.completions@,
            status_updates: logs_view(self.status_updates@),
            errors: self.errors@,
            status_update_limit: match self.status_update_limits { Some(l) => l as nat, None => 10 },
            completion_limit: match self.completion_limits { Some(l) => l as nat, None => 1000 },
            updated: self.updated,
        }
    }
}

/// A log that keeps `limit` items, after `item` arrives: when it already holds
/// `limit` items or more, the oldest is dropped first. The newest item is always
/// kept, so a limit of zero keeps one.
pub open spec fn bounded_push<T>(log: Seq<T>, item: T, limit: nat) -> Seq<T> {
    if log.len() > 0 && log.len() >= limit { log.drop_first().push(item) } else { log.push(item) }
}

/// How many items a log with the limit `limit` holds at most.
pub open spec fn kept(limit: nat) -> nat {
    if limit == 0 { 1 } else { limit }
}

/// The log of an entity after an update.
pub open spec fn next_log(d: DebuggerView, u: StatusUpdateView) -> Seq<StatusUpdateView> {
    bounded_push(
        match key_lookup(d.status_updates, u.entity) { Some(l) => l, None => Seq::empty() },
        u,
        d.status_update_limit,
    )
}

/// The debugger's state is consistent: its logs are kept in entity order.
pub open spec fn debugger_wf(d: DebuggerView) -> bool {
    logs_sorted(d.status_updates)
}

impl Debugger {
    /// Creates a debugger with no records, and the given appendix.
    pub fn new(appendix: Appendix) -> (d: Debugger)
        ensures
            d@.appendix == appendix@,
            d@.completions == Seq::<Completion>::empty(),
            d@.status_updates == Seq::<(Entity, Seq<StatusUpdateView>)>::empty(),
            d@.errors == Seq::<ErrorContext>::empty(),
            d@.status_update_limit == 10,
            d@.completion_limit == 1000,
            !d@.updated,
            debugger_wf(d@),
    {
        let d = Debugger {
            appendix,
            completions: Vec::new(),
            status_updates: Vec::new(),
            errors: Vec::new(),
            status_update_limits: None,
            completion_limits: None,
            updated: false,
        };
        assert(d@.status_updates =~= Seq::<(Entity, Seq<StatusUpdateView>)>::empty());
        d
    }

    /// Set the update notification,
    pub fn set_update(&mut self)
        ensures
            final(self)@ == (DebuggerView { updated: true, ..old(self)@ }),
    {
        self.updated = true;
    }

    /// Takes the update notification: returns whether an update was set, and clears it.
    pub fn take_update(&mut self) -> (r: Option<()>)
        ensures
            r is Some == old(self)@.updated,
            final(self)@ == (DebuggerView { updated: false, ..old(self)@ }),
    {
        let r = if self.updated { Some(()) } else { None };
        self.updated = false;
        r
    }

    /// Returns the completions, oldest first,
    pub fn completions(&self) -> (c: &Vec<Completion>)
        ensures
            c@ == self@.completions,
    {
        &self.completions
    }

    /// Returns the errors, in the order they were reported,
    pub fn errors(&self) -> (e: &Vec<ErrorContext>)
        ensures
            e@ == self@.errors,
    {
        &self.errors
    }

    /// Returns the debugger's appendix,
    pub fn appendix(&self) -> (a: &Appendix)
        ensures
            a@ == self@.appendix,
    {
        &self.appendix
    }

    /// Sets the appendix,
    pub fn set_appendix(&mut self, appendix: Appendix)
        ensures
            final(self)@ == (DebuggerView { appendix: appendix@, ..old(self)@ }),
    {
        self.appendix = appendix;
    }

    fn log_position(&self, entity: Entity) -> (r: (usize, bool))
        requires
            debugger_wf(self@),
        ensures
            r.0 <= self@.status_updates.len(),
            forall|j: int| 0 <= j < r.0 ==> entity_less(#[trigger] self@.status_updates[j].0, entity),
            r.1 ==> r.0 < self@.status_updates.len() && self@.status_updates[r.0 as int].0 == entity,
            !r.1 ==> r.0 < self@.status_updates.len() ==> entity_less(entity, self@.status_updates[r.0 as int].0),
    {
        let mut p: usize = 0;
        while p < self.status_updates.len() && entity_before(self.status_updates[p].0, entity)
            invariant
                p <= self.status_updates@.len(),
                forall|j: int| 0 <= j < p ==> entity_less(#[trigger] self@.status_updates[j].0, entity),
            decreases self.status_updates@.len() - p,
        {
            p = p + 1;
        }
        if p < self.status_updates.len() && self.status_updates[p].0 == entity {
            (p, true)
        } else {
            (p, false)
        }
    }

    /// Returns the status log of an entity, oldest update first,
    pub fn status_log(&self, entity: Entity) -> (r: Option<Vec<StatusUpdate>>)
        requires
            debugger_wf(self@),
        ensures
            r matches Some(v) ==> key_lookup(self@.status_updates, entity) == Some(updates_view(v@)),
            r is None ==> key_lookup(self@.status_updates, entity) is None,
    {
        let ghost l = self@.status_updates;
        proof {
            lemma_key_position(l, entity);
        }
        let (p, found) = self.log_position(entity);
        if found {
            assert(first_key(l, entity, p as int));
            Some(copy_updates(&self.status_updates[p].1))
        } else {
            assert(!has_key(l, entity)) by {
                if has_key(l, entity) {
                    let i = choose|i: int| 0 <= i < l.len() && l[i].0 == entity;
                    if i > p {
                        assert(entity_less(l[p as int].0, l[i].0));
                    }
                }
            }
            None
        }
    }

    /// Returns all status logs, in entity order,
    pub fn status_logs(&self) -> (r: Vec<(Entity, Vec<StatusUpdate>)>)
        ensures
            logs_view(r@) == self@.status_updates,
    {
        let mut out: Vec<(Entity, Vec<StatusUpdate>)> = Vec::new();
        let mut i: usize = 0;
        while i < self.status_updates.len()
            invariant
                i <= self.status_updates@.len(),
                logs_view(out@) =~= logs_view(self.status_updates@).subrange(0, i as int),
            decreases self.status_updates@.len() - i,
        {
            let entry = (self.status_updates[i].0, copy_updates(&self.status_updates[i].1));
            let ghost before = out@;
            out.push(entry);
            assert(logs_view(out@) =~= logs_view(before).push((entry.0, updates_view(entry.1@))));
            i = i + 1;
        }
        assert(logs_view(self.status_updates@).subrange(0, i as int) =~= logs_view(self.status_updates@));
        out
    }

    /// Records a status update in the log of its entity. A log keeps its newest
    /// updates, as many as the limit (10 unless set): when it is full, the oldest goes.
    pub fn on_status_update(&mut self, update: StatusUpdate)
        requires
            debugger_wf(old(self)@),
        ensures
            debugger_wf(final(self)@),
            key_lookup(final(self)@.status_updates, update.entity) == Some(next_log(old(self)@, update@)),
            forall|e: Entity| e != update.entity ==> #[trigger] key_lookup(final(self)@.status_updates, e)
                == key_lookup(old(self)@.status_updates, e),
            final(self)@ == (DebuggerView { status_updates: final(self)@.status_updates, updated: true, ..old(self)@ }),
    {
        let ghost l = self@.status_updates;
        let ghost u = update@;
        let entity = update.entity;
        proof {
            lemma_key_position(l, entity);
        }
        let limit: usize = match self.status_update_limits {
            Some(n) => n,
            None => 10,
        };
        let (p, found) = self.log_position(entity);
        if found {
            assert(first_key(l, entity, p as int));
            let (k, mut log) = self.status_updates.remove(p);
            let ghost old_log = updates_view(log@);
            if log.len() > 0 && log.len() >= limit {
                log.remove(0);
                assert(updates_view(log@) =~= old_log.drop_first());
            }
            let ghost mid = updates_view(log@);
            log.push(update);
            assert(updates_view(log@) =~= mid.push(u));
            self.status_updates.insert(p, (k, log));
            proof {
                let l2 = self@.status_updates;
                assert(l2 =~= l.update(p as int, (entity, next_log(old(self)@, u))));
                assert(first_key(l2, entity, p as int));
                lemma_key_position(l2, entity);
                assert forall|e: Entity| e != entity implies #[trigger] key_lookup(l2, e) == key_lookup(l, e) by {
                    lemma_key_position(l, e);
                    lemma_key_position(l2, e);
                    if has_key(l, e) {
                        assert(first_key(l2, e, key_position(l, e)));
                    } else if has_key(l2, e) {
                        let i = choose|i: int| 0 <= i < l2.len() && l2[i].0 == e;
                        assert(l[i].0 == e);
                    }
                }
            }
        } else {
            let mut log: Vec<StatusUpdate> = Vec::new();
            log.push(update);
            self.status_updates.insert(p, (entity, log));
            proof {
                assert(!has_key(l, entity)) by {
                    if has_key(l, entity) {
                        let i = choose|i: int| 0 <= i < l.len() && l[i].0 == entity;
                        if i > p {
                            assert(entity_less(l[p as int].0, l[i].0));
                        }
                    }
                }
                assert(updates_view(log@) =~= seq![u]);
                assert(next_log(old(self)@, u) =~= seq![u]);
                let l2 = self@.status_updates;
                assert(l2 =~= l.insert(p as int, (entity, seq![u])));
                assert(first_key(l2, entity, p as int));
                lemma_key_position(l2, entity);
                assert forall|e: Entity| e != entity implies #[trigger] key_lookup(l2, e) == key_lookup(l, e) by {
                    lemma_key_position(l, e);
                    lemma_key_position(l2, e);
                    if has_key(l, e) {
                        let q = key_position(l, e);
                        if q < p {
                            assert(first_key(l2, e, q));
                        } else {
                            assert(first_key(l2, e, q + 1));
                        }
                    } else if has_key(l2, e) {
                        let i = choose|i: int| 0 <= i < l2.len() && l2[i].0 == e;
                        if i < p {
                            assert(l[i].0 == e);
                        } else if i > p {
                            assert(l[i - 1].0 == e);
                        }
                    }
                }
            }
        }
        self.updated = true;
    }

    /// Records a completion. The debugger keeps the newest completions, as many
    /// as the limit (1000 unless set): when it is full, the oldest goes.
    pub fn on_completion(&mut self, completion: Completion)
        ensures
            final(self)@ == (DebuggerView {
                completions: bounded_push(old(self)@.completions, completion, old(self)@.completion_limit),
                updated: true,
                ..old(self)@
            }),
    {
        let limit: usize = match self.completion_limits {
            Some(n) => n,
            None => 1000,
        };
        if self.completions.len() > 0 && self.completions.len() >= limit {
            self.completions.remove(0);
        }
        self.completions.push(completion);
        self.updated = true;
        assert(self@.completions =~= bounded_push(old(self)@.completions, completion, old(self)@.completion_limit));
    }

    /// Records an error.
    pub fn on_error_context(&mut self, error: ErrorContext)
        ensures
            final(self)@ == (DebuggerView {
                errors: old(self)@.errors.push(error),
                updated: true,
                ..old(self)@
            }),
    {
        self.errors.push(error);
        self.updated = true;
    }
}

/// Compares two entities in the order of the logs.
pub fn entity_before(a: Entity, b: Entity) -> (r: bool)
    ensures
        r == entity_less(a, b),
{
    a.index < b.index || (a.index == b.index && a.generation < b.generation)
}

/// Copies a list of status updates.
pub fn copy_updates(v: &Vec<StatusUpdate>) -> (r: Vec<StatusUpdate>)
    ensures
        updates_view(r@) == updates_view(v@),
{
    let mut r: Vec<StatusUpdate> = Vec::new();
    let mut i: usize = 0;
    while i < v.len()
        invariant
            i <= v@.len(),
            updates_view(r@) =~= updates_view(v@).subrange(0, i as int),
        decreases v@.len() - i,
    {
        let u = v[i].duplicate();
        let ghost before = r@;
        r.push(u);
        assert(updates_view(r@) =~= updates_view(before).push(u@));
        i = i + 1;
    }
    assert(updates_view(v@).subrange(0, i as int) =~= updates_view(v@));
    r
}


/// The control symbol a completion is grouped under: the control symbol of its
/// event, else the name recorded for the id in its query's `event_id`, else nothing.
pub open spec fn completion_symbol(a: AppendixView, c: Completion) -> Seq<char> {
    match key_lookup(a.state, c.event) {
        Some(st) => st.control_symbol,
        None => match property_int_spec(property_entries_view(c.query.entries@), "event_id"@) {
            Some(id) => match name_by_id_spec(a.general, id as u32) {
                Some(n) => n,
                None => Seq::empty(),
            },
            None => Seq::empty(),
        },
    }
}

pub open spec fn completion_symbols(d: DebuggerView) -> Seq<Seq<char>> {
    Seq::new(d.completions.len(), |i: int| completion_symbol(d.appendix, d.completions[i]))
}

pub open spec fn positions(n: nat) -> Seq<usize> {
    Seq::new(n, |i: int| i as usize)
}

/// The control symbol an entity's log is grouped under, or nothing.
pub open spec fn log_symbol(a: AppendixView, e: Entity) -> Seq<char> {
    match key_lookup(a.state, e) {
        Some(st) => st.control_symbol,
        None => Seq::empty(),
    }
}

pub open spec fn log_symbols(d: DebuggerView) -> Seq<Seq<char>> {
    Seq::new(d.status_updates.len(), |i: int| log_symbol(d.appendix, d.status_updates[i].0))
}

pub open spec fn log_entities(d: DebuggerView) -> Seq<Entity> {
    Seq::new(d.status_updates.len(), |i: int| d.status_updates[i].0)
}

impl Debugger {
    fn completion_symbol_of(&self, c: &Completion) -> (s: String)
        ensures
            s@ == completion_symbol(self@.appendix, *c),
    {
        match self.appendix.control_symbol(c.event) {
            Some(name) => name.clone(),
            None => match c.query.property_int("event_id") {
                Some(id) => match self.appendix.name_by_id(id as u32) {
                    Some(n) => n.clone(),
                    None => String::new(),
                },
                None => String::new(),
            },
        }
    }

    /// Groups the completions by control symbol, as the completion tree shows
    /// them: one group per symbol in symbol order, each holding the positions of
    /// its completions, oldest first.
    #[verifier::rlimit(30)]
    pub fn completion_groups(&self) -> (groups: Vec<(String, Vec<usize>)>)
        ensures
            groups_sorted(groups_view(groups@)),
            forall|k: Seq<char>| #[trigger] key_lookup(groups_view(groups@), k)
                == group_of(positions(self@.completions.len()), completion_symbols(self@), k, self@.completions.len() as int),
    {
        let mut syms: Vec<String> = Vec::new();
        let mut items: Vec<usize> = Vec::new();
        let mut i: usize = 0;
        while i < self.completions.len()
            invariant
                i <= self@.completions.len(),
                items@ =~= positions(self@.completions.len()).subrange(0, i as int),
                texts_view(syms@) =~= completion_symbols(self@).subrange(0, i as int),
            decreases self@.completions.len() - i,
        {
            let s = self.completion_symbol_of(&self.completions[i]);
            let ghost before = syms@;
            syms.push(s);
            assert(texts_view(syms@) =~= texts_view(before).push(s@));
            items.push(i);
            i = i + 1;
        }
        let groups = group_all(&items, &syms);
        assert(items@ =~= positions(self@.completions.len()));
        assert(texts_view(syms@) =~= completion_symbols(self@));
        groups
    }

    /// Groups the entities that have status logs by control symbol, as the log
    /// view shows them: one group per symbol in symbol order, each holding its
    /// entities in entity order.
    pub fn log_groups(&self) -> (groups: Vec<(String, Vec<Entity>)>)
        ensures
            groups_sorted(groups_view(groups@)),
            forall|k: Seq<char>| #[trigger] key_lookup(groups_view(groups@), k)
                == group_of(log_entities(self@), log_symbols(self@), k, self@.status_updates.len() as int),
    {
        let mut syms: Vec<String> = Vec::new();
        let mut items: Vec<Entity> = Vec::new();
        let mut i: usize = 0;
        while i < self.status_updates.len()
            invariant
                i <= self@.status_updates.len(),
                items@ =~= log_entities(self@).subrange(0, i as int),
                texts_view(syms@) =~= log_symbols(self@).subrange(0, i as int),
            decreases self@.status_updates.len() - i,
        {
            let e = self.status_updates[i].0;
            let s = match self.appendix.control_symbol(e) {
                Some(c) => c.clone(),
                None => String::new(),
            };
            let ghost before = syms@;
            syms.push(s);
            assert(texts_view(syms@) =~= texts_view(before).push(s@));
            items.push(e);
            i = i + 1;
        }
        let groups = group_all(&items, &syms);
        assert(items@ =~= log_entities(self@));
        assert(texts_view(syms@) =~= log_symbols(self@));
        groups
    }
}

/// A log keeps at most as many updates as its limit: when every log is within
/// the limit, the log an update goes to stays within it, ends with the update,
/// and loses nothing while it is not full.
pub proof fn law_status_log_bounded(d: DebuggerView, u: StatusUpdateView)
    requires
        forall|e: Entity| #[trigger] key_lookup(d.status_updates, e) matches Some(l) ==> l.len() <= kept(d.status_update_limit),
    ensures
        next_log(d, u).len() <= kept(d.status_update_limit),
        next_log(d, u).last() == u,
        ({
            let l = match key_lookup(d.status_updates, u.entity) { Some(l) => l, None => Seq::empty() };
            l.len() < d.status_update_limit ==> next_log(d, u) == l.push(u)
        }),
{
    let _ = key_lookup(d.status_updates, u.entity);
}

/// The completions kept never exceed their limit, the newest is last, and none
/// is dropped while the limit is not reached.
pub proof fn law_completions_bounded(d: DebuggerView, c: Completion)
    requires
        d.completions.len() <= kept(d.completion_limit),
    ensures
        bounded_push(d.completions, c, d.completion_limit).len() <= kept(d.completion_limit),
        bounded_push(d.completions, c, d.completion_limit).last() == c,
        d.completions.len() < d.completion_limit ==> bounded_push(d.completions, c, d.completion_limit) == d.completions.push(c),
{
}

/// The messages of a log, one per line.
pub open spec fn joined_lines(ms: Seq<Seq<char>>) -> Seq<char>
    decreases ms.len(),
{
    if ms.len() == 0 {
        Seq::empty()
    } else if ms.len() == 1 {
        ms[0]
    } else {
        joined_lines(ms.drop_last()) + seq!['\n'] + ms.last()
    }
}

pub open spec fn messages_of(us: Seq<StatusUpdateView>) -> Seq<Seq<char>> {
    us.map_values(|u: StatusUpdateView| u.message)
}

/// A message with every leading `1:` taken off.
pub open spec fn without_marks(m: Seq<char>) -> Seq<char>
    decreases m.len(),
{
    if "1:"@.is_prefix_of(m) && m.len() >= 2 { without_marks(m.skip(2)) } else { m }
}

/// The text of a log to copy: its messages, one per line.
pub fn log_text(updates: &Vec<StatusUpdate>) -> (s: String)
    ensures
        s@ == joined_lines(messages_of(updates_view(updates@))),
{
    let ghost ms = messages_of(updates_view(updates@));
    let mut s = String::new();
    let mut i: usize = 0;
    while i < updates.len()
        invariant
            i <= updates@.len(),
            ms == messages_of(updates_view(updates@)),
            s@ == joined_lines(ms.subrange(0, i as int)),
        decreases updates@.len() - i,
    {
        let ghost before = s@;
        if i > 0 {
            crate::text::push_char(&mut s, '\n');
        }
        s.append(updates[i].message.as_str());
        proof {
            let next = ms.subrange(0, i + 1 as int);
            assert(next.drop_last() =~= ms.subrange(0, i as int));
            if i == 0 {
                assert(s@ =~= next[0]);
            } else {
                assert(s@ =~= before + seq!['\n'] + next.last());
            }
        }
        i = i + 1;
    }
    assert(ms.subrange(0, updates@.len() as int) =~= ms);
    s
}

/// How a log shows a message: a message marked with a leading `1:` is
/// highlighted, and shown without its marks.
pub fn shown_message(message: &str) -> (r: (bool, String))
    ensures
        r.0 == "1:"@.is_prefix_of(message@),
        r.1@ == (if r.0 { without_marks(message@) } else { message@ }),
{
    proof {
        reveal_strlit("1:");
    }
    match crate::text::strip_prefix(message, "1:") {
        Some(rest) => {
            let mut cur = rest;
            assert(without_marks(message@) == without_marks(cur@));
            loop
                invariant
                    without_marks(cur@) == without_marks(message@),
                ensures
                    without_marks(cur@) == without_marks(message@),
                    without_marks(cur@) == cur@,
                decreases cur@.len(),
            {
                proof {
                    reveal_strlit("1:");
                }
                match crate::text::strip_prefix(cur.as_str(), "1:") {
                    Some(next) => {
                        assert(next@ == cur@.skip(2));
                        assert(without_marks(cur@) == without_marks(next@));
                        cur = next;
                    },
                    None => {
                        assert(without_marks(cur@) == cur@);
                        break;
                    },
                }
            }
            (true, cur)
        },
        None => (false, message.to_owned()),
    }
}

/// The progress a log last reported (bits of an `f32`), or zero for none.
pub fn last_progress(updates: &Vec<StatusUpdate>) -> (p: u32)
    ensures
        updates@.len() == 0 ==> p == 0,
        updates@.len() > 0 ==> p == updates@.last().progress,
{
    if updates.len() == 0 {
        0
    } else {
        updates[updates.len() - 1].progress
    }
}

/// The label of a completion in the completion tree: its timestamp, the
/// control symbol and name of its event, and the name of its plugin.
pub open spec fn completion_label_spec(a: AppendixView, c: CompletionView) -> Seq<char> {
    crate::text::signed_decimal(c.timestamp as int) + " Completion "@
        + crate::debugger_wire::symbol_or_empty(a, c.event) + " "@
        + crate::debugger_wire::name_or_empty(a, c.event) + "."@
        + crate::debugger_wire::name_or_empty(a, c.thunk)
}

impl Debugger {
    /// Labels a completion for the completion tree.
    pub fn completion_label(&self, c: &Completion) -> (s: String)
        ensures
            s@ == completion_label_spec(self@.appendix, c@),
    {
        let mut s = String::new();
        crate::text::push_signed_decimal(&mut s, c.timestamp);
        s.append(" Completion ");
        match self.appendix.control_symbol(c.event) {
            Some(x) => s.append(x.as_str()),
            None => {},
        }
        s.append(" ");
        match self.appendix.name(c.event) {
            Some(x) => s.append(x.as_str()),
            None => {},
        }
        s.append(".");
        match self.appendix.name(c.thunk) {
            Some(x) => s.append(x.as_str()),
            None => {},
        }
        s
    }
}

} // verus!
