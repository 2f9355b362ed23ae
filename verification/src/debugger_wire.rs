use vstd::prelude::*;
use crate::entity::Entity;
use crate::attributes::{Value, ValueView};
use crate::appendix::{Appendix, AppendixView};
use crate::keyed::{key_lookup, key_upsert};
use crate::debugger::{Completion, CompletionView, Debugger, DebuggerView, PropertyValue, PropertyValueView,
    StatusUpdate, StatusUpdateView, completions_view, named_values_view, property_values_view,
    updates_view, logs_view, values_view, bounded_push};
use crate::wire::{Frame, FrameView, Ident, IdentView, IndexEntry, IndexEntryView, Keyword, Word, entries_view, extension_view, frames_view};

verus! {

// ------------------------------------------------------------------------
// The frames of a debugger
// ------------------------------------------------------------------------

/// The entity of frames that are about no entity.
pub open spec fn zero_entity() -> Entity {
    Entity { index: 0, generation: 0 }
}

/// The extension frame `name.symbol`, about no entity.
pub open spec fn ext_frame(name: Word, symbol: Word) -> FrameView {
    extension_view(name, symbol, zero_entity())
}

/// The frame that adds the value `v` under the word `w`, about `e`.
pub open spec fn word_value_frame(w: Word, v: ValueView, e: Entity) -> FrameView {
    FrameView { keyword: Keyword::Add, name: IdentView::Word(w), symbol: None, value: Some(v), entity: e }
}

/// The frame that adds the value `v` under the name `n`.
pub open spec fn named_value_frame(n: Seq<char>, v: ValueView) -> FrameView {
    FrameView { keyword: Keyword::Add, name: IdentView::Text(n), symbol: None, value: Some(v), entity: zero_entity() }
}

pub open spec fn values_frames(vs: Seq<(Seq<char>, ValueView)>) -> Seq<FrameView> {
    vs.map_values(|p: (Seq<char>, ValueView)| named_value_frame(p.0, p.1))
}

/// The named values a property list is sent as: one for a single value, one
/// per item of a list, none for an empty property.
pub open spec fn property_values(ps: Seq<(Seq<char>, PropertyValueView)>) -> Seq<(Seq<char>, ValueView)>
    decreases ps.len(),
{
    if ps.len() == 0 {
        Seq::empty()
    } else {
        let n = ps.last().0;
        property_values(ps.drop_last()) + match ps.last().1 {
            PropertyValueView::Single(v) => seq![(n, v)],
            PropertyValueView::List(vs) => vs.map_values(|v: ValueView| (n, v)),
            PropertyValueView::Empty => Seq::empty(),
        }
    }
}

/// The low half of a timestamp, as the first of the two `i32` it is sent as.
pub open spec fn timestamp_low(t: i64) -> i32 {
    t as i32
}

/// The high half of a timestamp.
pub open spec fn timestamp_high(t: i64) -> i32 {
    (t >> 32i64) as i32
}

/// The timestamp that two halves make.
pub open spec fn joined_timestamp(lo: i32, hi: i32) -> i64 {
    ((hi as i64) << 32i64) | ((lo as u32) as i64)
}

/// The control symbol the appendix records for an entity, empty when none.
pub open spec fn symbol_or_empty(a: AppendixView, e: Entity) -> Seq<char> {
    match key_lookup(a.state, e) {
        Some(st) => st.control_symbol,
        None => Seq::empty(),
    }
}

/// The name the appendix records for an entity, empty when none.
pub open spec fn name_or_empty(a: AppendixView, e: Entity) -> Seq<char> {
    match key_lookup(a.general, e) {
        Some(n) => n,
        None => Seq::empty(),
    }
}

/// The first frames of a completion: an extension, its timestamp, its event
/// (by control symbol) and its plugin (by name).
pub open spec fn completion_head(c: CompletionView, a: AppendixView) -> Seq<FrameView> {
    seq![
        ext_frame(Word::Debugger, Word::Completion),
        word_value_frame(Word::Timestamp, ValueView::IntPair(timestamp_low(c.timestamp), timestamp_high(c.timestamp)), zero_entity()),
        word_value_frame(Word::Event, ValueView::Symbol(symbol_or_empty(a, c.event)), c.event),
        word_value_frame(Word::Plugin, ValueView::Symbol(name_or_empty(a, c.thunk)), c.thunk),
    ]
}

/// The control values of a completion, when it has some.
pub open spec fn control_values_part(c: CompletionView) -> Seq<FrameView> {
    if c.control_values.len() > 0 {
        seq![ext_frame(Word::Completion, Word::ControlValues)] + values_frames(c.control_values)
    } else {
        Seq::empty()
    }
}

/// The query of a completion.
pub open spec fn query_part(c: CompletionView) -> Seq<FrameView> {
    seq![ext_frame(Word::Completion, Word::Query)] + values_frames(property_values(c.query.entries))
}

/// The returns of a completion, when it has them.
pub open spec fn returns_part(c: CompletionView) -> Seq<FrameView> {
    match c.returns {
        Some(r) => seq![ext_frame(Word::Completion, Word::Returns)] + values_frames(property_values(r.entries)),
        None => Seq::empty(),
    }
}

/// The frames of one completion: its head, its control values when it has
/// some, its query, and its returns when it has them.
pub open spec fn completion_frames(c: CompletionView, a: AppendixView) -> Seq<FrameView> {
    completion_head(c, a) + control_values_part(c) + query_part(c) + returns_part(c)
}

pub open spec fn completions_frames(cs: Seq<CompletionView>, a: AppendixView) -> Seq<FrameView>
    decreases cs.len(),
{
    if cs.len() == 0 {
        Seq::empty()
    } else {
        completions_frames(cs.drop_last(), a) + completion_frames(cs.last(), a)
    }
}

/// The frames of one status update: its message and its progress.
pub open spec fn update_frames(u: StatusUpdateView, e: Entity) -> Seq<FrameView> {
    seq![
        word_value_frame(Word::Message, ValueView::Symbol(u.message), e),
        word_value_frame(Word::Progress, ValueView::Float(u.progress), e),
    ]
}

pub open spec fn updates_frames(us: Seq<StatusUpdateView>, e: Entity) -> Seq<FrameView>
    decreases us.len(),
{
    if us.len() == 0 {
        Seq::empty()
    } else {
        updates_frames(us.drop_last(), e) + update_frames(us.last(), e)
    }
}

/// The frame that opens the log of an entity, named by the entity's name.
pub open spec fn log_head(e: Entity, name: Seq<char>) -> FrameView {
    FrameView {
        keyword: Keyword::Extension,
        name: IdentView::Word(Word::StatusUpdate),
        symbol: Some(IdentView::Text(name)),
        value: None,
        entity: e,
    }
}

pub open spec fn logs_frames(ls: Seq<(Entity, Seq<StatusUpdateView>)>, a: AppendixView) -> Seq<FrameView>
    decreases ls.len(),
{
    if ls.len() == 0 {
        Seq::empty()
    } else {
        let (e, us) = ls.last();
        logs_frames(ls.drop_last(), a) + seq![log_head(e, name_or_empty(a, e))] + updates_frames(us, e)
    }
}

/// The frames a debugger is sent as: its completions, then its status logs.
pub open spec fn debugger_frames(d: DebuggerView) -> Seq<FrameView> {
    completions_frames(completions_view(d.completions), d.appendix) + logs_frames(d.status_updates, d.appendix)
}

// ------------------------------------------------------------------------
// Encoding
// ------------------------------------------------------------------------

fn zero() -> (e: Entity)
    ensures
        e == zero_entity(),
{
    Entity::new(0, 0)
}

fn push_frame(frames: &mut Vec<Frame>, f: Frame)
    ensures
        frames_view(final(frames)@) == frames_view(old(frames)@).push(f@),
{
    frames.push(f);
    assert(frames_view(frames@) =~= frames_view(old(frames)@).push(f@));
}

fn word_value(w: Word, v: Value, e: Entity) -> (f: Frame)
    ensures
        f@ == word_value_frame(w, v@, e),
{
    Frame { keyword: Keyword::Add, name: Ident::Word(w), symbol: None, value: Some(v), entity: e }
}

fn named_value(n: &String, v: &Value) -> (f: Frame)
    ensures
        f@ == named_value_frame(n@, v@),
{
    Frame { keyword: Keyword::Add, name: Ident::Text(n.clone()), symbol: None, value: Some(v.duplicate()), entity: zero() }
}

fn push_values(frames: &mut Vec<Frame>, vs: &Vec<(String, Value)>)
    ensures
        frames_view(final(frames)@) == frames_view(old(frames)@) + values_frames(named_values_view(vs@)),
{
    let ghost nv = named_values_view(vs@);
    let mut i: usize = 0;
    while i < vs.len()
        invariant
            i <= vs@.len(),
            nv == named_values_view(vs@),
            frames_view(frames@) == frames_view(old(frames)@) + values_frames(nv.subrange(0, i as int)),
        decreases vs@.len() - i,
    {
        let f = named_value(&vs[i].0, &vs[i].1);
        push_frame(frames, f);
        assert(values_frames(nv.subrange(0, i + 1 as int)) =~= values_frames(nv.subrange(0, i as int)).push(f@));
        i = i + 1;
    }
    assert(nv.subrange(0, vs@.len() as int) =~= nv);
}

proof fn lemma_values_frames_concat(a: Seq<(Seq<char>, ValueView)>, b: Seq<(Seq<char>, ValueView)>)
    ensures
        values_frames(a + b) == values_frames(a) + values_frames(b),
{
    assert(values_frames(a + b) =~= values_frames(a) + values_frames(b));
}

fn push_properties(frames: &mut Vec<Frame>, entries: &Vec<(String, PropertyValue)>)
    ensures
        frames_view(final(frames)@) == frames_view(old(frames)@) + values_frames(property_values(property_values_view(entries@))),
{
    let ghost pv = property_values_view(entries@);
    let mut i: usize = 0;
    while i < entries.len()
        invariant
            i <= entries@.len(),
            pv == property_values_view(entries@),
            frames_view(frames@) == frames_view(old(frames)@) + values_frames(property_values(pv.subrange(0, i as int))),
        decreases entries@.len() - i,
    {
        let ghost pre = pv.subrange(0, i as int);
        let ghost here = pv.subrange(0, i + 1 as int);
        assert(here.drop_last() =~= pre);
        let ghost before = frames_view(frames@);
        let name = &entries[i].0;
        match &entries[i].1 {
            PropertyValue::Single(v) => {
                let f = named_value(name, v);
                push_frame(frames, f);
                proof {
                    lemma_values_frames_concat(property_values(pre), seq![(name@, v@)]);
                    assert(values_frames(seq![(name@, v@)]) =~= seq![f@]);
                }
            },
            PropertyValue::List(vs) => {
                let ghost items = values_view(vs@).map_values(|v: ValueView| (name@, v));
                let mut k: usize = 0;
                while k < vs.len()
                    invariant
                        k <= vs@.len(),
                        items == values_view(vs@).map_values(|v: ValueView| (name@, v)),
                        frames_view(frames@) == before + values_frames(items.subrange(0, k as int)),
                    decreases vs@.len() - k,
                {
                    let f = named_value(name, &vs[k]);
                    push_frame(frames, f);
                    assert(values_frames(items.subrange(0, k + 1 as int)) =~= values_frames(items.subrange(0, k as int)).push(f@));
                    k = k + 1;
                }
                proof {
                    assert(items.subrange(0, vs@.len() as int) =~= items);
                    lemma_values_frames_concat(property_values(pre), items);
                }
            },
            PropertyValue::Empty => {
                assert(property_values(here) =~= property_values(pre));
            },
        }
        i = i + 1;
    }
    assert(pv.subrange(0, entries@.len() as int) =~= pv);
}

fn symbol_of_event(a: &Appendix, e: Entity) -> (s: String)
    ensures
        s@ == symbol_or_empty(a@, e),
{
    match a.control_symbol(e) {
        Some(s) => s.clone(),
        None => String::new(),
    }
}

fn name_of_entity(a: &Appendix, e: Entity) -> (s: String)
    ensures
        s@ == name_or_empty(a@, e),
{
    match a.name(e) {
        Some(s) => s.clone(),
        None => String::new(),
    }
}

fn push_completion(frames: &mut Vec<Frame>, c: &Completion, a: &Appendix)
    ensures
        frames_view(final(frames)@) == frames_view(old(frames)@) + completion_frames(c@, a@),
{
    let ghost cv = c@;
    let ghost start = frames_view(frames@);
    let lo = c.timestamp as i32;
    let hi = (c.timestamp >> 32i64) as i32;
    push_frame(frames, Frame::extension(Word::Debugger, Word::Completion, zero()));
    push_frame(frames, word_value(Word::Timestamp, Value::IntPair(lo, hi), zero()));
    push_frame(frames, word_value(Word::Event, Value::Symbol(symbol_of_event(a, c.event)), c.event));
    push_frame(frames, word_value(Word::Plugin, Value::Symbol(name_of_entity(a, c.thunk)), c.thunk));
    let ghost head = frames_view(frames@);
    assert(head =~= start + seq![
        ext_frame(Word::Debugger, Word::Completion),
        word_value_frame(Word::Timestamp, ValueView::IntPair(timestamp_low(cv.timestamp), timestamp_high(cv.timestamp)), zero_entity()),
        word_value_frame(Word::Event, ValueView::Symbol(symbol_or_empty(a@, cv.event)), cv.event),
        word_value_frame(Word::Plugin, ValueView::Symbol(name_or_empty(a@, cv.thunk)), cv.thunk),
    ]);
    if c.control_values.len() > 0 {
        push_frame(frames, Frame::extension(Word::Completion, Word::ControlValues, zero()));
        push_values(frames, &c.control_values);
    }
    let ghost mid = frames_view(frames@);
    push_frame(frames, Frame::extension(Word::Completion, Word::Query, zero()));
    push_properties(frames, &c.query.entries);
    let ghost after_query = frames_view(frames@);
    match &c.returns {
        Some(r) => {
            push_frame(frames, Frame::extension(Word::Completion, Word::Returns, zero()));
            push_properties(frames, &r.entries);
        },
        None => {},
    }
    assert(frames_view(frames@) =~= start + completion_frames(cv, a@));
}

fn push_updates(frames: &mut Vec<Frame>, us: &Vec<StatusUpdate>, e: Entity)
    ensures
        frames_view(final(frames)@) == frames_view(old(frames)@) + updates_frames(updates_view(us@), e),
{
    let ghost uv = updates_view(us@);
    let mut i: usize = 0;
    while i < us.len()
        invariant
            i <= us@.len(),
            uv == updates_view(us@),
            frames_view(frames@) == frames_view(old(frames)@) + updates_frames(uv.subrange(0, i as int), e),
        decreases us@.len() - i,
    {
        let ghost before = frames_view(frames@);
        push_frame(frames, word_value(Word::Message, Value::Symbol(us[i].message.clone()), e));
        push_frame(frames, word_value(Word::Progress, Value::Float(us[i].progress), e));
        assert(uv.subrange(0, i + 1 as int).drop_last() =~= uv.subrange(0, i as int));
        assert(frames_view(frames@) =~= before + update_frames(uv[i as int], e));
        i = i + 1;
    }
    assert(uv.subrange(0, us@.len() as int) =~= uv);
}

impl Debugger {
    /// Encodes a debugger as frames: its completions, oldest first, then the
    /// status log of each entity, in entity order.
    pub fn encode(&self) -> (frames: Vec<Frame>)
        ensures
            frames_view(frames@) == debugger_frames(self@),
    {
        let a = self.appendix();
        let cs = self.completions();
        let ghost cv = completions_view(cs@);
        let mut frames: Vec<Frame> = Vec::new();
        let mut i: usize = 0;
        while i < cs.len()
            invariant
                i <= cs@.len(),
                cv == completions_view(cs@),
                cs@ == self@.completions,
                a@ == self@.appendix,
                frames_view(frames@) == completions_frames(cv.subrange(0, i as int), a@),
            decreases cs@.len() - i,
        {
            push_completion(&mut frames, &cs[i], a);
            assert(cv.subrange(0, i + 1 as int).drop_last() =~= cv.subrange(0, i as int));
            i = i + 1;
        }
        assert(cv.subrange(0, cs@.len() as int) =~= cv);
        let ghost head = frames_view(frames@);
        let logs = self.status_logs();
        let ghost lv = logs_view(logs@);
        let mut k: usize = 0;
        while k < logs.len()
            invariant
                k <= logs@.len(),
                lv == logs_view(logs@),
                lv == self@.status_updates,
                a@ == self@.appendix,
                frames_view(frames@) == head + logs_frames(lv.subrange(0, k as int), a@),
            decreases logs@.len() - k,
        {
            let e = logs[k].0;
            let ghost before = frames_view(frames@);
            push_frame(&mut frames, Frame {
                keyword: Keyword::Extension,
                name: Ident::Word(Word::StatusUpdate),
                symbol: Some(Ident::Text(name_of_entity(a, e))),
                value: None,
                entity: e,
            });
            push_updates(&mut frames, &logs[k].1, e);
            assert(lv.subrange(0, k + 1 as int).drop_last() =~= lv.subrange(0, k as int));
            assert(frames_view(frames@) =~= before + seq![log_head(e, name_or_empty(a@, e))] + updates_frames(lv[k as int].1, e));
            k = k + 1;
        }
        assert(lv.subrange(0, logs@.len() as int) =~= lv);
        frames
    }
}

// ------------------------------------------------------------------------
// Decoding
// ------------------------------------------------------------------------

/// `f` is the extension frame `name.symbol`, whatever entity it is about.
pub open spec fn is_ext(f: FrameView, name: Word, symbol: Word) -> bool {
    f.keyword == Keyword::Extension && f.name == IdentView::Word(name) && f.symbol == Some(IdentView::Word(symbol))
}

/// `f` adds a value under a name.
pub open spec fn is_value_frame(f: FrameView) -> bool {
    f.keyword == Keyword::Add && f.name is Text && f.value is Some
}

/// The named values that `fs` starts with: its leading run of value frames.
pub open spec fn leading_values(fs: Seq<FrameView>) -> Seq<(Seq<char>, ValueView)>
    decreases fs.len(),
{
    if fs.len() > 0 && is_value_frame(fs[0]) {
        seq![(ident_text_of(fs[0].name), fs[0].value.unwrap())] + leading_values(fs.drop_first())
    } else {
        Seq::empty()
    }
}

pub open spec fn ident_text_of(i: IdentView) -> Seq<char> {
    crate::wire::ident_text(i)
}

/// Properties after a named value is added: a new name holds it alone, a name
/// holding one value then holds both as a list, a list grows, and an empty
/// property takes the value.
pub open spec fn add_property(ps: Seq<(Seq<char>, PropertyValueView)>, n: Seq<char>, v: ValueView) -> Seq<(Seq<char>, PropertyValueView)> {
    match key_lookup(ps, n) {
        Some(PropertyValueView::Single(x)) => key_upsert(ps, n, PropertyValueView::List(seq![x, v])),
        Some(PropertyValueView::List(xs)) => key_upsert(ps, n, PropertyValueView::List(xs.push(v))),
        _ => key_upsert(ps, n, PropertyValueView::Single(v)),
    }
}

/// The properties that named values make, added in order.
pub open spec fn properties_of(vs: Seq<(Seq<char>, ValueView)>) -> Seq<(Seq<char>, PropertyValueView)>
    decreases vs.len(),
{
    if vs.len() == 0 {
        Seq::empty()
    } else {
        add_property(properties_of(vs.drop_last()), vs.last().0, vs.last().1)
    }
}

/// A completion read back, with the symbol of its event and the name of its plugin.
pub struct CompletionRecord {
    pub completion: CompletionView,
    pub event_symbol: Seq<char>,
    pub plugin_name: Seq<char>,
}

/// Reads the completion that `fs` starts with, and how many frames it takes.
/// None where the frames lack a timestamp, an event or plugin symbol, or a query.
#[verifier::opaque]
pub open spec fn parse_completion(fs: Seq<FrameView>) -> Option<(CompletionRecord, int)> {
    if fs.len() < 4 {
        None
    } else {
        match (fs[1].name, fs[1].value, fs[2].name, fs[2].value, fs[3].name, fs[3].value) {
            (
                IdentView::Word(Word::Timestamp), Some(ValueView::IntPair(lo, hi)),
                IdentView::Word(Word::Event), Some(ValueView::Symbol(event_symbol)),
                IdentView::Word(Word::Plugin), Some(ValueView::Symbol(plugin_name)),
            ) => {
                let has_cv = fs.len() > 4 && is_ext(fs[4], Word::Completion, Word::ControlValues);
                let cv = if has_cv { leading_values(fs.skip(5)) } else { Seq::empty() };
                let j1: int = if has_cv { 5 + cv.len() as int } else { 4 };
                if j1 < fs.len() && is_ext(fs[j1], Word::Completion, Word::Query) {
                    let q = leading_values(fs.skip(j1 + 1));
                    let j2: int = j1 + 1 + q.len();
                    let has_r = j2 < fs.len() && is_ext(fs[j2], Word::Completion, Word::Returns);
                    let r = leading_values(fs.skip(j2 + 1));
                    let j3: int = if has_r { j2 + 1 + r.len() } else { j2 };
                    Some((CompletionRecord {
                        completion: CompletionView {
                            timestamp: joined_timestamp(lo, hi),
                            event: fs[2].entity,
                            thunk: fs[3].entity,
                            control_values: cv,
                            query: crate::debugger::PropertiesView { name: "query"@, entries: properties_of(q) },
                            returns: if has_r {
                                Some(crate::debugger::PropertiesView { name: "returns"@, entries: properties_of(r) })
                            } else {
                                None
                            },
                        },
                        event_symbol,
                        plugin_name,
                    }, j3))
                } else {
                    None
                }
            },
            _ => None,
        }
    }
}

/// Reads the completions that `fs` starts with, and how many frames they take.
pub open spec fn parse_completions(fs: Seq<FrameView>) -> Option<(Seq<CompletionRecord>, int)>
    decreases fs.len(),
{
    if fs.len() > 0 && is_ext(fs[0], Word::Debugger, Word::Completion) {
        match parse_completion(fs) {
            Some((r, n)) => if 0 < n <= fs.len() {
                match parse_completions(fs.skip(n)) {
                    Some((rs, m)) => Some((seq![r] + rs, n + m)),
                    None => None,
                }
            } else {
                None
            },
            None => None,
        }
    } else {
        Some((Seq::empty(), 0))
    }
}

/// Reads the status updates about `e` that `fs` starts with: pairs of a message
/// and a progress frame. None where a pair holds other kinds of value.
pub open spec fn leading_updates(fs: Seq<FrameView>, e: Entity) -> Option<Seq<StatusUpdateView>>
    decreases fs.len(),
{
    if fs.len() >= 2 && fs[0].name == IdentView::Word(Word::Message) && fs[0].value is Some
        && fs[1].name == IdentView::Word(Word::Progress) && fs[1].value is Some {
        match (fs[0].value, fs[1].value) {
            (Some(ValueView::Symbol(m)), Some(ValueView::Float(p))) => match leading_updates(fs.skip(2), e) {
                Some(rest) => Some(seq![StatusUpdateView { entity: e, progress: p, message: m }] + rest),
                None => None,
            },
            _ => None,
        }
    } else {
        Some(Seq::empty())
    }
}

/// Reads the status logs that `fs` starts with, each about the entity of its opening frame.
pub open spec fn parse_logs(fs: Seq<FrameView>) -> Option<Seq<(Entity, Seq<StatusUpdateView>)>>
    decreases fs.len(),
{
    if fs.len() > 0 && fs[0].keyword == Keyword::Extension && fs[0].name == IdentView::Word(Word::StatusUpdate) {
        match leading_updates(fs.drop_first(), fs[0].entity) {
            Some(us) => if 1 + 2 * us.len() <= fs.len() {
                match parse_logs(fs.skip(1 + 2 * us.len() as int)) {
                    Some(ls) => Some(seq![(fs[0].entity, us)] + ls),
                    None => None,
                }
            } else {
                None
            },
            None => None,
        }
    } else {
        Some(Seq::empty())
    }
}

/// Frames a debugger can be read back from: its completions and logs are whole.
pub open spec fn debugger_decodable(fs: Seq<FrameView>) -> bool {
    &&& parse_completions(fs) is Some
    &&& parse_logs(fs.skip(parse_completions(fs).unwrap().1)) is Some
}

pub open spec fn decoded_records(fs: Seq<FrameView>) -> Seq<CompletionRecord> {
    parse_completions(fs).unwrap().0
}

pub open spec fn decoded_logs(fs: Seq<FrameView>) -> Seq<(Entity, Seq<StatusUpdateView>)> {
    parse_logs(fs.skip(parse_completions(fs).unwrap().1)).unwrap()
}

/// The names a debugger read back records: each completion's event under its
/// symbol, then its plugin under its name.
pub open spec fn general_of(rs: Seq<CompletionRecord>) -> Seq<(Entity, Seq<char>)>
    decreases rs.len(),
{
    if rs.len() == 0 {
        Seq::empty()
    } else {
        let r = rs.last();
        key_upsert(key_upsert(general_of(rs.drop_last()), r.completion.event, r.event_symbol), r.completion.thunk, r.plugin_name)
    }
}

/// The completions a debugger keeps when they are recorded in order, with the
/// default limit.
pub open spec fn completions_of(rs: Seq<CompletionRecord>) -> Seq<CompletionView>
    decreases rs.len(),
{
    if rs.len() == 0 {
        Seq::empty()
    } else {
        bounded_push(completions_of(rs.drop_last()), rs.last().completion, 1000)
    }
}

/// Every update of the logs, in order.
pub open spec fn all_updates(ls: Seq<(Entity, Seq<StatusUpdateView>)>) -> Seq<StatusUpdateView>
    decreases ls.len(),
{
    if ls.len() == 0 {
        Seq::empty()
    } else {
        all_updates(ls.drop_last()) + ls.last().1
    }
}

/// The log of `e` after the updates are recorded in order, with the default
/// limit; none when no update is about `e`.
pub open spec fn replayed(us: Seq<StatusUpdateView>, e: Entity) -> Option<Seq<StatusUpdateView>>
    decreases us.len(),
{
    if us.len() == 0 {
        None
    } else {
        let prev = replayed(us.drop_last(), e);
        if us.last().entity == e {
            Some(bounded_push(match prev { Some(l) => l, None => Seq::empty() }, us.last(), 10))
        } else {
            prev
        }
    }
}

fn is_ext_frame(f: &Frame, name: Word, symbol: Word) -> (b: bool)
    ensures
        b == is_ext(f@, name, symbol),
{
    let k = match f.keyword {
        Keyword::Extension => true,
        _ => false,
    };
    let n = match f.name.word() {
        Some(w) => w == name,
        None => false,
    };
    let sy = match &f.symbol {
        Some(i) => match i.word() {
            Some(w) => w == symbol,
            None => false,
        },
        None => false,
    };
    k && n && sy
}

fn is_value(f: &Frame) -> (b: bool)
    ensures
        b == is_value_frame(f@),
{
    let k = match f.keyword {
        Keyword::Add => true,
        _ => false,
    };
    let t = match &f.name {
        Ident::Text(_) => true,
        Ident::Word(_) => false,
    };
    k && t && f.value.is_some()
}

proof fn lemma_leading_values_len(fs: Seq<FrameView>)
    ensures
        leading_values(fs).len() <= fs.len(),
    decreases fs.len(),
{
    if fs.len() > 0 && is_value_frame(fs[0]) {
        lemma_leading_values_len(fs.drop_first());
    }
}

/// Reads the named values that start at `pos`; returns them and where they end.
fn read_values(frames: &Vec<Frame>, pos: usize) -> (r: (Vec<(String, Value)>, usize))
    requires
        pos <= frames@.len(),
    ensures
        named_values_view(r.0@) == leading_values(frames_view(frames@).skip(pos as int)),
        r.1 == pos + leading_values(frames_view(frames@).skip(pos as int)).len(),
        r.1 <= frames@.len(),
{
    let ghost fs = frames_view(frames@);
    let mut acc: Vec<(String, Value)> = Vec::new();
    let mut k: usize = pos;
    while k < frames.len() && is_value(&frames[k])
        invariant
            pos <= k <= frames@.len(),
            fs == frames_view(frames@),
            named_values_view(acc@) + leading_values(fs.skip(k as int)) == leading_values(fs.skip(pos as int)),
            k - pos == acc@.len(),
        decreases frames@.len() - k,
    {
        let f = &frames[k];
        let name = f.name.text();
        let value = match &f.value {
            Some(v) => v.duplicate(),
            None => vstd::pervasive::unreached(),
        };
        let ghost before = named_values_view(acc@);
        assert(fs.skip(k as int)[0] == f@);
        assert(fs.skip(k as int).drop_first() =~= fs.skip(k + 1));
        acc.push((name, value));
        assert(named_values_view(acc@) =~= before.push((name@, value@)));
        assert(named_values_view(acc@) + leading_values(fs.skip(k + 1)) =~= before + leading_values(fs.skip(k as int)));
        k = k + 1;
    }
    assert(leading_values(fs.skip(k as int)) =~= Seq::<(Seq<char>, ValueView)>::empty());
    assert(named_values_view(acc@) =~= leading_values(fs.skip(pos as int)));
    (acc, k)
}

fn property_position(entries: &Vec<(String, PropertyValue)>, name: &str) -> (r: Option<usize>)
    ensures
        r is Some <==> crate::keyed::has_key(property_values_view(entries@), name@),
        r matches Some(i) ==> i as int == crate::keyed::key_position(property_values_view(entries@), name@)
            && i < entries@.len(),
{
    let ghost es = property_values_view(entries@);
    proof {
        crate::keyed::lemma_key_position(es, name@);
    }
    let mut i: usize = 0;
    while i < entries.len()
        invariant
            i <= entries@.len(),
            es == property_values_view(entries@),
            forall|j: int| 0 <= j < i ==> #[trigger] es[j].0 != name@,
        decreases entries@.len() - i,
    {
        if crate::text::same_text(entries[i].0.as_str(), name) {
            assert(crate::keyed::first_key(es, name@, i as int));
            return Some(i);
        }
        i = i + 1;
    }
    None
}

/// Adds a named value to properties.
fn add_property_value(entries: &mut Vec<(String, PropertyValue)>, name: &String, v: Value)
    ensures
        property_values_view(final(entries)@) == add_property(property_values_view(old(entries)@), name@, v@),
{
    let ghost es = property_values_view(entries@);
    let ghost vv = v@;
    proof {
        crate::keyed::lemma_key_position(es, name@);
    }
    match property_position(entries, name.as_str()) {
        Some(p) => {
            let (n, current) = entries.remove(p);
            let next = match current {
                PropertyValue::Single(x) => {
                    let ghost xv = x@;
                    let list = vec![x, v];
                    assert(values_view(list@) =~= seq![xv, vv]);
                    PropertyValue::List(list)
                },
                PropertyValue::List(xs) => {
                    let ghost before = values_view(xs@);
                    let mut xs = xs;
                    xs.push(v);
                    assert(values_view(xs@) =~= before.push(vv));
                    PropertyValue::List(xs)
                },
                PropertyValue::Empty => PropertyValue::Single(v),
            };
            let ghost nv = next@;
            entries.insert(p, (n, next));
            assert(property_values_view(entries@) =~= es.update(p as int, (name@, nv)));
        },
        None => {
            entries.push((name.clone(), PropertyValue::Single(v)));
            assert(property_values_view(entries@) =~= es.push((name@, PropertyValueView::Single(vv))));
        },
    }
}

/// The properties that named values make.
fn properties_from(vs: Vec<(String, Value)>) -> (r: Vec<(String, PropertyValue)>)
    ensures
        property_values_view(r@) == properties_of(named_values_view(vs@)),
{
    let ghost nv = named_values_view(vs@);
    let mut entries: Vec<(String, PropertyValue)> = Vec::new();
    let mut i: usize = 0;
    assert(property_values_view(entries@) =~= properties_of(nv.subrange(0, 0)));
    while i < vs.len()
        invariant
            i <= vs@.len(),
            nv == named_values_view(vs@),
            property_values_view(entries@) == properties_of(nv.subrange(0, i as int)),
        decreases vs@.len() - i,
    {
        assert(nv.subrange(0, i + 1 as int).drop_last() =~= nv.subrange(0, i as int));
        assert(nv.subrange(0, i + 1 as int).last() == nv[i as int]);
        add_property_value(&mut entries, &vs[i].0, vs[i].1.duplicate());
        i = i + 1;
    }
    assert(nv.subrange(0, vs@.len() as int) =~= nv);
    entries
}

/// Reads the completion that starts at `pos`: the completion, the symbol of its
/// event, the name of its plugin, and where it ends.
fn read_completion(frames: &Vec<Frame>, pos: usize) -> (r: (Completion, String, String, usize))
    requires
        pos <= frames@.len(),
        parse_completion(frames_view(frames@).skip(pos as int)) is Some,
    ensures
        ({
            let (rec, n) = parse_completion(frames_view(frames@).skip(pos as int)).unwrap();
            &&& r.0@ == rec.completion
            &&& r.1@ == rec.event_symbol
            &&& r.2@ == rec.plugin_name
            &&& r.3 == pos + n
            &&& r.3 <= frames@.len()
        }),
{
    reveal(parse_completion);
    let ghost fs = frames_view(frames@);
    let ghost gs = fs.skip(pos as int);
    assert(gs.len() >= 4);
    assert(fs.len() == frames@.len());
    let len = frames.len();
    assert(pos + 4 <= len);
    assert(gs[1] == frames@[pos + 1]@);
    assert(gs[2] == frames@[pos + 2]@);
    assert(gs[3] == frames@[pos + 3]@);
    let (lo, hi) = match &frames[pos + 1].value {
        Some(Value::IntPair(a, b)) => (*a, *b),
        _ => vstd::pervasive::unreached(),
    };
    let event_symbol = match &frames[pos + 2].value {
        Some(Value::Symbol(s)) => s.clone(),
        _ => vstd::pervasive::unreached(),
    };
    let plugin_name = match &frames[pos + 3].value {
        Some(Value::Symbol(s)) => s.clone(),
        _ => vstd::pervasive::unreached(),
    };
    let event = frames[pos + 2].entity;
    let thunk = frames[pos + 3].entity;
    let has_cv = pos + 4 < frames.len() && is_ext_frame(&frames[pos + 4], Word::Completion, Word::ControlValues);
    proof {
        if pos + 4 < frames@.len() {
            assert(gs[4] == frames@[pos + 4]@);
        }
        assert(gs.skip(5) =~= fs.skip(pos + 5));
    }
    let (control_values, j1) = if has_cv {
        read_values(frames, pos + 5)
    } else {
        (Vec::new(), pos + 4)
    };
    assert(gs[j1 - pos] == frames@[j1 as int]@);
    assert(gs.skip(j1 - pos + 1) =~= fs.skip(j1 + 1));
    let (query_values, j2) = read_values(frames, j1 + 1);
    let query = crate::debugger::Properties { name: "query".to_owned(), entries: properties_from(query_values) };
    let has_r = j2 < frames.len() && is_ext_frame(&frames[j2], Word::Completion, Word::Returns);
    proof {
        if j2 < frames@.len() {
            assert(gs[j2 - pos] == frames@[j2 as int]@);
        }
        if j2 < frames@.len() {
            assert(gs.skip(j2 - pos + 1) =~= fs.skip(j2 + 1));
        }
    }
    let (outputs, j3) = if has_r {
        let (rv, j) = read_values(frames, j2 + 1);
        (Some(crate::debugger::Properties { name: "returns".to_owned(), entries: properties_from(rv) }), j)
    } else {
        (None, j2)
    };
    let timestamp: i64 = ((hi as i64) << 32i64) | ((#[verifier::truncate] (lo as u32)) as i64);
    proof {
        reveal_strlit("query");
        reveal_strlit("returns");
        if !has_cv {
            assert(named_values_view(control_values@) =~= Seq::<(Seq<char>, ValueView)>::empty());
        }
    }
    let c = Completion { timestamp, event, thunk, control_values, query, returns: outputs };
    (c, event_symbol, plugin_name, j3)
}

proof fn lemma_parse_completions_len(fs: Seq<FrameView>)
    requires
        parse_completions(fs) is Some,
    ensures
        0 <= parse_completions(fs).unwrap().1 <= fs.len(),
    decreases fs.len(),
{
    if fs.len() > 0 && is_ext(fs[0], Word::Debugger, Word::Completion) {
        let (r, n) = parse_completion(fs).unwrap();
        lemma_parse_completions_len(fs.skip(n));
    }
}

impl Debugger {
    /// Decodes a debugger from frames: each completion is recorded in order, its
    /// event and plugin named in the appendix by the symbol and name they were
    /// sent with, then each status update in order; the default limits apply.
    pub fn decode(frames: &Vec<Frame>) -> (d: Debugger)
        requires
            debugger_decodable(frames_view(frames@)),
        ensures
            d@.appendix.general == general_of(decoded_records(frames_view(frames@))),
            d@.appendix.state == Seq::<(Entity, crate::appendix::StateView)>::empty(),
            completions_view(d@.completions) == completions_of(decoded_records(frames_view(frames@))),
            forall|e: Entity| #[trigger] key_lookup(d@.status_updates, e)
                == replayed(all_updates(decoded_logs(frames_view(frames@))), e),
            crate::debugger::debugger_wf(d@),
            d@.errors == Seq::<crate::debugger::ErrorContext>::empty(),
            d@.status_update_limit == 10,
            d@.completion_limit == 1000,
    {
        let ghost fs = frames_view(frames@);
        let ghost total = parse_completions(fs).unwrap().1;
        let mut appendix = Appendix::new();
        let mut d = Debugger::new(Appendix::new());
        let mut pos: usize = 0;
        let ghost mut done: Seq<CompletionRecord> = Seq::empty();
        proof {
            assert(fs.skip(0) =~= fs);
            lemma_parse_completions_len(fs);
        }
        while pos < frames.len() && is_ext_frame(&frames[pos], Word::Debugger, Word::Completion)
            invariant
                fs == frames_view(frames@),
                pos <= frames@.len(),
                parse_completions(fs.skip(pos as int)) is Some,
                done + parse_completions(fs.skip(pos as int)).unwrap().0 == decoded_records(fs),
                pos + parse_completions(fs.skip(pos as int)).unwrap().1 == total,
                appendix@.general == general_of(done),
                appendix@.state == Seq::<(Entity, crate::appendix::StateView)>::empty(),
                completions_view(d@.completions) == completions_of(done),
                d@.status_updates == Seq::<(Entity, Seq<StatusUpdateView>)>::empty(),
                d@.errors == Seq::<crate::debugger::ErrorContext>::empty(),
                d@.status_update_limit == 10,
                d@.completion_limit == 1000,
                crate::debugger::debugger_wf(d@),
            decreases frames@.len() - pos,
        {
            let ghost gs = fs.skip(pos as int);
            assert(gs[0] == frames@[pos as int]@);
            let ghost (rec, n) = parse_completion(gs).unwrap();
            let ghost rest = parse_completions(gs.skip(n)).unwrap();
            let (c, event_symbol, plugin_name, next) = read_completion(frames, pos);
            assert(gs.skip(n) =~= fs.skip(next as int));
            let ghost cv = c@;
            appendix.insert_general(c.event, crate::appendix::General { name: event_symbol });
            appendix.insert_general(c.thunk, crate::appendix::General { name: plugin_name });
            let ghost before = d@.completions;
            d.on_completion(c);
            assert(completions_view(d@.completions) =~= bounded_push(completions_view(before), cv, 1000)) by {
                if before.len() > 0 {
                    assert(completions_view(before.drop_first()) =~= completions_view(before).drop_first());
                    assert(completions_view(before.drop_first().push(c)) =~= completions_view(before).drop_first().push(cv));
                }
                assert(completions_view(before.push(c)) =~= completions_view(before).push(cv));
            }
            proof {
                let done2 = done.push(rec);
                assert(done2.drop_last() =~= done);
                assert(done2 + rest.0 =~= done + (seq![rec] + rest.0));
                done = done2;
            }
            pos = next;
        }
        proof {
            assert(parse_completions(fs.skip(pos as int)).unwrap().0 =~= Seq::<CompletionRecord>::empty());
            assert(done =~= decoded_records(fs));
        }
        let ghost logs = decoded_logs(fs);
        let ghost mut seen: Seq<(Entity, Seq<StatusUpdateView>)> = Seq::empty();
        proof {
            assert(pos == total);
            assert(forall|e: Entity| #[trigger] key_lookup(d@.status_updates, e) == replayed(all_updates(seen), e)) by {
                assert forall|e: Entity| #[trigger] key_lookup(d@.status_updates, e) == replayed(all_updates(seen), e) by {
                    assert(!crate::keyed::has_key(d@.status_updates, e));
                }
            }
        }
        while pos < frames.len() && is_log_head(&frames[pos])
            invariant
                fs == frames_view(frames@),
                pos <= frames@.len(),
                parse_logs(fs.skip(pos as int)) is Some,
                seen + parse_logs(fs.skip(pos as int)).unwrap() == logs,
                forall|e: Entity| #[trigger] key_lookup(d@.status_updates, e) == replayed(all_updates(seen), e),
                appendix@.general == general_of(decoded_records(fs)),
                appendix@.state == Seq::<(Entity, crate::appendix::StateView)>::empty(),
                completions_view(d@.completions) == completions_of(decoded_records(fs)),
                d@.errors == Seq::<crate::debugger::ErrorContext>::empty(),
                d@.status_update_limit == 10,
                d@.completion_limit == 1000,
                crate::debugger::debugger_wf(d@),
            decreases frames@.len() - pos,
        {
            let ghost gs = fs.skip(pos as int);
            assert(gs[0] == frames@[pos as int]@);
            let e = frames[pos].entity;
            let ghost us = leading_updates(gs.drop_first(), e).unwrap();
            let ghost rest = parse_logs(gs.skip(1 + 2 * us.len() as int)).unwrap();
            let ghost base = all_updates(seen);
            let mut k: usize = pos + 1;
            let ghost mut taken: Seq<StatusUpdateView> = Seq::empty();
            assert(gs.drop_first() =~= fs.skip(k as int));
            while k < frames.len() - 1 && is_update_pair(&frames[k], &frames[k + 1])
                invariant
                    fs == frames_view(frames@),
                    pos < k <= frames@.len(),
                    k == pos + 1 + 2 * taken.len(),
                    leading_updates(fs.skip(k as int), e) is Some,
                    taken + leading_updates(fs.skip(k as int), e).unwrap() == us,
                    forall|x: Entity| #[trigger] key_lookup(d@.status_updates, x) == replayed(base + taken, x),
                    completions_view(d@.completions) == completions_of(decoded_records(fs)),
                    d@.errors == Seq::<crate::debugger::ErrorContext>::empty(),
                    d@.status_update_limit == 10,
                    d@.completion_limit == 1000,
                    crate::debugger::debugger_wf(d@),
                decreases frames@.len() - k,
            {
                let ghost hs = fs.skip(k as int);
                assert(hs[0] == frames@[k as int]@);
                assert(hs[1] == frames@[k + 1]@);
                let message = match &frames[k].value {
                    Some(Value::Symbol(m)) => m.clone(),
                    _ => vstd::pervasive::unreached(),
                };
                let progress = match &frames[k + 1].value {
                    Some(Value::Float(p)) => *p,
                    _ => vstd::pervasive::unreached(),
                };
                let u = StatusUpdate { entity: e, progress, message };
                let ghost uv = u@;
                let ghost old_d = d@;
                d.on_status_update(u);
                proof {
                    let t2 = taken.push(uv);
                    assert((base + t2).drop_last() =~= base + taken);
                    assert forall|x: Entity| #[trigger] key_lookup(d@.status_updates, x) == replayed(base + t2, x) by {
                        if x == e {
                            assert(key_lookup(old_d.status_updates, e) == replayed(base + taken, e));
                        }
                    }
                    assert(hs.skip(2) =~= fs.skip(k + 2));
                    assert(t2 + leading_updates(fs.skip(k + 2), e).unwrap() =~= taken + leading_updates(hs, e).unwrap());
                    taken = t2;
                }
                k = k + 2;
            }
            proof {
                assert(leading_updates(fs.skip(k as int), e).unwrap() =~= Seq::<StatusUpdateView>::empty()) by {
                    let hs = fs.skip(k as int);
                    if k + 1 < frames@.len() {
                        assert(hs[0] == frames@[k as int]@);
                        assert(hs[1] == frames@[k + 1]@);
                    }
                }
                assert(taken =~= us);
                assert(gs.skip(1 + 2 * us.len() as int) =~= fs.skip(k as int));
                let s2 = seen.push((e, us));
                assert(s2.drop_last() =~= seen);
                assert(all_updates(s2) =~= base + us);
                assert(s2 + rest =~= seen + (seq![(e, us)] + rest));
                seen = s2;
            }
            pos = k;
        }
        proof {
            assert(parse_logs(fs.skip(pos as int)).unwrap() =~= Seq::<(Entity, Seq<StatusUpdateView>)>::empty());
            assert(seen =~= logs);
        }
        d.set_appendix(appendix);
        d
    }
}

fn is_log_head(f: &Frame) -> (b: bool)
    ensures
        b == (f@.keyword == Keyword::Extension && f@.name == IdentView::Word(Word::StatusUpdate)),
{
    let k = match f.keyword {
        Keyword::Extension => true,
        _ => false,
    };
    let n = match f.name.word() {
        Some(Word::StatusUpdate) => true,
        _ => false,
    };
    k && n
}

fn is_update_pair(a: &Frame, b: &Frame) -> (r: bool)
    ensures
        r == (a@.name == IdentView::Word(Word::Message) && a@.value is Some
            && b@.name == IdentView::Word(Word::Progress) && b@.value is Some),
{
    let m = match a.name.word() {
        Some(Word::Message) => true,
        _ => false,
    };
    let p = match b.name.word() {
        Some(Word::Progress) => true,
        _ => false,
    };
    m && a.value.is_some() && p && b.value.is_some()
}

// ------------------------------------------------------------------------
// Reading back what was sent
// ------------------------------------------------------------------------

/// Property lists that a read builds back as they were: each name once, no
/// empty property, and lists of at least two values.
pub open spec fn properties_canonical(ps: Seq<(Seq<char>, PropertyValueView)>) -> bool {
    &&& crate::keyed::distinct_keys(ps)
    &&& forall|i: int| 0 <= i < ps.len() ==> match #[trigger] ps[i].1 {
        PropertyValueView::Empty => false,
        PropertyValueView::List(vs) => vs.len() >= 2,
        PropertyValueView::Single(_) => true,
    }
}

/// Completions that a read builds back as they were: the query and returns
/// carry the names a read gives them, and their properties are canonical.
pub open spec fn completion_canonical(c: CompletionView) -> bool {
    &&& c.query.name == "query"@
    &&& properties_canonical(c.query.entries)
    &&& match c.returns {
        Some(r) => r.name == "returns"@ && properties_canonical(r.entries),
        None => true,
    }
}

/// The values stop before `rest`: it is empty or does not start with a value frame.
pub open spec fn stops_values(rest: Seq<FrameView>) -> bool {
    rest.len() == 0 || !is_value_frame(rest[0])
}

proof fn lemma_leading_values_of_frames(vs: Seq<(Seq<char>, ValueView)>, rest: Seq<FrameView>)
    requires
        stops_values(rest),
    ensures
        leading_values(values_frames(vs) + rest) == vs,
    decreases vs.len(),
{
    let fs = values_frames(vs) + rest;
    if vs.len() == 0 {
        assert(fs =~= rest);
        assert(leading_values(fs) =~= Seq::<(Seq<char>, ValueView)>::empty());
    } else {
        assert(fs.drop_first() =~= values_frames(vs.drop_first()) + rest);
        lemma_leading_values_of_frames(vs.drop_first(), rest);
        assert(fs[0] == named_value_frame(vs[0].0, vs[0].1));
        assert(leading_values(fs) =~= seq![vs[0]] + vs.drop_first());
        assert(seq![vs[0]] + vs.drop_first() =~= vs);
    }
}

/// Adds named values, in order, to properties.
pub open spec fn add_all(ps: Seq<(Seq<char>, PropertyValueView)>, vs: Seq<(Seq<char>, ValueView)>) -> Seq<(Seq<char>, PropertyValueView)>
    decreases vs.len(),
{
    if vs.len() == 0 {
        ps
    } else {
        add_property(add_all(ps, vs.drop_last()), vs.last().0, vs.last().1)
    }
}

proof fn lemma_properties_of_add_all(vs: Seq<(Seq<char>, ValueView)>)
    ensures
        properties_of(vs) == add_all(Seq::empty(), vs),
    decreases vs.len(),
{
    if vs.len() > 0 {
        lemma_properties_of_add_all(vs.drop_last());
    }
}

proof fn lemma_add_all_concat(ps: Seq<(Seq<char>, PropertyValueView)>, a: Seq<(Seq<char>, ValueView)>, b: Seq<(Seq<char>, ValueView)>)
    ensures
        add_all(ps, a + b) == add_all(add_all(ps, a), b),
    decreases b.len(),
{
    if b.len() == 0 {
        assert(a + b =~= a);
    } else {
        assert((a + b).drop_last() =~= a + b.drop_last());
        assert((a + b).last() == b.last());
        lemma_add_all_concat(ps, a, b.drop_last());
    }
}

proof fn lemma_lookup_pushed<V>(ps: Seq<(Seq<char>, V)>, n: Seq<char>, x: V)
    requires
        !crate::keyed::has_key(ps, n),
    ensures
        key_lookup(ps.push((n, x)), n) == Some(x),
        crate::keyed::key_position(ps.push((n, x)), n) == ps.len(),
        forall|m: Seq<char>| m != n ==> #[trigger] key_lookup(ps.push((n, x)), m) == key_lookup(ps, m),
{
    let q = ps.push((n, x));
    crate::keyed::lemma_key_position(q, n);
    assert(crate::keyed::first_key(q, n, ps.len() as int));
    assert forall|m: Seq<char>| m != n implies #[trigger] key_lookup(q, m) == key_lookup(ps, m) by {
        crate::keyed::lemma_key_position(ps, m);
        crate::keyed::lemma_key_position(q, m);
        if crate::keyed::has_key(ps, m) {
            assert(crate::keyed::first_key(q, m, crate::keyed::key_position(ps, m)));
        } else if crate::keyed::has_key(q, m) {
            let i = choose|i: int| 0 <= i < q.len() && q[i].0 == m;
            assert(ps[i].0 == m);
        }
    }
}

/// Adding the values of one property whose name is new gives that property back.
proof fn lemma_add_list(ps: Seq<(Seq<char>, PropertyValueView)>, n: Seq<char>, vs: Seq<ValueView>, k: int)
    requires
        !crate::keyed::has_key(ps, n),
        1 <= k <= vs.len(),
    ensures
        add_all(ps, vs.subrange(0, k).map_values(|v: ValueView| (n, v))) == ps.push((n,
            if k == 1 { PropertyValueView::Single(vs[0]) } else { PropertyValueView::List(vs.subrange(0, k)) })),
    decreases k,
{
    let items = vs.subrange(0, k).map_values(|v: ValueView| (n, v));
    assert(items.drop_last() =~= vs.subrange(0, k - 1).map_values(|v: ValueView| (n, v)));
    assert(items.last() == (n, vs[k - 1]));
    assert(add_all(ps, items) == add_property(add_all(ps, items.drop_last()), items.last().0, items.last().1));
    if k == 1 {
        assert(items.drop_last() =~= Seq::<(Seq<char>, ValueView)>::empty());
        assert(add_all(ps, items.drop_last()) == ps);
        crate::keyed::lemma_key_position(ps, n);
        assert(key_lookup(ps, n) is None);
        assert(add_property(ps, n, vs[0]) =~= ps.push((n, PropertyValueView::Single(vs[0]))));
    } else {
        lemma_add_list(ps, n, vs, k - 1);
        let prev_x = if k - 1 == 1 { PropertyValueView::Single(vs[0]) } else { PropertyValueView::List(vs.subrange(0, k - 1)) };
        let prev = ps.push((n, prev_x));
        lemma_lookup_pushed(ps, n, prev_x);
        if k - 1 == 1 {
            assert(seq![vs[0], vs[1]] =~= vs.subrange(0, k));
        } else {
            assert(vs.subrange(0, k - 1).push(vs[k - 1]) =~= vs.subrange(0, k));
        }
        assert(add_property(prev, n, vs[k - 1]) =~= ps.push((n, PropertyValueView::List(vs.subrange(0, k)))));
    }
}

proof fn lemma_properties_round_trip(ps: Seq<(Seq<char>, PropertyValueView)>)
    requires
        properties_canonical(ps),
    ensures
        properties_of(property_values(ps)) == ps,
    decreases ps.len(),
{
    lemma_properties_of_add_all(property_values(ps));
    if ps.len() == 0 {
        assert(property_values(ps) =~= Seq::<(Seq<char>, ValueView)>::empty());
    } else {
        let init = ps.drop_last();
        let (n, x) = ps.last();
        assert(properties_canonical(init)) by {
            assert forall|i: int| 0 <= i < init.len() implies match #[trigger] init[i].1 {
                PropertyValueView::Empty => false,
                PropertyValueView::List(vs) => vs.len() >= 2,
                PropertyValueView::Single(_) => true,
            } by {
                assert(init[i] == ps[i]);
            }
        }
        lemma_properties_round_trip(init);
        lemma_properties_of_add_all(property_values(init));
        assert(!crate::keyed::has_key(init, n)) by {
            if crate::keyed::has_key(init, n) {
                let i = choose|i: int| 0 <= i < init.len() && init[i].0 == n;
                assert(ps[i].0 == ps[ps.len() - 1].0);
            }
        }
        let tail = match x {
            PropertyValueView::Single(v) => seq![(n, v)],
            PropertyValueView::List(vs) => vs.map_values(|v: ValueView| (n, v)),
            PropertyValueView::Empty => Seq::empty(),
        };
        assert(property_values(ps) == property_values(init) + tail);
        lemma_add_all_concat(Seq::empty(), property_values(init), tail);
        assert(ps[ps.len() - 1].1 == x);
        assert(add_all(Seq::empty(), property_values(init)) == init);
        assert(properties_of(property_values(ps)) == add_all(init, tail));
        assert(init.push((n, x)) =~= ps);
        match x {
            PropertyValueView::Single(v) => {
                assert(tail.drop_last() =~= Seq::<(Seq<char>, ValueView)>::empty());
                assert(add_all(init, tail.drop_last()) == init);
                assert(add_all(init, tail) == add_property(init, n, v));
                crate::keyed::lemma_key_position(init, n);
                assert(add_property(init, n, v) =~= init.push((n, PropertyValueView::Single(v))));
            },
            PropertyValueView::List(vs) => {
                assert(vs.len() >= 2);
                assert(vs.subrange(0, vs.len() as int) =~= vs);
                assert(tail =~= vs.subrange(0, vs.len() as int).map_values(|v: ValueView| (n, v)));
                lemma_add_list(init, n, vs, vs.len() as int);
            },
            PropertyValueView::Empty => {
                assert(false);
            },
        }
    }
}

proof fn lemma_timestamp_round_trip(t: i64)
    ensures
        joined_timestamp(timestamp_low(t), timestamp_high(t)) == t,
{
    assert(((((t >> 32i64) as i32) as i64) << 32i64) | (((t as i32) as u32) as i64) == t) by (bit_vector);
}

/// What may follow the frames of a completion: no value, and no returns extension.
pub open spec fn ends_completion(rest: Seq<FrameView>) -> bool {
    stops_values(rest) && (rest.len() == 0 || !is_ext(rest[0], Word::Completion, Word::Returns))
}

/// The record a read makes of a completion sent with an appendix.
pub open spec fn record_of(c: CompletionView, a: AppendixView) -> CompletionRecord {
    CompletionRecord { completion: c, event_symbol: symbol_or_empty(a, c.event), plugin_name: name_or_empty(a, c.thunk) }
}

proof fn lemma_skip_concat(x: Seq<FrameView>, y: Seq<FrameView>, k: int)
    requires
        0 <= k <= x.len(),
    ensures
        (x + y).skip(k) == x.skip(k) + y,
{
    assert((x + y).skip(k) =~= x.skip(k) + y);
}

proof fn lemma_values_part(vs: Seq<(Seq<char>, ValueView)>, head: FrameView, tail: Seq<FrameView>)
    requires
        stops_values(tail),
    ensures
        ({
            let g = seq![head] + values_frames(vs) + tail;
            &&& g[0] == head
            &&& leading_values(g.skip(1)) == vs
            &&& g.skip(1 + vs.len() as int) == tail
            &&& g.len() == 1 + vs.len() + tail.len()
        }),
{
    let g = seq![head] + values_frames(vs) + tail;
    assert(g.skip(1) =~= values_frames(vs) + tail);
    lemma_leading_values_of_frames(vs, tail);
    assert(g.skip(1 + vs.len() as int) =~= tail);
}

/// Reading the part after the head of a completion: where the query starts,
/// and the control values read.
proof fn lemma_after_head(c: CompletionView, tail: Seq<FrameView>)
    requires
        stops_values(tail),
        tail.len() > 0,
        !is_ext(tail[0], Word::Completion, Word::ControlValues),
    ensures
        ({
            let g = control_values_part(c) + tail;
            let has_cv = g.len() > 0 && is_ext(g[0], Word::Completion, Word::ControlValues);
            &&& has_cv == (c.control_values.len() > 0)
            &&& has_cv ==> leading_values(g.skip(1)) == c.control_values
            &&& g.skip(if has_cv { 1 + c.control_values.len() as int } else { 0 }) == tail
        }),
{
    let g = control_values_part(c) + tail;
    if c.control_values.len() > 0 {
        lemma_values_part(c.control_values, ext_frame(Word::Completion, Word::ControlValues), tail);
        assert(g =~= seq![ext_frame(Word::Completion, Word::ControlValues)] + values_frames(c.control_values) + tail);
    } else {
        assert(g =~= tail);
        assert(g.skip(0) =~= tail);
    }
}

proof fn lemma_returns_read(c: CompletionView, rest: Seq<FrameView>)
    requires
        ends_completion(rest),
    ensures
        ({
            let g = returns_part(c) + rest;
            let has_r = g.len() > 0 && is_ext(g[0], Word::Completion, Word::Returns);
            &&& has_r == (c.returns is Some)
            &&& has_r ==> leading_values(g.skip(1)) == property_values(c.returns.unwrap().entries)
            &&& has_r ==> g.len() == 1 + property_values(c.returns.unwrap().entries).len() + rest.len()
            &&& !has_r ==> g == rest
        }),
{
    let g = returns_part(c) + rest;
    match c.returns {
        Some(r) => {
            lemma_values_part(property_values(r.entries), ext_frame(Word::Completion, Word::Returns), rest);
            assert(g =~= seq![ext_frame(Word::Completion, Word::Returns)] + values_frames(property_values(r.entries)) + rest);
        },
        None => {
            assert(g =~= rest);
        },
    }
}

proof fn lemma_parse_completion_at(
    fs: Seq<FrameView>, lo: i32, hi: i32, event_symbol: Seq<char>, plugin_name: Seq<char>,
    has_cv: bool, cv: Seq<(Seq<char>, ValueView)>, j1: int, q: Seq<(Seq<char>, ValueView)>, j2: int,
    has_r: bool, r: Seq<(Seq<char>, ValueView)>, j3: int,
)
    requires
        fs.len() >= 4,
        fs[1].name == IdentView::Word(Word::Timestamp),
        fs[1].value == Some(ValueView::IntPair(lo, hi)),
        fs[2].name == IdentView::Word(Word::Event),
        fs[2].value == Some(ValueView::Symbol(event_symbol)),
        fs[3].name == IdentView::Word(Word::Plugin),
        fs[3].value == Some(ValueView::Symbol(plugin_name)),
        has_cv == (fs.len() > 4 && is_ext(fs[4], Word::Completion, Word::ControlValues)),
        has_cv ==> leading_values(fs.skip(5)) == cv,
        !has_cv ==> cv == Seq::<(Seq<char>, ValueView)>::empty(),
        j1 == (if has_cv { 5 + cv.len() } else { 4 }),
        j1 < fs.len(),
        is_ext(fs[j1], Word::Completion, Word::Query),
        leading_values(fs.skip(j1 + 1)) == q,
        j2 == j1 + 1 + q.len(),
        has_r == (j2 < fs.len() && is_ext(fs[j2], Word::Completion, Word::Returns)),
        leading_values(fs.skip(j2 + 1)) == r,
        j3 == (if has_r { j2 + 1 + r.len() } else { j2 }),
    ensures
        parse_completion(fs) == Some((CompletionRecord {
            completion: CompletionView {
                timestamp: joined_timestamp(lo, hi),
                event: fs[2].entity,
                thunk: fs[3].entity,
                control_values: cv,
                query: crate::debugger::PropertiesView { name: "query"@, entries: properties_of(q) },
                returns: if has_r {
                    Some(crate::debugger::PropertiesView { name: "returns"@, entries: properties_of(r) })
                } else {
                    None
                },
            },
            event_symbol,
            plugin_name,
        }, j3)),
{
    reveal(parse_completion);
}

#[verifier::spinoff_prover]
#[verifier::rlimit(40)]
proof fn lemma_completion_round_trip(c: CompletionView, a: AppendixView, rest: Seq<FrameView>)
    requires
        completion_canonical(c),
        ends_completion(rest),
    ensures
        parse_completion(completion_frames(c, a) + rest) == Some((record_of(c, a), completion_frames(c, a).len() as int)),
{
    let head = completion_head(c, a);
    let cvp = control_values_part(c);
    let qp = query_part(c);
    let rp = returns_part(c);
    let pq = property_values(c.query.entries);
    let fs = completion_frames(c, a) + rest;
    let after_q = rp + rest;
    let after_cv = qp + after_q;
    let x = cvp + after_cv;
    assert(fs =~= head + x);
    // the head
    lemma_skip_concat(head, x, 4);
    assert(fs.skip(4) == x);
    // the control values
    assert(after_cv =~= seq![ext_frame(Word::Completion, Word::Query)] + values_frames(pq) + after_q);
    assert(after_cv[0] == ext_frame(Word::Completion, Word::Query));
    lemma_after_head(c, after_cv);
    let has_cv = c.control_values.len() > 0;
    let ncv: int = if has_cv { 1 + c.control_values.len() as int } else { 0 };
    assert(x.skip(ncv) == after_cv);
    if has_cv {
        assert(fs[4] == x[0]);
        assert(fs.skip(5) =~= x.skip(1));
    } else {
        assert(fs[4] == after_cv[0]);
    }
    let j1: int = 4 + ncv;
    assert(fs.skip(j1) =~= after_cv);
    // the query
    lemma_returns_read(c, rest);
    assert(stops_values(after_q)) by {
        if after_q.len() > 0 {
            if c.returns is Some {
                assert(after_q[0] == ext_frame(Word::Completion, Word::Returns));
            } else {
                assert(after_q =~= rest);
            }
        }
    }
    lemma_values_part(pq, ext_frame(Word::Completion, Word::Query), after_q);
    assert(fs[j1] == after_cv[0]);
    assert(fs.skip(j1 + 1) =~= after_cv.skip(1));
    let j2: int = j1 + 1 + pq.len();
    assert(fs.skip(j2) =~= after_q);
    // the returns
    if c.returns is Some {
        assert(fs[j2] == after_q[0]);
        assert(fs.skip(j2 + 1) =~= after_q.skip(1));
    } else {
        if j2 < fs.len() {
            assert(fs[j2] == after_q[0]);
            assert(after_q =~= rest);
        }
    }
    let pr = match c.returns { Some(r) => property_values(r.entries), None => leading_values(fs.skip(j2 + 1)) };
    let has_r = c.returns is Some;
    let j3: int = if has_r { j2 + 1 + pr.len() } else { j2 };
    if !has_cv {
        assert(c.control_values =~= Seq::<(Seq<char>, ValueView)>::empty());
    }
    assert(fs[1] == head[1]);
    assert(fs[2] == head[2]);
    assert(fs[3] == head[3]);
    lemma_parse_completion_at(
        fs, timestamp_low(c.timestamp), timestamp_high(c.timestamp),
        symbol_or_empty(a, c.event), name_or_empty(a, c.thunk),
        has_cv, c.control_values, j1, pq, j2, has_r, pr, j3,
    );
    lemma_timestamp_round_trip(c.timestamp);
    lemma_properties_round_trip(c.query.entries);
    if let Some(r) = c.returns {
        lemma_properties_round_trip(r.entries);
    }
    reveal_strlit("query");
    reveal_strlit("returns");
    assert(c.query == crate::debugger::PropertiesView { name: "query"@, entries: properties_of(pq) });
    match c.returns {
        Some(r) => {
            assert(r == crate::debugger::PropertiesView { name: "returns"@, entries: properties_of(property_values(r.entries)) });
        },
        None => {},
    }
    assert(fs.len() == completion_frames(c, a).len() + rest.len());
}

pub open spec fn records_of(cs: Seq<CompletionView>, a: AppendixView) -> Seq<CompletionRecord> {
    cs.map_values(|c: CompletionView| record_of(c, a))
}

proof fn lemma_completions_frames_front(cs: Seq<CompletionView>, a: AppendixView)
    requires
        cs.len() > 0,
    ensures
        completions_frames(cs, a) == completion_frames(cs[0], a) + completions_frames(cs.drop_first(), a),
    decreases cs.len(),
{
    if cs.len() == 1 {
        assert(cs.drop_last() =~= Seq::<CompletionView>::empty());
        assert(cs.drop_first() =~= Seq::<CompletionView>::empty());
        assert(completions_frames(cs.drop_last(), a) =~= Seq::<FrameView>::empty());
        assert(cs.last() == cs[0]);
        assert(completions_frames(cs, a) =~= completion_frames(cs[0], a));
        assert(completions_frames(cs.drop_first(), a) =~= Seq::<FrameView>::empty());
        assert(completion_frames(cs[0], a) + Seq::<FrameView>::empty() =~= completion_frames(cs[0], a));
    } else {
        lemma_completions_frames_front(cs.drop_last(), a);
        assert(cs.drop_last()[0] == cs[0]);
        assert(cs.drop_last().drop_first() =~= cs.drop_first().drop_last());
        assert(cs.drop_first().last() == cs.last());
        assert(completions_frames(cs.drop_first(), a) =~= completions_frames(cs.drop_first().drop_last(), a) + completion_frames(cs.last(), a));
        assert(completions_frames(cs, a) =~= completion_frames(cs[0], a) + completions_frames(cs.drop_first(), a));
    }
}

/// What may follow the frames of the completions: not another completion, and
/// nothing a completion would take.
pub open spec fn ends_completions(rest: Seq<FrameView>) -> bool {
    ends_completion(rest) && (rest.len() == 0 || !is_ext(rest[0], Word::Debugger, Word::Completion))
}

proof fn lemma_completions_round_trip(cs: Seq<CompletionView>, a: AppendixView, rest: Seq<FrameView>)
    requires
        forall|i: int| 0 <= i < cs.len() ==> completion_canonical(#[trigger] cs[i]),
        ends_completions(rest),
    ensures
        parse_completions(completions_frames(cs, a) + rest) == Some((records_of(cs, a), completions_frames(cs, a).len() as int)),
    decreases cs.len(),
{
    if cs.len() == 0 {
        assert(completions_frames(cs, a) + rest =~= rest);
        assert(records_of(cs, a) =~= Seq::<CompletionRecord>::empty());
    } else {
        let tail = cs.drop_first();
        lemma_completions_frames_front(cs, a);
        let first = completion_frames(cs[0], a);
        let later = completions_frames(tail, a) + rest;
        let fs = completions_frames(cs, a) + rest;
        assert(fs =~= first + later);
        assert(forall|i: int| 0 <= i < tail.len() ==> completion_canonical(#[trigger] tail[i])) by {
            assert forall|i: int| 0 <= i < tail.len() implies completion_canonical(#[trigger] tail[i]) by {
                assert(tail[i] == cs[i + 1]);
            }
        }
        lemma_completions_round_trip(tail, a, rest);
        if tail.len() > 0 {
            lemma_completions_frames_front(tail, a);
            assert(later[0] == ext_frame(Word::Debugger, Word::Completion));
        } else {
            assert(later =~= rest);
        }
        assert(completion_canonical(cs[0]));
        lemma_completion_round_trip(cs[0], a, later);
        assert(fs[0] == ext_frame(Word::Debugger, Word::Completion));
        assert(fs.skip(first.len() as int) =~= later);
        assert(records_of(cs, a) =~= seq![record_of(cs[0], a)] + records_of(tail, a));
    }
}

proof fn lemma_completions_of_records(cs: Seq<CompletionView>, a: AppendixView)
    requires
        cs.len() <= 1000,
    ensures
        completions_of(records_of(cs, a)) == cs,
    decreases cs.len(),
{
    if cs.len() > 0 {
        assert(records_of(cs, a).drop_last() =~= records_of(cs.drop_last(), a));
        lemma_completions_of_records(cs.drop_last(), a);
        assert(cs.drop_last().push(cs.last()) =~= cs);
    } else {
        assert(records_of(cs, a) =~= Seq::<CompletionRecord>::empty());
    }
}

// Logs

proof fn lemma_updates_frames_front(us: Seq<StatusUpdateView>, e: Entity)
    requires
        us.len() > 0,
    ensures
        updates_frames(us, e) == update_frames(us[0], e) + updates_frames(us.drop_first(), e),
    decreases us.len(),
{
    if us.len() == 1 {
        assert(us.drop_last() =~= Seq::<StatusUpdateView>::empty());
        assert(us.drop_first() =~= Seq::<StatusUpdateView>::empty());
        assert(updates_frames(us.drop_last(), e) =~= Seq::<FrameView>::empty());
        assert(us.last() == us[0]);
        assert(updates_frames(us, e) =~= update_frames(us[0], e));
        assert(update_frames(us[0], e) + Seq::<FrameView>::empty() =~= update_frames(us[0], e));
    } else {
        lemma_updates_frames_front(us.drop_last(), e);
        assert(us.drop_last()[0] == us[0]);
        assert(us.drop_last().drop_first() =~= us.drop_first().drop_last());
        assert(us.drop_first().last() == us.last());
        assert(updates_frames(us, e) =~= update_frames(us[0], e) + updates_frames(us.drop_first(), e));
    }
}

proof fn lemma_updates_frames_len(us: Seq<StatusUpdateView>, e: Entity)
    ensures
        updates_frames(us, e).len() == 2 * us.len(),
    decreases us.len(),
{
    if us.len() > 0 {
        lemma_updates_frames_len(us.drop_last(), e);
    }
}

/// What may follow the updates of a log: not another pair of a message and a progress.
pub open spec fn ends_updates(rest: Seq<FrameView>) -> bool {
    rest.len() < 2 || !(rest[0].name == IdentView::Word(Word::Message) && rest[0].value is Some
        && rest[1].name == IdentView::Word(Word::Progress) && rest[1].value is Some)
}

proof fn lemma_updates_round_trip(us: Seq<StatusUpdateView>, e: Entity, rest: Seq<FrameView>)
    requires
        forall|j: int| 0 <= j < us.len() ==> (#[trigger] us[j]).entity == e,
        ends_updates(rest),
    ensures
        leading_updates(updates_frames(us, e) + rest, e) == Some(us),
    decreases us.len(),
{
    let fs = updates_frames(us, e) + rest;
    if us.len() == 0 {
        assert(fs =~= rest);
        assert(us =~= Seq::<StatusUpdateView>::empty());
    } else {
        let tail = us.drop_first();
        lemma_updates_frames_front(us, e);
        assert(fs =~= update_frames(us[0], e) + (updates_frames(tail, e) + rest));
        assert(fs.skip(2) =~= updates_frames(tail, e) + rest);
        assert(forall|j: int| 0 <= j < tail.len() ==> (#[trigger] tail[j]).entity == e) by {
            assert forall|j: int| 0 <= j < tail.len() implies (#[trigger] tail[j]).entity == e by {
                assert(tail[j] == us[j + 1]);
            }
        }
        lemma_updates_round_trip(tail, e, rest);
        assert(us[0].entity == e);
        assert(seq![StatusUpdateView { entity: e, progress: us[0].progress, message: us[0].message }] + tail =~= us);
    }
}

proof fn lemma_logs_frames_front(ls: Seq<(Entity, Seq<StatusUpdateView>)>, a: AppendixView)
    requires
        ls.len() > 0,
    ensures
        logs_frames(ls, a) == seq![log_head(ls[0].0, name_or_empty(a, ls[0].0))] + updates_frames(ls[0].1, ls[0].0)
            + logs_frames(ls.drop_first(), a),
    decreases ls.len(),
{
    if ls.len() == 1 {
        assert(ls.drop_last() =~= Seq::<(Entity, Seq<StatusUpdateView>)>::empty());
        assert(ls.drop_first() =~= Seq::<(Entity, Seq<StatusUpdateView>)>::empty());
        assert(logs_frames(ls.drop_first(), a) =~= Seq::<FrameView>::empty());
        assert(logs_frames(ls, a) =~= seq![log_head(ls[0].0, name_or_empty(a, ls[0].0))] + updates_frames(ls[0].1, ls[0].0)
            + logs_frames(ls.drop_first(), a));
    } else {
        lemma_logs_frames_front(ls.drop_last(), a);
        assert(ls.drop_last()[0] == ls[0]);
        assert(ls.drop_last().drop_first() =~= ls.drop_first().drop_last());
        assert(ls.drop_first().last() == ls.last());
        assert(logs_frames(ls, a) =~= seq![log_head(ls[0].0, name_or_empty(a, ls[0].0))] + updates_frames(ls[0].1, ls[0].0)
            + logs_frames(ls.drop_first(), a));
    }
}

/// Logs whose updates are each about the log's entity.
pub open spec fn logs_own_updates(ls: Seq<(Entity, Seq<StatusUpdateView>)>) -> bool {
    forall|i: int, j: int| 0 <= i < ls.len() && 0 <= j < ls[i].1.len() ==> (#[trigger] ls[i].1[j]).entity == ls[i].0
}

proof fn lemma_logs_own_split(ls: Seq<(Entity, Seq<StatusUpdateView>)>)
    requires
        ls.len() > 0,
        logs_own_updates(ls),
    ensures
        logs_own_updates(ls.drop_first()),
        forall|j: int| 0 <= j < ls[0].1.len() ==> (#[trigger] ls[0].1[j]).entity == ls[0].0,
{
    let tail = ls.drop_first();
    assert forall|i: int, j: int| 0 <= i < tail.len() && 0 <= j < tail[i].1.len() implies (#[trigger] tail[i].1[j]).entity == tail[i].0 by {
        assert(tail[i] == ls[i + 1]);
    }
}

proof fn lemma_logs_step(e: Entity, name: Seq<char>, us: Seq<StatusUpdateView>, later: Seq<FrameView>, parsed_later: Seq<(Entity, Seq<StatusUpdateView>)>)
    requires
        forall|j: int| 0 <= j < us.len() ==> (#[trigger] us[j]).entity == e,
        later.len() == 0 || (later[0].keyword == Keyword::Extension && later[0].name == IdentView::Word(Word::StatusUpdate)),
        parse_logs(later) == Some(parsed_later),
    ensures
        parse_logs(seq![log_head(e, name)] + (updates_frames(us, e) + later)) == Some(seq![(e, us)] + parsed_later),
{
    let fs = seq![log_head(e, name)] + (updates_frames(us, e) + later);
    assert(fs.drop_first() =~= updates_frames(us, e) + later);
    lemma_updates_round_trip(us, e, later);
    lemma_updates_frames_len(us, e);
    assert(fs.skip(1 + 2 * us.len() as int) =~= later);
}

proof fn lemma_logs_round_trip(ls: Seq<(Entity, Seq<StatusUpdateView>)>, a: AppendixView)
    requires
        logs_own_updates(ls),
    ensures
        parse_logs(logs_frames(ls, a)) == Some(ls),
    decreases ls.len(),
{
    if ls.len() == 0 {
        assert(ls =~= Seq::<(Entity, Seq<StatusUpdateView>)>::empty());
    } else {
        let e = ls[0].0;
        let us = ls[0].1;
        let tail = ls.drop_first();
        lemma_logs_frames_front(ls, a);
        lemma_logs_own_split(ls);
        lemma_logs_round_trip(tail, a);
        let later = logs_frames(tail, a);
        if tail.len() > 0 {
            lemma_logs_frames_front(tail, a);
            assert(later[0] == log_head(tail[0].0, name_or_empty(a, tail[0].0)));
        }
        lemma_logs_step(e, name_or_empty(a, e), us, later, tail);
        assert(logs_frames(ls, a) =~= seq![log_head(e, name_or_empty(a, e))] + (updates_frames(us, e) + later));
        assert(seq![(e, us)] + tail =~= ls);
    }
}

// Replaying the updates of logs

proof fn lemma_replayed_others(a: Seq<StatusUpdateView>, b: Seq<StatusUpdateView>, e: Entity)
    requires
        forall|j: int| 0 <= j < b.len() ==> (#[trigger] b[j]).entity != e,
    ensures
        replayed(a + b, e) == replayed(a, e),
    decreases b.len(),
{
    if b.len() == 0 {
        assert(a + b =~= a);
    } else {
        assert((a + b).drop_last() =~= a + b.drop_last());
        assert((a + b).last() == b[b.len() - 1]);
        lemma_replayed_others(a, b.drop_last(), e);
    }
}

proof fn lemma_replayed_own(a: Seq<StatusUpdateView>, b: Seq<StatusUpdateView>, e: Entity)
    requires
        replayed(a, e) is None,
        0 < b.len() <= 10,
        forall|j: int| 0 <= j < b.len() ==> (#[trigger] b[j]).entity == e,
    ensures
        replayed(a + b, e) == Some(b),
    decreases b.len(),
{
    assert((a + b).drop_last() =~= a + b.drop_last());
    assert((a + b).last() == b[b.len() - 1]);
    if b.len() == 1 {
        assert(a + b.drop_last() =~= a);
        assert(seq![b[0]] =~= b);
        assert(Seq::<StatusUpdateView>::empty().push(b[0]) =~= b);
    } else {
        lemma_replayed_own(a, b.drop_last(), e);
        assert(b.drop_last().push(b.last()) =~= b);
    }
}

proof fn lemma_all_updates_keys(ls: Seq<(Entity, Seq<StatusUpdateView>)>, e: Entity)
    requires
        logs_own_updates(ls),
        !crate::keyed::has_key(ls, e),
    ensures
        replayed(all_updates(ls), e) is None,
    decreases ls.len(),
{
    if ls.len() > 0 {
        let init = ls.drop_last();
        assert(logs_own_updates(init)) by {
            assert forall|i: int, j: int| 0 <= i < init.len() && 0 <= j < init[i].1.len() implies (#[trigger] init[i].1[j]).entity == init[i].0 by {
                assert(init[i] == ls[i]);
            }
        }
        assert(!crate::keyed::has_key(init, e)) by {
            if crate::keyed::has_key(init, e) {
                let i = choose|i: int| 0 <= i < init.len() && init[i].0 == e;
                assert(ls[i].0 == e);
            }
        }
        lemma_all_updates_keys(init, e);
        let last = ls.last();
        assert(last.0 != e);
        assert forall|j: int| 0 <= j < last.1.len() implies (#[trigger] last.1[j]).entity != e by {
            assert(ls[ls.len() - 1].1[j].entity == ls[ls.len() - 1].0);
        }
        lemma_replayed_others(all_updates(init), last.1, e);
    }
}

proof fn lemma_replayed_logs(ls: Seq<(Entity, Seq<StatusUpdateView>)>, e: Entity)
    requires
        crate::keyed::distinct_keys(ls),
        logs_own_updates(ls),
        forall|i: int| 0 <= i < ls.len() ==> 0 < (#[trigger] ls[i]).1.len() <= 10,
    ensures
        replayed(all_updates(ls), e) == key_lookup(ls, e),
    decreases ls.len(),
{
    crate::keyed::lemma_key_position(ls, e);
    if ls.len() == 0 {
        assert(!crate::keyed::has_key(ls, e));
    } else {
        let init = ls.drop_last();
        let last = ls.last();
        assert(crate::keyed::distinct_keys(init));
        assert(logs_own_updates(init)) by {
            assert forall|i: int, j: int| 0 <= i < init.len() && 0 <= j < init[i].1.len() implies (#[trigger] init[i].1[j]).entity == init[i].0 by {
                assert(init[i] == ls[i]);
            }
        }
        assert forall|i: int| 0 <= i < init.len() implies 0 < (#[trigger] init[i]).1.len() <= 10 by {
            assert(init[i] == ls[i]);
        }
        lemma_replayed_logs(init, e);
        crate::keyed::lemma_key_position(init, e);
        assert(init.push(last) =~= ls);
        if last.0 == e {
            assert(!crate::keyed::has_key(init, e)) by {
                if crate::keyed::has_key(init, e) {
                    let i = choose|i: int| 0 <= i < init.len() && init[i].0 == e;
                    assert(ls[i].0 == ls[ls.len() - 1].0);
                }
            }
            lemma_all_updates_keys(init, e);
            assert(0 < ls[ls.len() - 1].1.len() <= 10);
            assert forall|j: int| 0 <= j < last.1.len() implies (#[trigger] last.1[j]).entity == e by {
                assert(ls[ls.len() - 1].1[j].entity == ls[ls.len() - 1].0);
            }
            lemma_replayed_own(all_updates(init), last.1, e);
            lemma_lookup_pushed_entity(init, last.0, last.1);
        } else {
            assert forall|j: int| 0 <= j < last.1.len() implies (#[trigger] last.1[j]).entity != e by {
                assert(ls[ls.len() - 1].1[j].entity == ls[ls.len() - 1].0);
            }
            lemma_replayed_others(all_updates(init), last.1, e);
            lemma_lookup_pushed_other(init, last.0, last.1, e);
        }
    }
}

proof fn lemma_lookup_pushed_entity<V>(ps: Seq<(Entity, V)>, n: Entity, x: V)
    requires
        !crate::keyed::has_key(ps, n),
    ensures
        key_lookup(ps.push((n, x)), n) == Some(x),
{
    let q = ps.push((n, x));
    crate::keyed::lemma_key_position(q, n);
    assert(crate::keyed::first_key(q, n, ps.len() as int));
}

proof fn lemma_lookup_pushed_other<V>(ps: Seq<(Entity, V)>, n: Entity, x: V, m: Entity)
    requires
        m != n,
    ensures
        key_lookup(ps.push((n, x)), m) == key_lookup(ps, m),
{
    let q = ps.push((n, x));
    crate::keyed::lemma_key_position(ps, m);
    crate::keyed::lemma_key_position(q, m);
    if crate::keyed::has_key(ps, m) {
        assert(crate::keyed::first_key(q, m, crate::keyed::key_position(ps, m)));
    } else if crate::keyed::has_key(q, m) {
        let i = choose|i: int| 0 <= i < q.len() && q[i].0 == m;
        assert(ps[i].0 == m);
    }
}

/// A debugger read back from the frames it is sent as has the same completions
/// and, for every entity, the same status log. This holds when nothing is lost
/// to the default limits of a fresh debugger (at most 1000 completions, logs of
/// at most 10 updates), logs are not empty and hold only updates about their
/// entity, and the query and returns of each completion are as a read builds
/// them (named `query` and `returns`, each property once, no empty property, no
/// list of fewer than two values).
pub proof fn law_debugger_round_trip(d: DebuggerView)
    requires
        crate::debugger::debugger_wf(d),
        d.completions.len() <= 1000,
        forall|i: int| 0 <= i < d.completions.len() ==> completion_canonical(#[trigger] d.completions[i]@),
        forall|i: int| 0 <= i < d.status_updates.len() ==> 0 < (#[trigger] d.status_updates[i]).1.len() <= 10,
        logs_own_updates(d.status_updates),
    ensures
        debugger_decodable(debugger_frames(d)),
        completions_of(decoded_records(debugger_frames(d))) == completions_view(d.completions),
        forall|e: Entity| #[trigger] replayed(all_updates(decoded_logs(debugger_frames(d))), e)
            == key_lookup(d.status_updates, e),
{
    let a = d.appendix;
    let cs = completions_view(d.completions);
    let ls = d.status_updates;
    let lf = logs_frames(ls, a);
    let cf = completions_frames(cs, a);
    let fs = debugger_frames(d);
    assert(fs == cf + lf);
    if ls.len() > 0 {
        lemma_logs_frames_front(ls, a);
        assert(lf[0] == log_head(ls[0].0, name_or_empty(a, ls[0].0)));
    }
    assert(ends_completions(lf));
    assert forall|i: int| 0 <= i < cs.len() implies completion_canonical(#[trigger] cs[i]) by {
        assert(cs[i] == d.completions[i]@);
    }
    lemma_completions_round_trip(cs, a, lf);
    assert(fs.skip(cf.len() as int) =~= lf);
    lemma_logs_round_trip(ls, a);
    lemma_completions_of_records(cs, a);
    assert(crate::keyed::distinct_keys(ls)) by {
        assert forall|i: int, j: int| 0 <= i < j < ls.len() implies ls[i].0 != ls[j].0 by {
            assert(crate::debugger::entity_less(ls[i].0, ls[j].0));
        }
    }
    assert forall|e: Entity| #[trigger] replayed(all_updates(decoded_logs(fs)), e) == key_lookup(ls, e) by {
        lemma_replayed_logs(ls, e);
    }
}

impl Debugger {
    /// Builds the index of a debugger's frames: one entry, with an empty key, that
    /// covers them all.
    pub fn build_index(frames: &Vec<Frame>) -> (index: Vec<IndexEntry>)
        ensures
            entries_view(index@) == seq![IndexEntryView { key: Seq::empty(), start: 0, end: frames@.len() as int }],
    {
        let mut index: Vec<IndexEntry> = Vec::new();
        index.push(IndexEntry { key: String::new(), start: 0, end: frames.len() });
        assert(entries_view(index@) =~= seq![IndexEntryView { key: Seq::empty(), start: 0, end: frames@.len() as int }]);
        index
    }
}

impl Debugger {
    /// Encodes the debugger for those watching it, and takes its update
    /// notification: returns the frames and whether an update was set.
    pub fn propagate_update(&mut self) -> (r: (Vec<Frame>, Option<()>))
        ensures
            frames_view(r.0@) == debugger_frames(old(self)@),
            r.1 is Some == old(self)@.updated,
            final(self)@ == (DebuggerView { updated: false, ..old(self)@ }),
    {
        let frames = self.encode();
        let updated = self.take_update();
        (frames, updated)
    }
}

} // verus!
