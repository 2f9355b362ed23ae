use vstd::prelude::*;
use crate::entity::Entity;
use crate::attributes::{Attribute, AttributeGraph, AttributeView, GraphView, Value, ValueView, attributes_view, lemma_attributes_view_push};
use crate::node::{EngineStatus, EventStatus, NodeCommand, NodeCommandView, NodeStatus};
use crate::text::{decimal, push_decimal};

verus! {

/// Keyword that starts a frame.
#[derive(Debug, Clone, Copy, PartialEq, Eq, Hash, Structural)]
pub enum Keyword {
    /// Opens an extension `name.symbol`, which the frames after it belong to,
    Extension,
    /// Adds a root value,
    Add,
    /// Defines a named value,
    Define,
}

/// Identifiers that the node protocol interns.
#[derive(Debug, Clone, Copy, PartialEq, Eq, Hash, Structural)]
pub enum Word {
    EngineStatus,
    EventStatus,
    NodeStatus,
    NodeCommand,
    Custom,
    Profiler,
    Inactive,
    Active,
    Disposed,
    Scheduled,
    New,
    InProgress,
    Paused,
    Ready,
    Completed,
    Cancelled,
    Activate,
    Reset,
    Pause,
    Resume,
    Cancel,
    Spawn,
    Update,
    Swap,
    SwapFrom,
    SwapTo,
    Debugger,
    Completion,
    Timestamp,
    Event,
    Plugin,
    ControlValues,
    Query,
    Returns,
    StatusUpdate,
    Message,
    Progress,
}

/// The spelling of a word on the wire.
pub open spec fn word_text(w: Word) -> Seq<char> {
    match w {
        Word::EngineStatus => "engine_status"@,
        Word::EventStatus => "event_status"@,
        Word::NodeStatus => "node_status"@,
        Word::NodeCommand => "node_command"@,
        Word::Custom => "custom"@,
        Word::Profiler => "profiler"@,
        Word::Inactive => "inactive"@,
        Word::Active => "active"@,
        Word::Disposed => "disposed"@,
        Word::Scheduled => "scheduled"@,
        Word::New => "new"@,
        Word::InProgress => "in_progress"@,
        Word::Paused => "paused"@,
        Word::Ready => "ready"@,
        Word::Completed => "completed"@,
        Word::Cancelled => "cancelled"@,
        Word::Activate => "activate"@,
        Word::Reset => "reset"@,
        Word::Pause => "pause"@,
        Word::Resume => "resume"@,
        Word::Cancel => "cancel"@,
        Word::Spawn => "spawn"@,
        Word::Update => "update"@,
        Word::Swap => "swap"@,
        Word::SwapFrom => "swap.from"@,
        Word::SwapTo => "swap.to"@,
        Word::Debugger => "debugger"@,
        Word::Completion => "completion"@,
        Word::Timestamp => "timestamp"@,
        Word::Event => "event"@,
        Word::Plugin => "plugin"@,
        Word::ControlValues => "control_values"@,
        Word::Query => "query"@,
        Word::Returns => "returns"@,
        Word::StatusUpdate => "status_update"@,
        Word::Message => "message"@,
        Word::Progress => "progress"@,
    }
}

impl Word {
    /// Returns the spelling of this word.
    pub fn as_str(&self) -> (s: &'static str)
        ensures
            s@ == word_text(*self),
    {
        match self {
            Word::EngineStatus => "engine_status",
            Word::EventStatus => "event_status",
            Word::NodeStatus => "node_status",
            Word::NodeCommand => "node_command",
            Word::Custom => "custom",
            Word::Profiler => "profiler",
            Word::Inactive => "inactive",
            Word::Active => "active",
            Word::Disposed => "disposed",
            Word::Scheduled => "scheduled",
            Word::New => "new",
            Word::InProgress => "in_progress",
            Word::Paused => "paused",
            Word::Ready => "ready",
            Word::Completed => "completed",
            Word::Cancelled => "cancelled",
            Word::Activate => "activate",
            Word::Reset => "reset",
            Word::Pause => "pause",
            Word::Resume => "resume",
            Word::Cancel => "cancel",
            Word::Spawn => "spawn",
            Word::Update => "update",
            Word::Swap => "swap",
            Word::SwapFrom => "swap.from",
            Word::SwapTo => "swap.to",
            Word::Debugger => "debugger",
            Word::Completion => "completion",
            Word::Timestamp => "timestamp",
            Word::Event => "event",
            Word::Plugin => "plugin",
            Word::ControlValues => "control_values",
            Word::Query => "query",
            Word::Returns => "returns",
            Word::StatusUpdate => "status_update",
            Word::Message => "message",
            Word::Progress => "progress",
        }
    }
}

/// Identifier in a frame: a word of the protocol, or free text such as an
/// attribute name or the name of a custom command.
#[derive(Debug, Clone)]
pub enum Ident {
    Word(Word),
    Text(String),
}

pub enum IdentView {
    Word(Word),
    Text(Seq<char>),
}

impl View for Ident {
    type V = IdentView;

    open spec fn view(&self) -> IdentView {
        match self {
            Ident::Word(w) => IdentView::Word(*w),
            Ident::Text(t) => IdentView::Text(t@),
        }
    }
}

/// The spelling of an identifier.
pub open spec fn ident_text(i: IdentView) -> Seq<char> {
    match i {
        IdentView::Word(w) => word_text(w),
        IdentView::Text(t) => t,
    }
}

impl Ident {
    /// Returns the spelling of this identifier.
    pub fn text(&self) -> (s: String)
        ensures
            s@ == ident_text(self@),
    {
        match self {
            Ident::Word(w) => w.as_str().to_owned(),
            Ident::Text(t) => t.clone(),
        }
    }

    /// Returns the word, if this identifier is one.
    pub fn word(&self) -> (w: Option<Word>)
        ensures
            w == (match self@ { IdentView::Word(x) => Some(x), IdentView::Text(_) => None::<Word> }),
    {
        match self {
            Ident::Word(w) => Some(*w),
            Ident::Text(_) => None,
        }
    }
}

/// One frame of the wire protocol.
#[derive(Debug, Clone)]
pub struct Frame {
    pub keyword: Keyword,
    pub name: Ident,
    pub symbol: Option<Ident>,
    pub value: Option<Value>,
    /// The entity this frame is about (its parity),
    pub entity: Entity,
}

pub struct FrameView {
    pub keyword: Keyword,
    pub name: IdentView,
    pub symbol: Option<IdentView>,
    pub value: Option<ValueView>,
    pub entity: Entity,
}

pub open spec fn opt_ident_view(i: Option<Ident>) -> Option<IdentView> {
    match i {
        Some(x) => Some(x@),
        None => None,
    }
}

pub open spec fn opt_value_view(v: Option<Value>) -> Option<ValueView> {
    match v {
        Some(x) => Some(x@),
        None => None,
    }
}

impl View for Frame {
    type V = FrameView;

    open spec fn view(&self) -> FrameView {
        FrameView {
            keyword: self.keyword,
            name: self.name@,
            symbol: opt_ident_view(self.symbol),
            value: opt_value_view(self.value),
            entity: self.entity,
        }
    }
}

pub open spec fn frames_view(v: Seq<Frame>) -> Seq<FrameView> {
    v.map_values(|f: Frame| f@)
}

/// The extension frame `name.symbol` about `entity`.
pub open spec fn extension_view(name: Word, symbol: Word, entity: Entity) -> FrameView {
    FrameView {
        keyword: Keyword::Extension,
        name: IdentView::Word(name),
        symbol: Some(IdentView::Word(symbol)),
        value: None,
        entity,
    }
}

impl Frame {
    /// Creates the extension frame `name.symbol` about `entity`.
    pub fn extension(name: Word, symbol: Word, entity: Entity) -> (f: Frame)
        ensures
            f@ == extension_view(name, symbol, entity),
    {
        Frame {
            keyword: Keyword::Extension,
            name: Ident::Word(name),
            symbol: Some(Ident::Word(symbol)),
            value: None,
            entity,
        }
    }
}

// ------------------------------------------------------------------------
// Node statuses
// ------------------------------------------------------------------------

/// The frames that encode a node status: one extension frame, none for an empty status.
pub open spec fn status_frames(s: NodeStatus) -> Seq<FrameView> {
    match s {
        NodeStatus::Engine(EngineStatus::Inactive(e)) => seq![extension_view(Word::EngineStatus, Word::Inactive, e)],
        NodeStatus::Engine(EngineStatus::Active(e)) => seq![extension_view(Word::EngineStatus, Word::Active, e)],
        NodeStatus::Engine(EngineStatus::Disposed(e)) => seq![extension_view(Word::EngineStatus, Word::Disposed, e)],
        NodeStatus::Event(EventStatus::Scheduled(e)) => seq![extension_view(Word::EventStatus, Word::Scheduled, e)],
        NodeStatus::Event(EventStatus::New(e)) => seq![extension_view(Word::EventStatus, Word::New, e)],
        NodeStatus::Event(EventStatus::InProgress(e)) => seq![extension_view(Word::EventStatus, Word::InProgress, e)],
        NodeStatus::Event(EventStatus::Paused(e)) => seq![extension_view(Word::EventStatus, Word::Paused, e)],
        NodeStatus::Event(EventStatus::Ready(e)) => seq![extension_view(Word::EventStatus, Word::Ready, e)],
        NodeStatus::Event(EventStatus::Completed(e)) => seq![extension_view(Word::EventStatus, Word::Completed, e)],
        NodeStatus::Event(EventStatus::Cancelled(e)) => seq![extension_view(Word::EventStatus, Word::Cancelled, e)],
        NodeStatus::Event(EventStatus::Inactive(e)) => seq![extension_view(Word::EventStatus, Word::Inactive, e)],
        NodeStatus::Event(EventStatus::Disposed(e)) => seq![extension_view(Word::EventStatus, Word::Disposed, e)],
        NodeStatus::Profiler(e) => seq![extension_view(Word::NodeStatus, Word::Profiler, e)],
        NodeStatus::Custom(e) => seq![extension_view(Word::NodeStatus, Word::Custom, e)],
        NodeStatus::Empty => Seq::empty(),
    }
}

pub open spec fn engine_status_word(w: Word) -> bool {
    w == Word::Active || w == Word::Inactive || w == Word::Disposed
}

pub open spec fn event_status_word(w: Word) -> bool {
    w == Word::Scheduled || w == Word::New || w == Word::InProgress || w == Word::Paused
        || w == Word::Ready || w == Word::Completed || w == Word::Cancelled || w == Word::Inactive
        || w == Word::Disposed
}

/// A status frame can be decoded: an engine or event status frame must carry
/// a status word of its kind.
pub open spec fn status_decodable(f: FrameView) -> bool {
    match f.name {
        IdentView::Word(Word::EngineStatus) => f.symbol matches Some(IdentView::Word(w)) && engine_status_word(w),
        IdentView::Word(Word::EventStatus) => f.symbol matches Some(IdentView::Word(w)) && event_status_word(w),
        _ => true,
    }
}

/// The status that a frame decodes to.
pub open spec fn status_of_frame(f: FrameView) -> NodeStatus {
    let e = f.entity;
    match (f.name, f.symbol) {
        (IdentView::Word(Word::EngineStatus), Some(IdentView::Word(w))) => NodeStatus::Engine(
            if w == Word::Active { EngineStatus::Active(e) }
            else if w == Word::Inactive { EngineStatus::Inactive(e) }
            else { EngineStatus::Disposed(e) }),
        (IdentView::Word(Word::EventStatus), Some(IdentView::Word(w))) => NodeStatus::Event(
            if w == Word::Scheduled { EventStatus::Scheduled(e) }
            else if w == Word::New { EventStatus::New(e) }
            else if w == Word::InProgress { EventStatus::InProgress(e) }
            else if w == Word::Paused { EventStatus::Paused(e) }
            else if w == Word::Ready { EventStatus::Ready(e) }
            else if w == Word::Completed { EventStatus::Completed(e) }
            else if w == Word::Cancelled { EventStatus::Cancelled(e) }
            else if w == Word::Inactive { EventStatus::Inactive(e) }
            else { EventStatus::Disposed(e) }),
        (IdentView::Word(Word::NodeStatus), Some(IdentView::Word(Word::Profiler))) => NodeStatus::Profiler(e),
        (IdentView::Word(Word::NodeStatus), Some(IdentView::Word(Word::Custom))) => NodeStatus::Custom(e),
        _ => NodeStatus::Empty,
    }
}

impl NodeStatus {
    /// Encodes a node status as frames.
    pub fn encode(&self) -> (frames: Vec<Frame>)
        ensures
            frames_view(frames@) == status_frames(*self),
    {
        let mut frames: Vec<Frame> = Vec::new();
        let frame = match self {
            NodeStatus::Engine(EngineStatus::Inactive(e)) => Frame::extension(Word::EngineStatus, Word::Inactive, *e),
            NodeStatus::Engine(EngineStatus::Active(e)) => Frame::extension(Word::EngineStatus, Word::Active, *e),
            NodeStatus::Engine(EngineStatus::Disposed(e)) => Frame::extension(Word::EngineStatus, Word::Disposed, *e),
            NodeStatus::Event(EventStatus::Scheduled(e)) => Frame::extension(Word::EventStatus, Word::Scheduled, *e),
            NodeStatus::Event(EventStatus::New(e)) => Frame::extension(Word::EventStatus, Word::New, *e),
            NodeStatus::Event(EventStatus::InProgress(e)) => Frame::extension(Word::EventStatus, Word::InProgress, *e),
            NodeStatus::Event(EventStatus::Paused(e)) => Frame::extension(Word::EventStatus, Word::Paused, *e),
            NodeStatus::Event(EventStatus::Ready(e)) => Frame::extension(Word::EventStatus, Word::Ready, *e),
            NodeStatus::Event(EventStatus::Completed(e)) => Frame::extension(Word::EventStatus, Word::Completed, *e),
            NodeStatus::Event(EventStatus::Cancelled(e)) => Frame::extension(Word::EventStatus, Word::Cancelled, *e),
            NodeStatus::Event(EventStatus::Inactive(e)) => Frame::extension(Word::EventStatus, Word::Inactive, *e),
            NodeStatus::Event(EventStatus::Disposed(e)) => Frame::extension(Word::EventStatus, Word::Disposed, *e),
            NodeStatus::Profiler(e) => Frame::extension(Word::NodeStatus, Word::Profiler, *e),
            NodeStatus::Custom(e) => Frame::extension(Word::NodeStatus, Word::Custom, *e),
            NodeStatus::Empty => {
                assert(frames_view(frames@) =~= status_frames(*self));
                return frames;
            },
        };
        frames.push(frame);
        assert(frames_view(frames@) =~= status_frames(*self));
        frames
    }
}

impl NodeStatus {
    /// Decodes a node status from its first frame.
    pub fn decode(frames: &Vec<Frame>) -> (status: NodeStatus)
        requires
            frames@.len() > 0,
            status_decodable(frames@[0]@),
        ensures
            status == status_of_frame(frames@[0]@),
    {
        let frame = &frames[0];
        let e = frame.entity;
        let name = frame.name.word();
        let symbol = match &frame.symbol {
            Some(s) => s.word(),
            None => None,
        };
        match (name, symbol) {
            (Some(Word::EngineStatus), Some(w)) => NodeStatus::Engine(
                match w {
                    Word::Active => EngineStatus::Active(e),
                    Word::Inactive => EngineStatus::Inactive(e),
                    _ => EngineStatus::Disposed(e),
                }),
            (Some(Word::EventStatus), Some(w)) => NodeStatus::Event(
                match w {
                    Word::Scheduled => EventStatus::Scheduled(e),
                    Word::New => EventStatus::New(e),
                    Word::InProgress => EventStatus::InProgress(e),
                    Word::Paused => EventStatus::Paused(e),
                    Word::Ready => EventStatus::Ready(e),
                    Word::Completed => EventStatus::Completed(e),
                    Word::Cancelled => EventStatus::Cancelled(e),
                    Word::Inactive => EventStatus::Inactive(e),
                    _ => EventStatus::Disposed(e),
                }),
            (Some(Word::NodeStatus), Some(Word::Profiler)) => NodeStatus::Profiler(e),
            (Some(Word::NodeStatus), Some(Word::Custom)) => NodeStatus::Custom(e),
            _ => NodeStatus::Empty,
        }
    }
}

/// Decoding the frames of a status gives the status back; an empty status has
/// no frames and is not decodable.
pub proof fn lemma_status_round_trip(status: NodeStatus)
    requires
        !(status is Empty),
    ensures
        status_frames(status).len() == 1,
        status_decodable(status_frames(status)[0]),
        status_of_frame(status_frames(status)[0]) == status,
{
}

/// Entry of a frame index: a key and the range of frames it names.
#[derive(Debug, Clone)]
pub struct IndexEntry {
    pub key: String,
    pub start: usize,
    pub end: usize,
}

pub struct IndexEntryView {
    pub key: Seq<char>,
    pub start: int,
    pub end: int,
}

impl View for IndexEntry {
    type V = IndexEntryView;

    open spec fn view(&self) -> IndexEntryView {
        IndexEntryView { key: self.key@, start: self.start as int, end: self.end as int }
    }
}

pub open spec fn entries_view(v: Seq<IndexEntry>) -> Seq<IndexEntryView> {
    v.map_values(|e: IndexEntry| e@)
}

/// The index of a status stream: frame `k` is named `{k}-node-status`, and covers `k..k+1`.
pub open spec fn status_index(n: nat) -> Seq<IndexEntryView> {
    Seq::new(n, |k: int| IndexEntryView { key: decimal(k as nat) + "-node-status"@, start: k, end: k + 1 })
}

impl NodeStatus {
    /// Builds the index of a stream of status frames.
    pub fn build_index(frames: &Vec<Frame>) -> (index: Vec<IndexEntry>)
        ensures
            entries_view(index@) == status_index(frames@.len()),
    {
        let mut index: Vec<IndexEntry> = Vec::new();
        let mut pos: usize = 0;
        while pos < frames.len()
            invariant
                pos <= frames@.len(),
                entries_view(index@) =~= status_index(frames@.len()).subrange(0, pos as int),
            decreases frames@.len() - pos,
        {
            let mut key = String::new();
            push_decimal(&mut key, pos as u64);
            key.append("-node-status");
            let entry = IndexEntry { key, start: pos, end: pos + 1 };
            let ghost before = index@;
            index.push(entry);
            assert(entries_view(index@) =~= entries_view(before).push(entry@));
            assert(entries_view(index@) =~= status_index(frames@.len()).subrange(0, pos + 1 as int));
            pos = pos + 1;
        }
        index
    }
}


// ------------------------------------------------------------------------
// Node commands
// ------------------------------------------------------------------------

/// The entity named by an update frame: the graph's entity, at the generation
/// the world gives it.
pub open spec fn update_entity(entity: u32, generation: i32) -> Entity {
    Entity { index: entity, generation }
}

/// The entity of a frame that names none.
pub open spec fn no_entity() -> Entity {
    Entity { index: 0, generation: 0 }
}

/// The frame that adds the root attribute of an update's graph: its name and
/// its value, about no entity.
pub open spec fn root_view(a: AttributeView) -> FrameView {
    FrameView {
        keyword: Keyword::Add,
        name: IdentView::Text(a.name),
        symbol: None,
        value: Some(a.value),
        entity: no_entity(),
    }
}

/// The name a property of the root `root` is defined under: what follows
/// `root::` in its name, or its whole name when it does not start so.
pub open spec fn property_name(root: Seq<char>, name: Seq<char>) -> Seq<char> {
    let prefix = root + "::"@;
    if prefix.is_prefix_of(name) { name.skip(prefix.len() as int) } else { name }
}

/// The frame that defines one property of an update's root `root`: the
/// property's name, the root's name as symbol, and the property's value.
pub open spec fn define_view(root: Seq<char>, a: AttributeView, e: Entity) -> FrameView {
    FrameView {
        keyword: Keyword::Define,
        name: IdentView::Text(property_name(root, a.name)),
        symbol: Some(IdentView::Text(root)),
        value: Some(a.value),
        entity: e,
    }
}

pub open spec fn defines_view(root: Seq<char>, attrs: Seq<AttributeView>, e: Entity) -> Seq<FrameView> {
    attrs.map_values(|a: AttributeView| define_view(root, a, e))
}

/// The frames after the update frame: the graph's first attribute is its root,
/// added first, and each later attribute is defined as one of the root's
/// properties. An empty graph has none.
pub open spec fn graph_frames(attrs: Seq<AttributeView>, e: Entity) -> Seq<FrameView> {
    if attrs.len() == 0 {
        Seq::empty()
    } else {
        seq![root_view(attrs[0])] + defines_view(attrs[0].name, attrs.drop_first(), e)
    }
}

/// The frames that encode a node command; `generation` is the generation the
/// world gives the entity of an update's graph.
pub open spec fn command_frames(c: NodeCommandView, generation: i32) -> Seq<FrameView> {
    match c {
        NodeCommandView::Activate(e) => seq![extension_view(Word::NodeCommand, Word::Activate, e)],
        NodeCommandView::Reset(e) => seq![extension_view(Word::NodeCommand, Word::Reset, e)],
        NodeCommandView::Pause(e) => seq![extension_view(Word::NodeCommand, Word::Pause, e)],
        NodeCommandView::Resume(e) => seq![extension_view(Word::NodeCommand, Word::Resume, e)],
        NodeCommandView::Cancel(e) => seq![extension_view(Word::NodeCommand, Word::Cancel, e)],
        NodeCommandView::Spawn(e) => seq![extension_view(Word::NodeCommand, Word::Spawn, e)],
        NodeCommandView::Update(g) => seq![extension_view(Word::NodeCommand, Word::Update, update_entity(g.entity, generation))]
            + graph_frames(g.attributes, update_entity(g.entity, generation)),
        NodeCommandView::Swap { owner, from, to } => seq![
            extension_view(Word::NodeCommand, Word::Swap, owner),
            extension_view(Word::NodeCommand, Word::SwapFrom, from),
            extension_view(Word::NodeCommand, Word::SwapTo, to),
        ],
        NodeCommandView::Custom(name, e) => seq![
            extension_view(Word::NodeCommand, Word::Custom, e),
            FrameView {
                keyword: Keyword::Extension,
                name: IdentView::Word(Word::Custom),
                symbol: Some(IdentView::Text(name)),
                value: None,
                entity: e,
            },
        ],
    }
}

/// Commands that one frame encodes.
pub open spec fn simple_command_word(w: Word) -> bool {
    w == Word::Activate || w == Word::Reset || w == Word::Pause || w == Word::Resume
        || w == Word::Cancel || w == Word::Spawn
}

/// The attribute that a value frame carries: named by the frame's name, or by
/// `symbol::name` when the frame has a symbol. Frames without a value carry none.
pub open spec fn attribute_of_frame(f: FrameView, id: u32) -> Option<AttributeView> {
    match f.value {
        Some(v) => match f.symbol {
            None => Some(AttributeView { id, name: ident_text(f.name), value: v }),
            Some(s) => Some(AttributeView { id, name: ident_text(s) + "::"@ + ident_text(f.name), value: v }),
        },
        None => None,
    }
}

/// The attributes that a run of value frames carries, in order.
pub open spec fn attributes_of_frames(fs: Seq<FrameView>, id: u32) -> Seq<AttributeView>
    decreases fs.len(),
{
    if fs.len() == 0 {
        Seq::empty()
    } else {
        let rest = attributes_of_frames(fs.drop_last(), id);
        match attribute_of_frame(fs.last(), id) {
            Some(a) => rest.push(a),
            None => rest,
        }
    }
}

/// The frames of a command can be decoded: the first is an extension frame
/// whose symbol names a command, and the frames that command needs follow it.
pub open spec fn command_decodable(fs: Seq<FrameView>) -> bool {
    &&& fs.len() > 0
    &&& fs[0].keyword == Keyword::Extension
    &&& match fs[0].symbol {
        Some(IdentView::Word(w)) => {
            ||| simple_command_word(w)
            ||| (w == Word::Swap && fs.len() >= 3
                && fs[1].name == IdentView::Word(Word::NodeCommand)
                && fs[1].symbol == Some(IdentView::Word(Word::SwapFrom))
                && fs[2].name == IdentView::Word(Word::NodeCommand)
                && fs[2].symbol == Some(IdentView::Word(Word::SwapTo)))
            ||| (w == Word::Update && attributes_of_frames(fs.drop_first(), fs[0].entity.index).len() > 0)
            ||| (w == Word::Custom && fs.len() >= 2
                && fs[1].name == IdentView::Word(Word::Custom)
                && fs[1].symbol is Some)
        },
        _ => false,
    }
}

/// The command that decodable frames decode to.
pub open spec fn command_of_frames(fs: Seq<FrameView>) -> NodeCommandView {
    let e = fs[0].entity;
    match fs[0].symbol {
        Some(IdentView::Word(w)) =>
            if w == Word::Activate { NodeCommandView::Activate(e) }
            else if w == Word::Reset { NodeCommandView::Reset(e) }
            else if w == Word::Pause { NodeCommandView::Pause(e) }
            else if w == Word::Resume { NodeCommandView::Resume(e) }
            else if w == Word::Cancel { NodeCommandView::Cancel(e) }
            else if w == Word::Spawn { NodeCommandView::Spawn(e) }
            else if w == Word::Swap { NodeCommandView::Swap { owner: e, from: fs[1].entity, to: fs[2].entity } }
            else if w == Word::Update {
                NodeCommandView::Update(GraphView { entity: e.index, attributes: attributes_of_frames(fs.drop_first(), e.index) })
            } else {
                NodeCommandView::Custom(ident_text(fs[1].symbol.unwrap()), e)
            },
        _ => arbitrary(),
    }
}

/// Commands whose frames decode back to them: an update must carry at least one
/// attribute, each owned by the graph's entity, and each attribute after the
/// root must be one of the root's properties, named `root::name`.
pub open spec fn command_encodable(c: NodeCommandView) -> bool {
    match c {
        NodeCommandView::Update(g) => g.attributes.len() > 0
            && (forall|i: int| 0 <= i < g.attributes.len() ==> #[trigger] g.attributes[i].id == g.entity)
            && (forall|i: int| 1 <= i < g.attributes.len()
                ==> (g.attributes[0].name + "::"@).is_prefix_of(#[trigger] g.attributes[i].name)),
        _ => true,
    }
}

proof fn lemma_attributes_of_defines(root: Seq<char>, attrs: Seq<AttributeView>, e: Entity)
    requires
        forall|i: int| 0 <= i < attrs.len() ==> #[trigger] attrs[i].id == e.index,
        forall|i: int| 0 <= i < attrs.len() ==> (root + "::"@).is_prefix_of(#[trigger] attrs[i].name),
    ensures
        attributes_of_frames(defines_view(root, attrs, e), e.index) == attrs,
    decreases attrs.len(),
{
    if attrs.len() > 0 {
        let rest = attrs.drop_last();
        assert(defines_view(root, attrs, e).drop_last() =~= defines_view(root, rest, e));
        assert forall|i: int| 0 <= i < rest.len() implies (root + "::"@).is_prefix_of(#[trigger] rest[i].name) by {
            assert(rest[i] == attrs[i]);
        }
        lemma_attributes_of_defines(root, rest, e);
        let last = attrs.last();
        assert(attrs[attrs.len() - 1].id == e.index);
        assert((root + "::"@).is_prefix_of(attrs[attrs.len() - 1].name));
        let prefix = root + "::"@;
        assert(prefix + last.name.skip(prefix.len() as int) =~= last.name);
        assert(defines_view(root, attrs, e).last() == define_view(root, last, e));
        assert(attribute_of_frame(define_view(root, last, e), e.index) == Some(last));
        assert(attrs =~= rest.push(last));
    } else {
        assert(defines_view(root, attrs, e) =~= Seq::<FrameView>::empty());
    }
}

proof fn lemma_attributes_of_front(f: FrameView, fs: Seq<FrameView>, id: u32)
    ensures
        attributes_of_frames(seq![f] + fs, id) == (match attribute_of_frame(f, id) {
            Some(a) => seq![a] + attributes_of_frames(fs, id),
            None => attributes_of_frames(fs, id),
        }),
    decreases fs.len(),
{
    let g = seq![f] + fs;
    if fs.len() == 0 {
        assert(g =~= seq![f]);
        assert(g.drop_last() =~= Seq::<FrameView>::empty());
        assert(attributes_of_frames(g.drop_last(), id) =~= Seq::<AttributeView>::empty());
        assert(attributes_of_frames(fs, id) =~= Seq::<AttributeView>::empty());
        assert(g.last() == f);
        match attribute_of_frame(f, id) {
            Some(a) => assert(Seq::<AttributeView>::empty().push(a) =~= seq![a] + Seq::<AttributeView>::empty()),
            None => {},
        }
    } else {
        assert(g.drop_last() =~= seq![f] + fs.drop_last());
        lemma_attributes_of_front(f, fs.drop_last(), id);
        assert(g.last() == fs.last());
        let r0 = attributes_of_frames(fs.drop_last(), id);
        match attribute_of_frame(f, id) {
            Some(a) => {
                match attribute_of_frame(fs.last(), id) {
                    Some(b) => assert((seq![a] + r0).push(b) =~= seq![a] + r0.push(b)),
                    None => {},
                }
            },
            None => {},
        }
    }
}

/// Decoding the frames of a command gives the command back, whatever the
/// generation its update frame carries.
pub proof fn lemma_command_round_trip(c: NodeCommandView, generation: i32)
    requires
        command_encodable(c),
    ensures
        command_decodable(command_frames(c, generation)),
        command_of_frames(command_frames(c, generation)) == c,
{
    if let NodeCommandView::Update(g) = c {
        let e = update_entity(g.entity, generation);
        let fs = command_frames(c, generation);
        let attrs = g.attributes;
        let root = attrs[0];
        let props = attrs.drop_first();
        assert(fs.drop_first() =~= seq![root_view(root)] + defines_view(root.name, props, e));
        assert forall|i: int| 0 <= i < props.len() implies #[trigger] props[i].id == e.index by {
            assert(props[i] == attrs[i + 1]);
        }
        assert forall|i: int| 0 <= i < props.len() implies (root.name + "::"@).is_prefix_of(#[trigger] props[i].name) by {
            assert(props[i] == attrs[i + 1]);
        }
        lemma_attributes_of_defines(root.name, props, e);
        lemma_attributes_of_front(root_view(root), defines_view(root.name, props, e), e.index);
        assert(attrs[0].id == g.entity);
        assert(attribute_of_frame(root_view(root), e.index) == Some(root));
        assert(seq![root] + props =~= attrs);
    }
}

/// The name the property `name` of the root `root` is defined under.
fn property_name_of(root: &str, name: &str) -> (r: String)
    ensures
        r@ == property_name(root@, name@),
{
    let mut prefix = root.to_string();
    prefix.append("::");
    proof {
        reveal_strlit("::");
    }
    match crate::text::strip_prefix(name, prefix.as_str()) {
        Some(rest) => rest,
        None => name.to_string(),
    }
}

impl NodeCommand {
    /// Encodes a node command as frames. `generation` is the generation that
    /// the world gives the entity of an update's graph; the other commands
    /// carry their entities whole.
    pub fn encode(&self, generation: i32) -> (frames: Vec<Frame>)
        ensures
            frames_view(frames@) == command_frames(self@, generation),
    {
        let mut frames: Vec<Frame> = Vec::new();
        match self {
            NodeCommand::Activate(e) => frames.push(Frame::extension(Word::NodeCommand, Word::Activate, *e)),
            NodeCommand::Reset(e) => frames.push(Frame::extension(Word::NodeCommand, Word::Reset, *e)),
            NodeCommand::Pause(e) => frames.push(Frame::extension(Word::NodeCommand, Word::Pause, *e)),
            NodeCommand::Resume(e) => frames.push(Frame::extension(Word::NodeCommand, Word::Resume, *e)),
            NodeCommand::Cancel(e) => frames.push(Frame::extension(Word::NodeCommand, Word::Cancel, *e)),
            NodeCommand::Spawn(e) => frames.push(Frame::extension(Word::NodeCommand, Word::Spawn, *e)),
            NodeCommand::Update(graph) => {
                let entity = Entity::new(graph.entity_id(), generation);
                frames.push(Frame::extension(Word::NodeCommand, Word::Update, entity));
                let attrs = graph.attributes();
                let ghost av = graph@.attributes;
                if attrs.len() > 0 {
                    let root = &attrs[0];
                    let rf = Frame {
                        keyword: Keyword::Add,
                        name: Ident::Text(root.name.clone()),
                        symbol: None,
                        value: Some(root.value.duplicate()),
                        entity: Entity::new(0, 0),
                    };
                    assert(rf@ == root_view(av[0]));
                    frames.push(rf);
                    let ghost head = frames_view(frames@);
                    assert(head =~= seq![extension_view(Word::NodeCommand, Word::Update, entity), root_view(av[0])]);
                    let ghost props = av.drop_first();
                    let mut i: usize = 1;
                    while i < attrs.len()
                        invariant
                            1 <= i <= attrs@.len(),
                            attrs@.len() == av.len(),
                            attributes_view(attrs@) == av,
                            props == av.drop_first(),
                            av[0].name == attrs@[0].name@,
                            head.len() == 2,
                            frames_view(frames@) =~= head + defines_view(av[0].name, props.subrange(0, i - 1), entity),
                        decreases attrs@.len() - i,
                    {
                        let a = &attrs[i];
                        let f = Frame {
                            keyword: Keyword::Define,
                            name: Ident::Text(property_name_of(attrs[0].name.as_str(), a.name.as_str())),
                            symbol: Some(Ident::Text(attrs[0].name.clone())),
                            value: Some(a.value.duplicate()),
                            entity,
                        };
                        assert(props[i - 1] == av[i as int]);
                        assert(f@ == define_view(av[0].name, props[i - 1], entity));
                        let ghost before = frames@;
                        frames.push(f);
                        assert(frames_view(frames@) =~= frames_view(before).push(f@));
                        assert(props.subrange(0, i as int) =~= props.subrange(0, i - 1).push(props[i - 1]));
                        assert(defines_view(av[0].name, props.subrange(0, i as int), entity)
                            =~= defines_view(av[0].name, props.subrange(0, i - 1), entity).push(f@));
                        i = i + 1;
                    }
                    assert(props.subrange(0, i - 1) =~= props);
                } else {
                    assert(graph_frames(av, entity) =~= Seq::<FrameView>::empty());
                }
            },
            NodeCommand::Swap { owner, from, to } => {
                frames.push(Frame::extension(Word::NodeCommand, Word::Swap, *owner));
                frames.push(Frame::extension(Word::NodeCommand, Word::SwapFrom, *from));
                frames.push(Frame::extension(Word::NodeCommand, Word::SwapTo, *to));
            },
            NodeCommand::Custom(name, e) => {
                frames.push(Frame::extension(Word::NodeCommand, Word::Custom, *e));
                frames.push(Frame {
                    keyword: Keyword::Extension,
                    name: Ident::Word(Word::Custom),
                    symbol: Some(Ident::Text(name.clone())),
                    value: None,
                    entity: *e,
                });
            },
        }
        assert(frames_view(frames@) =~= command_frames(self@, generation));
        frames
    }
}

/// Reads the attribute that one frame carries.
fn attribute_from_frame(f: &Frame, id: u32) -> (a: Option<Attribute>)
    ensures
        a matches Some(x) ==> attribute_of_frame(f@, id) == Some(x@),
        a is None ==> attribute_of_frame(f@, id) is None,
{
    match &f.value {
        Some(v) => match &f.symbol {
            None => Some(Attribute::new(id, f.name.text(), v.duplicate())),
            Some(sym) => {
                let mut name = sym.text();
                name.append("::");
                let tail = f.name.text();
                name.append(tail.as_str());
                Some(Attribute::new(id, name, v.duplicate()))
            },
        },
        None => None,
    }
}

impl NodeCommand {
    /// Decodes a node command from its frames.
    pub fn decode(frames: &Vec<Frame>) -> (command: NodeCommand)
        requires
            command_decodable(frames_view(frames@)),
        ensures
            command@ == command_of_frames(frames_view(frames@)),
    {
        let ghost fs = frames_view(frames@);
        let first = &frames[0];
        let e = first.entity;
        let w = match &first.symbol {
            Some(s) => match s.word() {
                Some(w) => w,
                None => vstd::pervasive::unreached(),
            },
            None => vstd::pervasive::unreached(),
        };
        match w {
            Word::Activate => NodeCommand::Activate(e),
            Word::Reset => NodeCommand::Reset(e),
            Word::Pause => NodeCommand::Pause(e),
            Word::Resume => NodeCommand::Resume(e),
            Word::Cancel => NodeCommand::Cancel(e),
            Word::Spawn => NodeCommand::Spawn(e),
            Word::Swap => NodeCommand::Swap { owner: e, from: frames[1].entity, to: frames[2].entity },
            Word::Update => {
                let mut attributes: Vec<Attribute> = Vec::new();
                let mut i: usize = 1;
                while i < frames.len()
                    invariant
                        1 <= i <= frames@.len(),
                        fs == frames_view(frames@),
                        e == fs[0].entity,
                        attributes_view(attributes@) == attributes_of_frames(fs.subrange(1, i as int), e.index),
                    decreases frames@.len() - i,
                {
                    let ghost pre = fs.subrange(1, i as int);
                    assert(fs.subrange(1, i + 1 as int).drop_last() =~= pre);
                    let a = attribute_from_frame(&frames[i], e.index);
                    match a {
                        Some(x) => {
                            proof { lemma_attributes_view_push(attributes@, x); }
                            attributes.push(x);
                        },
                        None => {},
                    }
                    i = i + 1;
                }
                assert(fs.subrange(1, i as int) =~= fs.drop_first());
                NodeCommand::Update(AttributeGraph::from_attributes(e.index, attributes))
            },
            Word::Custom => {
                let symbol = match &frames[1].symbol {
                    Some(s) => s.text(),
                    None => vstd::pervasive::unreached(),
                };
                NodeCommand::Custom(symbol, e)
            },
            _ => vstd::pervasive::unreached(),
        }
    }
}


/// Position of the first extension frame at or after `from`, or the number of
/// frames when there is none.
pub open spec fn next_extension(fs: Seq<FrameView>, from: int) -> int
    decreases fs.len() - from,
{
    if from < 0 || from >= fs.len() {
        fs.len() as int
    } else if fs[from].keyword == Keyword::Extension {
        from
    } else {
        next_extension(fs, from + 1)
    }
}

pub open spec fn entry_view(idx: int, start: int, end: int) -> IndexEntryView {
    IndexEntryView { key: decimal(idx as nat), start, end }
}

/// The index of a stream of command frames, from frame `idx` on, where the
/// next range starts at `pos`. Each extension frame that starts a command is
/// named by its position: a one-frame command covers one position, a custom
/// command two, a swap three; an update covers the positions up to the next
/// extension frame less one, and moves past it, or covers the rest of the stream.
pub open spec fn command_index_from(fs: Seq<FrameView>, idx: int, pos: int) -> Seq<IndexEntryView>
    decreases fs.len() - idx,
{
    if idx < 0 || idx >= fs.len() {
        Seq::empty()
    } else if fs[idx].keyword != Keyword::Extension {
        command_index_from(fs, idx + 1, pos)
    } else {
        match fs[idx].symbol {
            Some(IdentView::Word(w)) =>
                if simple_command_word(w) {
                    seq![entry_view(idx, pos, pos + 1)] + command_index_from(fs, idx + 1, pos + 1)
                } else if w == Word::Update {
                    let k = next_extension(fs, idx + 1);
                    if k < fs.len() {
                        seq![entry_view(idx, pos, pos + (k - (idx + 1)))]
                            + command_index_from(fs, idx + 1, pos + (k - (idx + 1)) + 1)
                    } else {
                        seq![entry_view(idx, pos, fs.len() as int)] + command_index_from(fs, idx + 1, pos)
                    }
                } else if w == Word::Custom {
                    seq![entry_view(idx, pos, pos + 2)] + command_index_from(fs, idx + 1, pos + 2)
                } else if w == Word::Swap {
                    seq![entry_view(idx, pos, pos + 3)] + command_index_from(fs, idx + 1, pos + 3)
                } else {
                    command_index_from(fs, idx + 1, pos)
                },
            _ => command_index_from(fs, idx + 1, pos),
        }
    }
}

/// The index of a whole stream of command frames.
pub open spec fn command_index(fs: Seq<FrameView>) -> Seq<IndexEntryView> {
    command_index_from(fs, 0, 0)
}

/// Every extension frame carries a symbol.
pub open spec fn extensions_have_symbols(fs: Seq<FrameView>) -> bool {
    forall|i: int| 0 <= i < fs.len() && #[trigger] fs[i].keyword == Keyword::Extension ==> fs[i].symbol is Some
}

proof fn lemma_next_extension(fs: Seq<FrameView>, from: int)
    requires
        0 <= from <= fs.len(),
    ensures
        from <= next_extension(fs, from) <= fs.len(),
        next_extension(fs, from) < fs.len() ==> fs[next_extension(fs, from)].keyword == Keyword::Extension,
        forall|j: int| from <= j < next_extension(fs, from) ==> fs[j].keyword != Keyword::Extension,
    decreases fs.len() - from,
{
    if from < fs.len() && fs[from].keyword != Keyword::Extension {
        lemma_next_extension(fs, from + 1);
    }
}

proof fn lemma_next_extension_unique(fs: Seq<FrameView>, from: int, k: int)
    requires
        0 <= from <= k <= fs.len(),
        k < fs.len() ==> fs[k].keyword == Keyword::Extension,
        forall|j: int| from <= j < k ==> fs[j].keyword != Keyword::Extension,
    ensures
        next_extension(fs, from) == k,
    decreases k - from,
{
    if from < k {
        lemma_next_extension_unique(fs, from + 1, k);
    }
}

impl NodeCommand {
    /// Builds the index of a stream of command frames.
    pub fn build_index(frames: &Vec<Frame>) -> (index: Vec<IndexEntry>)
        requires
            extensions_have_symbols(frames_view(frames@)),
            frames@.len() <= usize::MAX / 4,
        ensures
            entries_view(index@) == command_index(frames_view(frames@)),
    {
        let ghost fs = frames_view(frames@);
        let mut index: Vec<IndexEntry> = Vec::new();
        let mut pos: usize = 0;
        let mut idx: usize = 0;
        proof {
            lemma_next_extension(fs, 0);
        }
        while idx < frames.len()
            invariant
                idx <= frames@.len(),
                frames@.len() <= usize::MAX / 4,
                fs == frames_view(frames@),
                extensions_have_symbols(fs),
                pos <= 3 * next_extension(fs, idx as int),
                entries_view(index@) + command_index_from(fs, idx as int, pos as int) == command_index(fs),
            decreases frames@.len() - idx,
        {
            proof {
                lemma_next_extension(fs, idx as int);
                lemma_next_extension(fs, idx + 1);
            }
            let ghost before = index@;
            let ghost rest = command_index_from(fs, idx as int, pos as int);
            let frame = &frames[idx];
            let mut next_pos = pos;
            let mut entry: Option<IndexEntry> = None;
            match frame.keyword {
                Keyword::Extension => {
                    assert(next_extension(fs, idx as int) == idx);
                    let w = match &frame.symbol {
                        Some(s) => s.word(),
                        None => None,
                    };
                    match w {
                        Some(Word::Activate) | Some(Word::Reset) | Some(Word::Pause) | Some(Word::Resume)
                        | Some(Word::Cancel) | Some(Word::Spawn) => {
                            entry = Some(IndexEntry { key: crate::text::decimal_string(idx as u64), start: pos, end: pos + 1 });
                            next_pos = pos + 1;
                        },
                        Some(Word::Update) => {
                            let mut k: usize = idx + 1;
                            while k < frames.len() && !matches!(frames[k].keyword, Keyword::Extension)
                                invariant
                                    idx + 1 <= k <= frames@.len(),
                                    fs == frames_view(frames@),
                                    forall|j: int| idx + 1 <= j < k ==> fs[j].keyword != Keyword::Extension,
                                decreases frames@.len() - k,
                            {
                                k = k + 1;
                            }
                            proof {
                                lemma_next_extension_unique(fs, idx + 1, k as int);
                            }
                            if k < frames.len() {
                                let epos = k - (idx + 1);
                                entry = Some(IndexEntry { key: crate::text::decimal_string(idx as u64), start: pos, end: pos + epos });
                                next_pos = pos + epos + 1;
                            } else {
                                entry = Some(IndexEntry { key: crate::text::decimal_string(idx as u64), start: pos, end: frames.len() });
                            }
                        },
                        Some(Word::Custom) => {
                            entry = Some(IndexEntry { key: crate::text::decimal_string(idx as u64), start: pos, end: pos + 2 });
                            next_pos = pos + 2;
                        },
                        Some(Word::Swap) => {
                            entry = Some(IndexEntry { key: crate::text::decimal_string(idx as u64), start: pos, end: pos + 3 });
                            next_pos = pos + 3;
                        },
                        _ => {},
                    }
                },
                _ => {},
            }
            match entry {
                Some(en) => {
                    assert(rest == seq![en@] + command_index_from(fs, idx + 1, next_pos as int));
                    index.push(en);
                    assert(entries_view(index@) =~= entries_view(before).push(en@));
                    assert(entries_view(index@) + command_index_from(fs, idx + 1, next_pos as int)
                        =~= entries_view(before) + rest);
                },
                None => {
                    assert(rest == command_index_from(fs, idx + 1, next_pos as int));
                },
            }
            pos = next_pos;
            idx = idx + 1;
        }
        assert(command_index_from(fs, idx as int, pos as int) =~= Seq::<IndexEntryView>::empty());
        assert(entries_view(index@) =~= command_index(fs));
        index
    }
}

/// The frames of a stream of commands, one command after the other.
pub open spec fn stream_frames(cs: Seq<NodeCommandView>, generation: i32) -> Seq<FrameView>
    decreases cs.len(),
{
    if cs.len() == 0 {
        Seq::empty()
    } else {
        command_frames(cs[0], generation) + stream_frames(cs.drop_first(), generation)
    }
}

/// The index entries of a stream of commands whose first frame is at `p`:
/// each command is named by the position of its first frame and covers its
/// frames, except that an update followed by another command covers one
/// frame less.
pub open spec fn stream_index(cs: Seq<NodeCommandView>, generation: i32, p: int) -> Seq<IndexEntryView>
    decreases cs.len(),
{
    if cs.len() == 0 {
        Seq::empty()
    } else {
        let n = command_frames(cs[0], generation).len() as int;
        let end = if cs[0] is Update && cs.len() > 1 { p + n - 1 } else { p + n };
        seq![entry_view(p, p, end)] + stream_index(cs.drop_first(), generation, p + n)
    }
}

/// A frame that starts no command in an index.
pub open spec fn passive(f: FrameView) -> bool {
    f.keyword != Keyword::Extension || match f.symbol {
        Some(IdentView::Word(w)) => !(simple_command_word(w) || w == Word::Update || w == Word::Custom || w == Word::Swap),
        _ => true,
    }
}

proof fn lemma_skip_passive(fs: Seq<FrameView>, a: int, b: int, pos: int)
    requires
        0 <= a <= b <= fs.len(),
        forall|j: int| a <= j < b ==> passive(#[trigger] fs[j]),
    ensures
        command_index_from(fs, a, pos) == command_index_from(fs, b, pos),
    decreases b - a,
{
    if a < b {
        assert(passive(fs[a]));
        lemma_skip_passive(fs, a + 1, b, pos);
    }
}

proof fn lemma_stream_starts(cs: Seq<NodeCommandView>, generation: i32)
    requires
        cs.len() > 0,
    ensures
        stream_frames(cs, generation).len() > 0,
        stream_frames(cs, generation)[0].keyword == Keyword::Extension,
{
    let f = command_frames(cs[0], generation);
    assert(f.len() > 0 && f[0].keyword == Keyword::Extension);
    assert(stream_frames(cs, generation)[0] == f[0]);
}

proof fn lemma_stream_index_from(pre: Seq<FrameView>, cs: Seq<NodeCommandView>, generation: i32)
    ensures
        command_index_from(pre + stream_frames(cs, generation), pre.len() as int, pre.len() as int)
            == stream_index(cs, generation, pre.len() as int),
    decreases cs.len(),
{
    let fs = pre + stream_frames(cs, generation);
    let p = pre.len() as int;
    if cs.len() == 0 {
        assert(fs.len() == p);
    } else {
        let c = cs[0];
        let f = command_frames(c, generation);
        let rest = stream_frames(cs.drop_first(), generation);
        let n = f.len() as int;
        assert(fs =~= (pre + f) + rest);
        assert(forall|j: int| 0 <= j < n ==> fs[p + j] == f[j]);
        let q = p + n;
        lemma_stream_index_from(pre + f, cs.drop_first(), generation);
        assert((pre + f).len() == q);
        assert forall|j: int| p + 1 <= j < q implies passive(#[trigger] fs[j]) by {
            assert(fs[j] == f[j - p]);
        }
        if cs.len() > 1 {
            lemma_stream_starts(cs.drop_first(), generation);
            assert(fs[q] == rest[0]);
        } else {
            assert(rest.len() == 0);
            assert(fs.len() == q);
        }
        assert(fs[p] == f[0]);
        match c {
            NodeCommandView::Update(g) => {
                assert forall|j: int| p + 1 <= j < q implies fs[j].keyword != Keyword::Extension by {
                    assert(fs[j] == f[j - p]);
                    if g.attributes.len() > 0 {
                        let e = update_entity(g.entity, generation);
                        assert(f =~= seq![extension_view(Word::NodeCommand, Word::Update, e)]
                            + (seq![root_view(g.attributes[0])] + defines_view(g.attributes[0].name, g.attributes.drop_first(), e)));
                        if j - p >= 2 {
                            assert(f[j - p] == define_view(g.attributes[0].name, g.attributes.drop_first()[j - p - 2], e));
                        }
                    }
                }
                lemma_next_extension_unique(fs, p + 1, q);
                lemma_skip_passive(fs, p + 1, q, if cs.len() > 1 { q } else { p });
            },
            _ => {
                lemma_skip_passive(fs, p + 1, q, q);
            },
        }
    }
}

/// The index of a stream of encoded commands names each command by the
/// position of its first frame, in order, and gives it the range of its own
/// frames; only an update that another command follows gets a range one frame
/// short of its frames.
pub proof fn law_command_index(cs: Seq<NodeCommandView>, generation: i32)
    ensures
        command_index(stream_frames(cs, generation)) == stream_index(cs, generation, 0),
{
    lemma_stream_index_from(Seq::empty(), cs, generation);
    assert(Seq::<FrameView>::empty() + stream_frames(cs, generation) =~= stream_frames(cs, generation));
}

} // verus!
