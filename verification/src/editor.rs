use vstd::prelude::*;
use vstd::utf8::encode_utf8;
use crate::entity::Entity;
use crate::attributes::{AttributeGraph, AttributeView, GraphView, ValueView, Value, lookup, upsert, lemma_upsert_lookup};
use vstd::utf8::{valid_utf8, decode_utf8};
use vstd::string::*;
use crate::engine::{Sequence, SequenceView};
use crate::text::{hex_prefixed, push_hex_prefixed, after_first_line, drop_first_line};

verus! {

/// Draws a random `u16` (`rand::random`). Nothing is stated of the value.
#[verifier::external_body]
fn random_u16() -> (n: u16) {
    rand::random::<u16>()
}

/// `title`, an underscore, and `n` as `{:#04x}` writes it.
pub open spec fn titled_spec(title: Seq<char>, n: u16) -> Seq<char> {
    title + "_"@ + hex_prefixed(n as nat)
}

/// Suffixes a title with a number: `{title}_{n:#04x}`.
pub fn titled(title: &str, n: u16) -> (s: String)
    ensures
        s@ == titled_spec(title@, n),
{
    let mut s = title.to_owned();
    s.append("_");
    push_hex_prefixed(&mut s, n as u64);
    proof {
        reveal_strlit("_");
    }
    s
}

/// Generates a unique title: the title suffixed with a random number.
pub fn unique_title(title: &str) -> (s: String)
    ensures
        exists|n: u16| s@ == titled_spec(title@, n),
{
    let n = random_u16();
    titled(title, n)
}

// ------------------------------------------------------------------------
// Kinds of events
// ------------------------------------------------------------------------

/// The event that starts an engine.
#[derive(Debug, Clone, Copy, Default)]
pub struct Start;

/// The event that calls a plugin.
#[derive(Debug, Clone, Copy, Default)]
pub struct Call;

/// The event that exits an engine.
#[derive(Debug, Clone, Copy, Default)]
pub struct Exit;

/// The event that fixes a failed call; it is set up as a call.
#[derive(Debug, Clone, Copy, Default)]
pub struct Fix;

/// A shell window.
#[derive(Debug, Clone, Copy, Default)]
pub struct Shell;

/// A plugin that waits for a number of seconds.
#[derive(Debug, Clone, Copy, Default)]
pub struct Timer;

impl Start {
    /// Name of the event.
    pub fn event_name() -> (s: &'static str)
        ensures
            s@ == "start"@,
    {
        "start"
    }
}

impl Call {
    /// Name of the event.
    pub fn event_name() -> (s: &'static str)
        ensures
            s@ == "call"@,
    {
        "call"
    }
}

impl Exit {
    /// Symbol of the event.
    pub fn event_symbol() -> (s: &'static str)
        ensures
            s@ == "exit"@,
    {
        "exit"
    }
}

impl Fix {
    /// Symbol of the event.
    pub fn event_symbol() -> (s: &'static str)
        ensures
            s@ == "fix"@,
    {
        "fix"
    }
}

impl Shell {
    /// Name of the window.
    pub fn name() -> (s: &'static str)
        ensures
            s@ == "shell"@,
    {
        "shell"
    }
}

/// The number of seconds a timer waits: the integer `duration`, read as
/// unsigned, or five when there is none.
pub open spec fn timer_duration(attrs: Seq<crate::attributes::AttributeView>) -> u64 {
    match lookup(attrs, "duration"@) {
        Some(a) => match a.value {
            ValueView::Int(d) => d as u64,
            _ => 5,
        },
        None => 5,
    }
}

impl Timer {
    /// Symbol of the plugin.
    pub fn symbol() -> (s: &'static str)
        ensures
            s@ == "timer"@,
    {
        "timer"
    }

    /// The number of seconds to wait for a context's state.
    pub fn duration(state: &AttributeGraph) -> (d: u64)
        ensures
            d == timer_duration(state@.attributes),
    {
        match state.find_attr_value("duration") {
            Some(Value::Int(d)) => *d as u64,
            _ => 5,
        }
    }
}

// ------------------------------------------------------------------------
// Buttons
// ------------------------------------------------------------------------

/// Button that starts an event that takes computation time: whether it was
/// pressed (none until the event was seen), the status shown beside it, its
/// label, and the entity of the event it starts.
#[derive(Debug, Clone, Default)]
pub struct StartButton {
    pub pressed: Option<bool>,
    pub status: String,
    pub label: String,
    pub caller: Option<Entity>,
}

pub struct StartButtonView {
    pub pressed: Option<bool>,
    pub status: Seq<char>,
    pub label: Seq<char>,
    pub caller: Option<Entity>,
}

impl View for StartButton {
    type V = StartButtonView;

    open spec fn view(&self) -> StartButtonView {
        StartButtonView { pressed: self.pressed, status: self.status@, label: self.label@, caller: self.caller }
    }
}

/// The status shown for an event: running, or completed with the time it
/// took when the context records one.
pub open spec fn run_status(running: bool, elapsed: Option<Seq<char>>) -> Seq<char> {
    if running {
        "Running"@
    } else {
        match elapsed {
            Some(e) => "Completed, elapsed: "@ + e,
            None => "Completed"@,
        }
    }
}

/// The text that a context records under `elapsed`.
pub open spec fn elapsed_text(attrs: Seq<crate::attributes::AttributeView>) -> Option<Seq<char>> {
    match lookup(attrs, "elapsed"@) {
        Some(a) => match a.value {
            ValueView::TextBuffer(t) => Some(t),
            _ => None,
        },
        None => None,
    }
}

fn status_text(running: bool, context: &AttributeGraph) -> (s: String)
    ensures
        s@ == run_status(running, elapsed_text(context@.attributes)),
{
    if running {
        "Running".to_owned()
    } else {
        match context.find_text("elapsed") {
            Some(e) => {
                let mut s = "Completed, elapsed: ".to_owned();
                s.append(e.as_str());
                s
            },
            None => "Completed".to_owned(),
        }
    }
}

impl StartButton {
    /// Returns a copy of this button.
    pub fn duplicate(&self) -> (b: StartButton)
        ensures
            b@ == self@,
    {
        StartButton {
            pressed: self.pressed,
            status: self.status.clone(),
            label: self.label.clone(),
            caller: self.caller,
        }
    }

    /// Presses the button, once it knows its event.
    pub fn press(&mut self)
        ensures
            old(self)@.caller is Some ==> final(self)@ == (StartButtonView { pressed: Some(true), ..old(self)@ }),
            old(self)@.caller is None ==> final(self)@ == old(self)@,
    {
        if self.caller.is_some() {
            self.pressed = Some(true);
        }
    }

    /// The text of the button: its label and the id of its event.
    pub fn button_text(&self) -> (s: Option<String>)
        ensures
            match self@.caller {
                Some(e) => s matches Some(t) && t@ == self@.label + " "@ + crate::text::decimal(e.index as nat),
                None => s is None,
            },
    {
        match self.caller {
            Some(e) => {
                let mut s = self.label.clone();
                s.append(" ");
                crate::text::push_decimal(&mut s, e.index as u64);
                Some(s)
            },
            None => None,
        }
    }
}

/// What a call button becomes after one run of the call system: a press is
/// consumed (the event is fired), the status is refreshed once the button has
/// been seen, and the label and caller always are.
pub open spec fn call_report(b: StartButtonView, running: bool, elapsed: Option<Seq<char>>, label: Seq<char>, entity: Entity) -> StartButtonView {
    StartButtonView {
        pressed: b.pressed,
        status: if b.pressed is Some { run_status(running, elapsed) } else { b.status },
        label,
        caller: Some(entity),
    }
}

impl Call {
    /// First half of a run of the call system for one event: takes a press of
    /// its button. Returns true when the event must be fired.
    pub fn take_press(button: &mut StartButton) -> (fire: bool)
        ensures
            fire == (old(button)@.pressed == Some(true)),
            fire ==> final(button)@ == (StartButtonView { pressed: Some(false), ..old(button)@ }),
            !fire ==> final(button)@ == old(button)@,
    {
        if button.pressed == Some(true) {
            button.pressed = Some(false);
            true
        } else {
            false
        }
    }

    /// Second half of a run of the call system for one event: shows whether
    /// the event is running, labels the button and ties it to the event.
    pub fn report(button: &mut StartButton, running: bool, context: &AttributeGraph, label: String, entity: Entity)
        ensures
            final(button)@ == call_report(old(button)@, running, elapsed_text(context@.attributes), label@, entity),
    {
        if button.pressed.is_some() {
            button.status = status_text(running, context);
        }
        button.label = label;
        button.caller = Some(entity);
    }
}

impl Start {
    /// First half of a run of the start system for one event: takes a press of
    /// its button. Returns true when the event must be fired.
    pub fn take_press(button: &mut StartButton) -> (fire: bool)
        ensures
            fire == (old(button)@.pressed == Some(true)),
            fire ==> final(button)@ == (StartButtonView { pressed: Some(false), ..old(button)@ }),
            !fire ==> final(button)@ == old(button)@,
    {
        Call::take_press(button)
    }

    /// Second half of a run of the start system for one event: the status is
    /// always refreshed, the button labelled and tied to the event.
    pub fn report(button: &mut StartButton, running: bool, context: &AttributeGraph, label: String, entity: Entity)
        ensures
            final(button)@ == (StartButtonView {
                pressed: old(button)@.pressed,
                status: run_status(running, elapsed_text(context@.attributes)),
                label: label@,
                caller: Some(entity),
            }),
    {
        button.status = status_text(running, context);
        button.label = label;
        button.caller = Some(entity);
    }
}

/// Button to sequence within a task: the button of its owner, whether auto
/// mode is on, and the button of the next event.
#[derive(Debug, Clone, Default)]
pub struct NextButton {
    pub owner: StartButton,
    pub auto: Option<bool>,
    pub next: Option<StartButton>,
}

impl Sequencer {
    /// Decides the next button of an entity: an entity with a start button and
    /// no next button gets one owned by a copy of its start button.
    pub fn next_button_for(start: Option<&StartButton>, has_next: bool) -> (n: Option<NextButton>)
        ensures
            (start is Some && !has_next) <==> n is Some,
            n matches Some(b) ==> b.owner@ == start.unwrap()@ && b.auto is None && b.next is None,
    {
        match start {
            Some(s) => {
                if has_next {
                    None
                } else {
                    Some(NextButton { owner: s.duplicate(), auto: None, next: None })
                }
            },
            None => None,
        }
    }
}

/// Generates a next button for every start button.
#[derive(Debug, Clone, Copy, Default)]
pub struct Sequencer;

// ------------------------------------------------------------------------
// Progress
// ------------------------------------------------------------------------

/// Progress of an event: its progress (the bit pattern of an `f32`), its
/// status, the lines shown in its log and its whole log history.
#[derive(Debug, Clone, Default)]
pub struct ProgressStatusBar {
    pub progress: u32,
    pub status: String,
    pub log_display: String,
    pub log: String,
}

pub struct ProgressView {
    pub progress: u32,
    pub status: Seq<char>,
    pub log_display: Seq<char>,
    pub log: Seq<char>,
}

impl View for ProgressStatusBar {
    type V = ProgressView;

    open spec fn view(&self) -> ProgressView {
        ProgressView { progress: self.progress, status: self.status@, log_display: self.log_display@, log: self.log@ }
    }
}

/// The length of a text in bytes, as `str::len` gives it.
pub open spec fn byte_len(s: Seq<char>) -> usize {
    encode_utf8(s).len() as usize
}

/// How many bytes of log to show: ten lines as long as the current status,
/// with lines of at most 85 bytes.
pub open spec fn display_limit(status: Seq<char>) -> int {
    10 * if byte_len(status) < 85 { byte_len(status) as int } else { 85 }
}

/// A progress bar after a status update: the update becomes the status and
/// progress, and its message a new line of the log shown, whose first line is
/// dropped when the log is longer than the limit, and of the history.
pub open spec fn progress_after(b: ProgressView, progress: u32, message: Seq<char>) -> ProgressView {
    let shown = if byte_len(b.log_display) > display_limit(b.status) {
        after_first_line(b.log_display)
    } else {
        b.log_display
    };
    ProgressView {
        progress,
        status: message,
        log_display: shown + message + "\n"@,
        log: b.log + message + "\n"@,
    }
}

impl ProgressStatusBar {
    /// A progress bar for the first update about an entity.
    pub fn first(progress: u32, message: String) -> (b: ProgressStatusBar)
        ensures
            b@ == (ProgressView { progress, status: message@, log_display: Seq::empty(), log: Seq::empty() }),
    {
        ProgressStatusBar { progress, status: message, log_display: String::new(), log: String::new() }
    }

    /// Applies a status update.
    pub fn apply_update(&mut self, progress: u32, message: String)
        ensures
            final(self)@ == progress_after(old(self)@, progress, message@),
    {
        let ghost old_display = self.log_display@;
        let status_bytes = self.status.as_str().len();
        let limit: usize = 10 * if status_bytes < 85 { status_bytes } else { 85 };
        assert(limit == display_limit(self.status@));
        if self.log_display.as_str().len() > limit {
            self.log_display = drop_first_line(self.log_display.as_str());
        }
        assert(self.log_display@ == (if byte_len(old_display) > display_limit(old(self)@.status) {
            after_first_line(old_display) } else { old_display }));
        self.log_display.append(message.as_str());
        self.log_display.append("\n");
        self.log.append(message.as_str());
        self.log.append("\n");
        self.status = message;
        self.progress = progress;
        proof {
            reveal_strlit("\n");
        }
    }
}

/// Decodes UTF-8 bytes into a string (`String::from_utf8`): a string exactly
/// when the bytes are valid UTF-8, and then the one they encode.
#[verifier::external_body]
fn utf8_string(bytes: Vec<u8>) -> (r: Option<String>)
    ensures
        r is Some <==> valid_utf8(bytes@),
        r matches Some(s) ==> encode_utf8(s@) == bytes@,
{
    String::from_utf8(bytes).ok()
}

/// The attributes a progress bar is kept as: its progress, its status, and its
/// two logs as UTF-8 bytes.
pub open spec fn progress_attributes(b: ProgressView) -> Seq<AttributeView> {
    let a0 = upsert(Seq::empty(), AttributeView { id: 0, name: "progress"@, value: ValueView::Float(b.progress) });
    let a1 = upsert(a0, AttributeView { id: 0, name: "status"@, value: ValueView::TextBuffer(b.status) });
    let a2 = upsert(a1, AttributeView { id: 0, name: "log_display"@, value: ValueView::BinaryVector(encode_utf8(b.log_display)) });
    upsert(a2, AttributeView { id: 0, name: "history.log"@, value: ValueView::BinaryVector(encode_utf8(b.log)) })
}

/// The float named `name`, as bits; zero (the bits of `0.0`) when there is none.
pub open spec fn float_or_zero(attrs: Seq<AttributeView>, name: Seq<char>) -> u32 {
    match lookup(attrs, name) {
        Some(a) => match a.value {
            ValueView::Float(f) => f,
            _ => 0,
        },
        None => 0,
    }
}

/// The text named `name`; empty when there is none.
pub open spec fn text_or_empty(attrs: Seq<AttributeView>, name: Seq<char>) -> Seq<char> {
    match lookup(attrs, name) {
        Some(a) => match a.value {
            ValueView::TextBuffer(t) => t,
            _ => Seq::empty(),
        },
        None => Seq::empty(),
    }
}

/// The text that the bytes named `name` encode; empty when there are none or
/// they are not valid UTF-8.
pub open spec fn utf8_or_empty(attrs: Seq<AttributeView>, name: Seq<char>) -> Seq<char> {
    match lookup(attrs, name) {
        Some(a) => match a.value {
            ValueView::BinaryVector(bs) => if valid_utf8(bs) { decode_utf8(bs) } else { Seq::empty() },
            _ => Seq::empty(),
        },
        None => Seq::empty(),
    }
}

/// The progress bar that attributes describe.
pub open spec fn progress_of_attributes(attrs: Seq<AttributeView>) -> ProgressView {
    ProgressView {
        progress: float_or_zero(attrs, "progress"@),
        status: text_or_empty(attrs, "status"@),
        log_display: utf8_or_empty(attrs, "log_display"@),
        log: utf8_or_empty(attrs, "history.log"@),
    }
}

fn utf8_text(g: &AttributeGraph, name: &str) -> (s: String)
    ensures
        s@ == utf8_or_empty(g@.attributes, name@),
{
    match g.find_attr_value(name) {
        Some(Value::BinaryVector(bs)) => {
            let ghost bv = bs@;
            let copy = bs.clone();
            assert(copy@ =~= bv);
            match utf8_string(copy) {
                Some(s) => {
                    proof {
                        vstd::utf8::encode_utf8_decode_utf8(s@);
                    }
                    s
                },
                None => String::new(),
            }
        },
        _ => String::new(),
    }
}

impl ProgressStatusBar {
    /// Keeps the progress bar as attributes of entity 0.
    pub fn to_graph(&self) -> (g: AttributeGraph)
        ensures
            g@.entity == 0,
            g@.attributes == progress_attributes(self@),
    {
        let mut g = AttributeGraph::new(0);
        g.with("progress".to_owned(), Value::Float(self.progress));
        g.with("status".to_owned(), Value::TextBuffer(self.status.clone()));
        g.with("log_display".to_owned(), Value::BinaryVector(self.log_display.as_str().as_bytes_vec()));
        g.with("history.log".to_owned(), Value::BinaryVector(self.log.as_str().as_bytes_vec()));
        g
    }

    /// Reads a progress bar back from attributes.
    pub fn from_graph(g: &AttributeGraph) -> (b: ProgressStatusBar)
        ensures
            b@ == progress_of_attributes(g@.attributes),
    {
        let progress = match g.find_attr_value("progress") {
            Some(Value::Float(f)) => *f,
            _ => 0,
        };
        let status = match g.find_text("status") {
            Some(t) => t,
            None => String::new(),
        };
        let log_display = utf8_text(g, "log_display");
        let log = utf8_text(g, "history.log");
        ProgressStatusBar { progress, status, log_display, log }
    }
}

/// A progress bar kept as attributes reads back as it was.
pub proof fn law_progress_graph_round_trip(b: ProgressView)
    ensures
        progress_of_attributes(progress_attributes(b)) == b,
{
    reveal_strlit("progress");
    reveal_strlit("status");
    reveal_strlit("log_display");
    reveal_strlit("history.log");
    let a0 = upsert(Seq::empty(), AttributeView { id: 0, name: "progress"@, value: ValueView::Float(b.progress) });
    let a1 = upsert(a0, AttributeView { id: 0, name: "status"@, value: ValueView::TextBuffer(b.status) });
    let a2 = upsert(a1, AttributeView { id: 0, name: "log_display"@, value: ValueView::BinaryVector(encode_utf8(b.log_display)) });
    let a3 = progress_attributes(b);
    lemma_upsert_lookup(Seq::empty(), AttributeView { id: 0, name: "progress"@, value: ValueView::Float(b.progress) });
    lemma_upsert_lookup(a0, AttributeView { id: 0, name: "status"@, value: ValueView::TextBuffer(b.status) });
    lemma_upsert_lookup(a1, AttributeView { id: 0, name: "log_display"@, value: ValueView::BinaryVector(encode_utf8(b.log_display)) });
    lemma_upsert_lookup(a2, AttributeView { id: 0, name: "history.log"@, value: ValueView::BinaryVector(encode_utf8(b.log)) });
    assert("progress"@.len() != "status"@.len());
    assert("progress"@.len() != "log_display"@.len());
    assert("progress"@.len() != "history.log"@.len());
    assert("status"@.len() != "log_display"@.len());
    assert("status"@.len() != "history.log"@.len());
    assert("log_display"@[0] != "history.log"@[0]);
    vstd::utf8::encode_utf8_valid_utf8(b.log_display);
    vstd::utf8::encode_utf8_valid_utf8(b.log);
    vstd::utf8::encode_utf8_decode_utf8(b.log_display);
    vstd::utf8::encode_utf8_decode_utf8(b.log);
}

/// The log history of a progress bar only grows: each update appends its
/// message as one line, whatever happens to the lines shown.
pub proof fn law_history_keeps_every_update(b: ProgressView, progress: u32, message: Seq<char>)
    ensures
        progress_after(b, progress, message).log == b.log + message + "\n"@,
        b.log.is_prefix_of(progress_after(b, progress, message).log),
        progress_after(b, progress, message).status == message,
{
    assert(progress_after(b, progress, message).log.subrange(0, b.log.len() as int) =~= b.log);
}

// ------------------------------------------------------------------------
// Tasks
// ------------------------------------------------------------------------

/// A task: copies of the start button, progress bar and sequence of its
/// entity, and whether it was disabled (its event archived).
#[derive(Debug, Clone, Default)]
pub struct Task {
    pub start_button: Option<StartButton>,
    pub progress: Option<ProgressStatusBar>,
    pub sequence: Option<Sequence>,
    pub disabled: bool,
}

pub struct TaskView {
    pub start_button: Option<StartButtonView>,
    pub progress: Option<ProgressView>,
    pub sequence: Option<SequenceView>,
    pub disabled: bool,
}

impl View for Task {
    type V = TaskView;

    open spec fn view(&self) -> TaskView {
        TaskView {
            start_button: match self.start_button { Some(b) => Some(b@), None => None },
            progress: match self.progress { Some(p) => Some(p@), None => None },
            sequence: match self.sequence { Some(s) => Some(s@), None => None },
            disabled: self.disabled,
        }
    }
}

/// `current` replaced by `seen` when the entity has one.
pub open spec fn refreshed<T>(current: Option<T>, seen: Option<T>) -> Option<T> {
    match seen {
        Some(s) => Some(s),
        None => current,
    }
}

impl Task {
    /// Disables the task.
    pub fn disable(&mut self)
        ensures
            final(self)@ == (TaskView { disabled: true, ..old(self)@ }),
    {
        self.disabled = true;
    }

    /// One run of the task system for one task: copies in the components its
    /// entity has, and keeps what it held of those it lacks.
    pub fn sync(&mut self, start: Option<&StartButton>, progress: Option<&ProgressStatusBar>, sequence: Option<&Sequence>)
        ensures
            final(self)@.start_button == refreshed(old(self)@.start_button, match start { Some(b) => Some(b@), None => None }),
            final(self)@.progress == refreshed(old(self)@.progress, match progress { Some(p) => Some(p@), None => None }),
            final(self)@.sequence == refreshed(old(self)@.sequence, match sequence { Some(s) => Some(s@), None => None }),
            final(self)@.disabled == old(self)@.disabled,
    {
        if let Some(b) = start {
            self.start_button = Some(b.duplicate());
        }
        if let Some(p) = progress {
            self.progress = Some(ProgressStatusBar {
                progress: p.progress,
                status: p.status.clone(),
                log_display: p.log_display.clone(),
                log: p.log.clone(),
            });
        }
        if let Some(s) = sequence {
            self.sequence = Some(s.duplicate());
        }
    }
}

// ------------------------------------------------------------------------
// New events
// ------------------------------------------------------------------------

/// Kinds of events the runtime editor's menu creates.
#[derive(Debug, Clone, Copy, PartialEq, Eq, Structural)]
pub enum EventKind {
    Timer,
    Process,
    Remote,
    OpenFile,
    OpenDir,
    WriteFile,
    Println,
}

/// The title a new event of a kind starts from.
pub open spec fn kind_prefix(k: EventKind) -> Seq<char> {
    match k {
        EventKind::Timer => "new_timer"@,
        EventKind::Process => "new_process"@,
        EventKind::Remote => "new_remote"@,
        EventKind::OpenFile => "new_open_file"@,
        EventKind::OpenDir => "new_open_dir"@,
        EventKind::WriteFile => "new_write_file"@,
        EventKind::Println => "new_println"@,
    }
}

/// The field a new event of a kind is given, with its initial value.
pub open spec fn kind_field(k: EventKind) -> (Seq<char>, ValueView) {
    match k {
        EventKind::Timer => ("duration"@, ValueView::Int(0)),
        EventKind::Process => ("command"@, ValueView::TextBuffer(Seq::empty())),
        EventKind::Remote => ("command"@, ValueView::TextBuffer(Seq::empty())),
        EventKind::OpenFile => ("file_src"@, ValueView::TextBuffer(Seq::empty())),
        EventKind::OpenDir => ("file_dir"@, ValueView::TextBuffer(Seq::empty())),
        EventKind::WriteFile => ("file_dst"@, ValueView::TextBuffer(Seq::empty())),
        EventKind::Println => ("file_dst"@, ValueView::TextBuffer(Seq::empty())),
    }
}

/// `g` with the attribute `name` set to `v`.
pub open spec fn set_attribute(g: GraphView, name: Seq<char>, v: ValueView) -> GraphView {
    GraphView { entity: g.entity, attributes: upsert(g.attributes, AttributeView { id: g.entity, name, value: v }) }
}

/// The configuration of a new event of kind `k`, numbered `n`, made from `g`:
/// its node title, the symbol of its plugin, open by default, and the kind's field.
pub open spec fn event_template_spec(g: GraphView, k: EventKind, thunk_symbol: Seq<char>, n: u16) -> GraphView {
    let g1 = set_attribute(g, "node_title"@, ValueView::TextBuffer(titled_spec(kind_prefix(k), n)));
    let g2 = set_attribute(g1, "thunk_symbol"@, ValueView::TextBuffer(thunk_symbol));
    let g3 = set_attribute(g2, "default_open"@, ValueView::Bool(true));
    set_attribute(g3, kind_field(k).0, kind_field(k).1)
}

/// Configures a new event of kind `kind`, numbered `n`, whose plugin has the
/// symbol `thunk_symbol`: fills its configuration and returns the name of its
/// block, which is also its node title.
pub fn event_template(kind: EventKind, thunk_symbol: &str, n: u16, config: &mut AttributeGraph) -> (block_name: String)
    ensures
        block_name@ == titled_spec(kind_prefix(kind), n),
        final(config)@ == event_template_spec(old(config)@, kind, thunk_symbol@, n),
{
    let (prefix, field): (&str, &str) = match kind {
        EventKind::Timer => ("new_timer", "duration"),
        EventKind::Process => ("new_process", "command"),
        EventKind::Remote => ("new_remote", "command"),
        EventKind::OpenFile => ("new_open_file", "file_src"),
        EventKind::OpenDir => ("new_open_dir", "file_dir"),
        EventKind::WriteFile => ("new_write_file", "file_dst"),
        EventKind::Println => ("new_println", "file_dst"),
    };
    let title = titled(prefix, n);
    config.add_text_attr("node_title".to_string(), title.clone());
    config.add_text_attr("thunk_symbol".to_string(), thunk_symbol.to_string());
    config.add_bool_attr("default_open".to_string(), true);
    match kind {
        EventKind::Timer => config.with(field.to_string(), Value::Int(0)),
        _ => config.add_text_attr(field.to_string(), String::new()),
    }
    title
}

/// Configures a new event of kind `kind` as the runtime editor's menu does,
/// numbered at random.
pub fn new_event_template(kind: EventKind, thunk_symbol: &str, config: &mut AttributeGraph) -> (block_name: String)
    ensures
        exists|n: u16| block_name@ == titled_spec(kind_prefix(kind), n)
            && final(config)@ == event_template_spec(old(config)@, kind, thunk_symbol@, n),
{
    let n = random_u16();
    event_template(kind, thunk_symbol, n, config)
}

// ------------------------------------------------------------------------
// Interpreters
// ------------------------------------------------------------------------

/// Something that does something with the result of an event.
pub trait Interpreter {
    /// Interprets, giving back state when there is something to keep.
    fn interpret(&self) -> Option<AttributeGraph>;
}

/// An engine that sequences an event with an interpreter of its result; the
/// interpreter is only there once a value was provided.
#[derive(Debug, Clone, Default)]
pub struct Interpret<I> {
    pub interpreter: Option<I>,
}

impl<I> Interpret<I> {
    /// Name of the event.
    pub fn event_name() -> (s: &'static str)
        ensures
            s@ == "interpret"@,
    {
        "interpret"
    }
}

impl<I: Interpreter> Interpreter for Interpret<I> {
    /// Interprets with the interpreter it holds, or gives nothing without one.
    fn interpret(&self) -> (r: Option<AttributeGraph>)
        ensures
            self.interpreter is None ==> r is None,
            self.interpreter matches Some(i) ==> call_ensures(I::interpret, (&i,), r),
    {
        match &self.interpreter {
            Some(i) => i.interpret(),
            None => None,
        }
    }
}

} // verus!
