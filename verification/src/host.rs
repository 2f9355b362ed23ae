use vstd::prelude::*;
use crate::entity::Entity;
use crate::attributes::{AttributeGraph, GraphView};
use crate::controls::{Node, NodeView, mutations_view, opt_command_view, node_control_symbol};
use crate::keyed::{key_lookup, key_upsert, key_remove, key_position, has_key, first_key, distinct_keys, lemma_key_position, lemma_key_upsert, lemma_key_remove};
use crate::node::{NodeCommand, NodeCommandView};
use crate::order::{group_all, groups_sorted, groups_view, group_of, texts_view};
use crate::debugger::positions;

verus! {

/// Tool for viewing and interacting with a host: the nodes of its events, the
/// nodes of its adhoc operations, what it last saw of the event runtime, and
/// the runtime commands waiting to be dispatched.
pub struct HostEditor {
    nodes: Vec<Node>,
    adhoc_nodes: Vec<Node>,
    is_paused: bool,
    is_stopped: bool,
    tick: bool,
    pause: bool,
    reset: bool,
}

pub struct HostView {
    pub nodes: Seq<NodeView>,
    pub adhoc_nodes: Seq<NodeView>,
    pub is_paused: bool,
    pub is_stopped: bool,
    pub tick: bool,
    pub pause: bool,
    pub reset: bool,
}

pub open spec fn nodes_view(v: Seq<Node>) -> Seq<NodeView> {
    v.map_values(|n: Node| n@)
}

impl View for HostEditor {
    type V = HostView;

    closed spec fn view(&self) -> HostView {
        HostView {
            nodes: nodes_view(self.nodes@),
            adhoc_nodes: nodes_view(self.adhoc_nodes@),
            is_paused: self.is_paused,
            is_stopped: self.is_stopped,
            tick: self.tick,
            pause: self.pause,
            reset: self.reset,
        }
    }
}

/// What to do about a pending pause request, given whether the runtime can continue.
#[derive(Debug, Clone, Copy, PartialEq, Eq, Structural)]
pub enum PauseAction {
    Pause,
    Resume,
}

/// A button of the host's tool bar.
#[derive(Debug, Clone, Copy, PartialEq, Eq, Structural)]
pub enum Tool {
    Tick,
    Resume,
    Pause,
    ResetAll,
}

/// The tool bar: a paused runtime can be ticked or resumed, a running one
/// paused; all can be reset.
pub open spec fn tools_spec(h: HostView) -> Seq<Tool> {
    if h.is_paused { seq![Tool::Tick, Tool::Resume, Tool::ResetAll] } else { seq![Tool::Pause, Tool::ResetAll] }
}

/// The host after a tool was used: tick asks for a tick, resume and pause both
/// ask to toggle the pause, reset all asks for a reset.
pub open spec fn use_tool_spec(h: HostView, t: Tool) -> HostView {
    match t {
        Tool::Tick => HostView { tick: true, ..h },
        Tool::Resume | Tool::Pause => HostView { pause: true, ..h },
        Tool::ResetAll => HostView { reset: true, ..h },
    }
}

/// The heading that a node is listed under: its engine's control symbol, or
/// `Adhoc Operations` when it has none.
pub open spec fn listing_symbol(n: NodeView) -> Seq<char> {
    if node_control_symbol(n).len() == 0 { "Adhoc Operations"@ } else { node_control_symbol(n) }
}

pub open spec fn listing_symbols(nodes: Seq<NodeView>) -> Seq<Seq<char>> {
    nodes.map_values(|n: NodeView| listing_symbol(n))
}

/// The commands that the nodes hold, in order.
pub open spec fn node_commands(nodes: Seq<NodeView>) -> Seq<NodeCommandView>
    decreases nodes.len(),
{
    if nodes.len() == 0 {
        Seq::empty()
    } else {
        let rest = node_commands(nodes.drop_last());
        match nodes.last().command {
            Some(c) => rest.push(c),
            None => rest,
        }
    }
}

/// The edits that the nodes hold, by the node's entity; a later node's edits
/// replace an earlier one's for the same entity.
pub open spec fn node_edits(nodes: Seq<NodeView>) -> Seq<(Entity, Seq<(Entity, GraphView)>)>
    decreases nodes.len(),
{
    if nodes.len() == 0 {
        Seq::empty()
    } else {
        let rest = node_edits(nodes.drop_last());
        let n = nodes.last();
        if n.mutations.len() > 0 { key_upsert(rest, n.status.spec_entity(), n.mutations) } else { rest }
    }
}

/// A node that holds edits has an entity: its status is not empty.
pub open spec fn edits_have_entities(nodes: Seq<NodeView>) -> bool {
    forall|i: int| 0 <= i < nodes.len() && #[trigger] nodes[i].mutations.len() > 0 ==> !(nodes[i].status is Empty)
}

pub open spec fn edits_view(v: Seq<(Entity, Vec<(Entity, AttributeGraph)>)>) -> Seq<(Entity, Seq<(Entity, GraphView)>)> {
    v.map_values(|p: (Entity, Vec<(Entity, AttributeGraph)>)| (p.0, mutations_view(p.1@)))
}

pub open spec fn commands_view(v: Seq<NodeCommand>) -> Seq<NodeCommandView> {
    v.map_values(|c: NodeCommand| c@)
}

/// Fresh nodes with the edits handed back: each node, in order, takes the
/// pending edits of its entity, which are then no longer pending. Returns the
/// nodes and the edits still pending.
pub open spec fn restore(latest: Seq<NodeView>, pending: Seq<(Entity, Seq<(Entity, GraphView)>)>)
    -> (Seq<NodeView>, Seq<(Entity, Seq<(Entity, GraphView)>)>)
    decreases latest.len(),
{
    if latest.len() == 0 {
        (Seq::empty(), pending)
    } else {
        let (done, left) = restore(latest.drop_last(), pending);
        let n = latest.last();
        let e = n.status.spec_entity();
        match key_lookup(left, e) {
            Some(m) => (done.push(NodeView { mutations: m, ..n }), key_remove(left, e)),
            None => (done.push(n), left),
        }
    }
}

pub open spec fn no_empty_status(nodes: Seq<NodeView>) -> bool {
    forall|i: int| 0 <= i < nodes.len() ==> !(#[trigger] nodes[i].status is Empty)
}

fn copy_mutations(m: &Vec<(Entity, AttributeGraph)>) -> (r: Vec<(Entity, AttributeGraph)>)
    ensures
        mutations_view(r@) == mutations_view(m@),
{
    let mut r: Vec<(Entity, AttributeGraph)> = Vec::new();
    let mut i: usize = 0;
    while i < m.len()
        invariant
            i <= m@.len(),
            mutations_view(r@) =~= mutations_view(m@).subrange(0, i as int),
        decreases m@.len() - i,
    {
        let ghost before = r@;
        r.push((m[i].0, m[i].1.duplicate()));
        assert(mutations_view(r@) =~= mutations_view(before).push(mutations_view(m@)[i as int]));
        i = i + 1;
    }
    r
}

fn edit_position(edits: &Vec<(Entity, Vec<(Entity, AttributeGraph)>)>, e: Entity) -> (r: Option<usize>)
    ensures
        r is Some <==> has_key(edits_view(edits@), e),
        r matches Some(i) ==> i as int == key_position(edits_view(edits@), e) && i < edits@.len(),
{
    let ghost es = edits_view(edits@);
    proof {
        lemma_key_position(es, e);
    }
    let mut i: usize = 0;
    while i < edits.len()
        invariant
            i <= edits@.len(),
            es == edits_view(edits@),
            forall|j: int| 0 <= j < i ==> #[trigger] es[j].0 != e,
        decreases edits@.len() - i,
    {
        if edits[i].0 == e {
            assert(first_key(es, e, i as int));
            return Some(i);
        }
        i = i + 1;
    }
    None
}

impl HostEditor {
    /// Creates a host editor with no nodes and nothing pending.
    pub fn new() -> (h: HostEditor)
        ensures
            h@.nodes.len() == 0,
            h@.adhoc_nodes.len() == 0,
            !h@.is_paused && !h@.is_stopped,
            !h@.tick && !h@.pause && !h@.reset,
    {
        HostEditor {
            nodes: Vec::new(),
            adhoc_nodes: Vec::new(),
            is_paused: false,
            is_stopped: false,
            tick: false,
            pause: false,
            reset: false,
        }
    }

    /// Dispatch a command to tick events,
    pub fn tick_events(&mut self)
        ensures
            final(self)@ == (HostView { tick: true, ..old(self)@ }),
    {
        self.tick = true;
    }

    /// Dispatch a command to pause events,
    pub fn pause_events(&mut self)
        ensures
            final(self)@ == (HostView { pause: true, ..old(self)@ }),
    {
        self.pause = true;
    }

    /// Dispatch a command to reset events,
    pub fn reset_events(&mut self)
        ensures
            final(self)@ == (HostView { reset: true, ..old(self)@ }),
    {
        self.reset = true;
    }

    /// True if the event runtime was paused when last seen,
    pub fn is_paused(&self) -> (b: bool)
        ensures
            b == self@.is_paused,
    {
        self.is_paused
    }

    /// True if the event runtime had nothing left to do when last seen,
    pub fn is_stopped(&self) -> (b: bool)
        ensures
            b == self@.is_stopped,
    {
        self.is_stopped
    }

    /// The nodes of the host's events.
    pub fn nodes(&self) -> (n: &Vec<Node>)
        ensures
            nodes_view(n@) == self@.nodes,
    {
        &self.nodes
    }

    /// The nodes of the host's adhoc operations.
    pub fn adhoc_nodes(&self) -> (n: &Vec<Node>)
        ensures
            nodes_view(n@) == self@.adhoc_nodes,
    {
        &self.adhoc_nodes
    }

    /// The buttons of the tool bar.
    pub fn tools(&self) -> (t: Vec<Tool>)
        ensures
            t@ == tools_spec(self@),
    {
        let mut t: Vec<Tool> = Vec::new();
        if self.is_paused {
            t.push(Tool::Tick);
            t.push(Tool::Resume);
        } else {
            t.push(Tool::Pause);
        }
        t.push(Tool::ResetAll);
        assert(t@ =~= tools_spec(self@));
        t
    }

    /// Uses a button of the tool bar.
    pub fn use_tool(&mut self, tool: Tool)
        ensures
            final(self)@ == use_tool_spec(old(self)@, tool),
    {
        match tool {
            Tool::Tick => self.tick_events(),
            Tool::Resume | Tool::Pause => self.pause_events(),
            Tool::ResetAll => self.reset_events(),
        }
    }

    /// Records what the event runtime reports: whether it can continue, and
    /// whether it has nothing more to process.
    pub fn observe(&mut self, can_continue: bool, should_exit: bool)
        ensures
            final(self)@ == (HostView { is_paused: !can_continue, is_stopped: should_exit, ..old(self)@ }),
    {
        self.is_paused = !can_continue;
        self.is_stopped = should_exit;
    }

    /// Takes the pending tick request.
    pub fn take_tick(&mut self) -> (t: bool)
        ensures
            t == old(self)@.tick,
            final(self)@ == (HostView { tick: false, ..old(self)@ }),
    {
        let t = self.tick;
        self.tick = false;
        t
    }

    /// Takes the pending pause request: a runtime that can continue is paused,
    /// one that cannot is resumed.
    pub fn take_pause(&mut self, can_continue: bool) -> (a: Option<PauseAction>)
        ensures
            old(self)@.pause ==> a == Some(if can_continue { PauseAction::Pause } else { PauseAction::Resume }),
            !old(self)@.pause ==> a is None,
            final(self)@ == (HostView { pause: false, ..old(self)@ }),
    {
        let p = self.pause;
        self.pause = false;
        if p {
            if can_continue { Some(PauseAction::Pause) } else { Some(PauseAction::Resume) }
        } else {
            None
        }
    }

    /// Takes the pending reset request.
    pub fn take_reset(&mut self) -> (r: bool)
        ensures
            r == old(self)@.reset,
            final(self)@ == (HostView { reset: false, ..old(self)@ }),
    {
        let r = self.reset;
        self.reset = false;
        r
    }

    /// Takes the nodes from the host editor.
    pub fn take_nodes(&mut self) -> (nodes: Vec<Node>)
        ensures
            nodes_view(nodes@) == old(self)@.nodes,
            final(self)@ == (HostView { nodes: Seq::empty(), ..old(self)@ }),
    {
        let mut nodes: Vec<Node> = Vec::new();
        std::mem::swap(&mut nodes, &mut self.nodes);
        assert(nodes_view(self.nodes@) =~= Seq::<NodeView>::empty());
        nodes
    }

    /// Takes the nodes out of the editor, and hands back the commands they hold,
    /// in order, and the edits they hold, by entity.
    pub fn drain_nodes(&mut self) -> (r: (Vec<NodeCommand>, Vec<(Entity, Vec<(Entity, AttributeGraph)>)>))
        requires
            edits_have_entities(old(self)@.nodes),
        ensures
            commands_view(r.0@) == node_commands(old(self)@.nodes),
            edits_view(r.1@) == node_edits(old(self)@.nodes),
            final(self)@ == (HostView { nodes: Seq::empty(), ..old(self)@ }),
    {
        let nodes = self.take_nodes();
        let ghost ns = nodes_view(nodes@);
        let mut commands: Vec<NodeCommand> = Vec::new();
        let mut edits: Vec<(Entity, Vec<(Entity, AttributeGraph)>)> = Vec::new();
        let mut i: usize = 0;
        while i < nodes.len()
            invariant
                i <= nodes@.len(),
                ns == nodes_view(nodes@),
                edits_have_entities(ns),
                commands_view(commands@) == node_commands(ns.subrange(0, i as int)),
                edits_view(edits@) == node_edits(ns.subrange(0, i as int)),
            decreases nodes@.len() - i,
        {
            let ghost pre = ns.subrange(0, i as int);
            assert(ns.subrange(0, i + 1 as int).drop_last() =~= pre);
            assert(ns.subrange(0, i + 1 as int).last() == ns[i as int]);
            let node = &nodes[i];
            match &node.command {
                Some(c) => {
                    let ghost before = commands@;
                    commands.push(c.duplicate());
                    assert(commands_view(commands@) =~= commands_view(before).push(c@));
                },
                None => {},
            }
            if node.mutations.len() > 0 {
                assert(ns[i as int].mutations.len() > 0);
                let e = node.status.entity();
                let m = copy_mutations(&node.mutations);
                let ghost ev = edits_view(edits@);
                match edit_position(&edits, e) {
                    Some(p) => {
                        edits.set(p, (e, m));
                        assert(edits_view(edits@) =~= key_upsert(ev, e, ns[i as int].mutations));
                    },
                    None => {
                        edits.push((e, m));
                        assert(edits_view(edits@) =~= key_upsert(ev, e, ns[i as int].mutations));
                    },
                }
            }
            i = i + 1;
        }
        assert(ns.subrange(0, nodes@.len() as int) =~= ns);
        (commands, edits)
    }

    /// Takes in the latest nodes of the runtime, handing back to each the edits
    /// still pending for its entity, and the latest adhoc nodes.
    pub fn refresh(&mut self, latest: Vec<Node>, pending: Vec<(Entity, Vec<(Entity, AttributeGraph)>)>, adhoc: Vec<Node>)
        requires
            no_empty_status(nodes_view(latest@)),
        ensures
            final(self)@ == (HostView {
                nodes: old(self)@.nodes + restore(nodes_view(latest@), edits_view(pending@)).0,
                adhoc_nodes: nodes_view(adhoc@),
                ..old(self)@
            }),
    {
        let ghost lv = nodes_view(latest@);
        let ghost start = nodes_view(self.nodes@);
        let ghost pv0 = edits_view(pending@);
        let ghost h0 = self@;
        let mut latest = latest;
        let mut pending = pending;
        let mut k: usize = 0;
        let n = latest.len();
        while latest.len() > 0
            invariant
                k + latest@.len() == n,
                n == lv.len(),
                no_empty_status(lv),
                nodes_view(latest@) == lv.subrange(k as int, n as int),
                nodes_view(self.nodes@) == start + restore(lv.subrange(0, k as int), pv0).0,
                edits_view(pending@) == restore(lv.subrange(0, k as int), pv0).1,
                self@ == (HostView { nodes: self@.nodes, ..h0 }),
            decreases latest@.len(),
        {
            let ghost before_latest = nodes_view(latest@);
            let mut node = latest.remove(0);
            assert(node@ == before_latest[0]);
            assert(node@ == lv[k as int]);
            assert(nodes_view(latest@) =~= before_latest.drop_first());
            assert(nodes_view(latest@) =~= lv.subrange(k + 1 as int, n as int));
            let ghost ev = edits_view(pending@);
            let ghost nv = node@;
            let e = node.status.entity();
            let ghost pre = lv.subrange(0, k as int);
            assert(lv.subrange(0, k + 1 as int).drop_last() =~= pre);
            assert(lv.subrange(0, k + 1 as int).last() == nv);
            proof {
                lemma_key_position(ev, e);
            }
            match edit_position(&pending, e) {
                Some(p) => {
                    let (_, m) = pending.remove(p);
                    assert(key_lookup(ev, e) == Some(mutations_view(m@)));
                    assert(edits_view(pending@) =~= ev.remove(p as int));
                    node.mutations = m;
                    assert(node@ == (NodeView { mutations: mutations_view(m@), ..nv }));
                },
                None => {},
            }
            let ghost before_nodes = nodes_view(self.nodes@);
            self.nodes.push(node);
            assert(nodes_view(self.nodes@) =~= before_nodes.push(node@));
            k = k + 1;
        }
        assert(lv.subrange(0, n as int) =~= lv);
        self.adhoc_nodes = adhoc;
    }
}

impl HostEditor {
    /// The nodes grouped for the event list: one group per heading, in heading
    /// order, each holding the positions of its nodes in order.
    pub fn event_groups(&self) -> (groups: Vec<(String, Vec<usize>)>)
        ensures
            groups_sorted(groups_view(groups@)),
            forall|k: Seq<char>| #[trigger] key_lookup(groups_view(groups@), k)
                == group_of(positions(self@.nodes.len()), listing_symbols(self@.nodes), k, self@.nodes.len() as int),
    {
        let ghost ns = self@.nodes;
        let mut syms: Vec<String> = Vec::new();
        let mut items: Vec<usize> = Vec::new();
        let mut i: usize = 0;
        while i < self.nodes.len()
            invariant
                i <= self.nodes@.len(),
                ns == nodes_view(self.nodes@),
                items@ =~= positions(ns.len()).subrange(0, i as int),
                texts_view(syms@) =~= listing_symbols(ns).subrange(0, i as int),
            decreases self.nodes@.len() - i,
        {
            let c = self.nodes[i].control_symbol();
            let s = if c.unicode_len() == 0 {
                proof {
                    reveal_strlit("Adhoc Operations");
                }
                "Adhoc Operations".to_owned()
            } else {
                c
            };
            assert(s@ == listing_symbol(ns[i as int]));
            let ghost before = syms@;
            syms.push(s);
            assert(texts_view(syms@) =~= texts_view(before).push(s@));
            items.push(i);
            i = i + 1;
        }
        let groups = group_all(&items, &syms);
        assert(items@ =~= positions(ns.len()));
        assert(texts_view(syms@) =~= listing_symbols(ns));
        groups
    }
}

/// The edits drained from nodes are kept by entity: no entity appears twice.
pub proof fn lemma_node_edits_distinct(nodes: Seq<NodeView>)
    ensures
        distinct_keys(node_edits(nodes)),
    decreases nodes.len(),
{
    if nodes.len() > 0 {
        lemma_node_edits_distinct(nodes.drop_last());
        let n = nodes.last();
        lemma_key_upsert(node_edits(nodes.drop_last()), n.status.spec_entity(), n.mutations);
    }
}

proof fn lemma_restore_len(latest: Seq<NodeView>, pending: Seq<(Entity, Seq<(Entity, GraphView)>)>)
    ensures
        restore(latest, pending).0.len() == latest.len(),
    decreases latest.len(),
{
    if latest.len() > 0 {
        lemma_restore_len(latest.drop_last(), pending);
    }
}

proof fn lemma_restore_prefix(latest: Seq<NodeView>, pending: Seq<(Entity, Seq<(Entity, GraphView)>)>, i: int)
    requires
        0 <= i < latest.len(),
    ensures
        restore(latest, pending).0[i] == restore(latest.subrange(0, i + 1), pending).0.last(),
    decreases latest.len(),
{
    lemma_restore_len(latest.drop_last(), pending);
    if i < latest.len() - 1 {
        lemma_restore_prefix(latest.drop_last(), pending, i);
        assert(latest.drop_last().subrange(0, i + 1) =~= latest.subrange(0, i + 1));
    } else {
        assert(latest.subrange(0, i + 1) =~= latest);
    }
}

proof fn lemma_restore_left(latest: Seq<NodeView>, pending: Seq<(Entity, Seq<(Entity, GraphView)>)>, e: Entity)
    requires
        distinct_keys(pending),
        forall|j: int| 0 <= j < latest.len() ==> #[trigger] latest[j].status.spec_entity() != e,
    ensures
        distinct_keys(restore(latest, pending).1),
        key_lookup(restore(latest, pending).1, e) == key_lookup(pending, e),
    decreases latest.len(),
{
    if latest.len() > 0 {
        let rest = latest.drop_last();
        assert forall|j: int| 0 <= j < rest.len() implies #[trigger] rest[j].status.spec_entity() != e by {
            assert(rest[j] == latest[j]);
        }
        lemma_restore_left(rest, pending, e);
        let left = restore(rest, pending).1;
        let x = latest.last().status.spec_entity();
        assert(latest[latest.len() - 1].status.spec_entity() != e);
        lemma_key_remove(left, x);
    }
}

/// What the editor edits comes back: when the runtime hands in fresh nodes,
/// the first node of each entity takes the edits pending for that entity, and
/// a node whose entity has none pending is kept as it came.
pub proof fn law_refresh_returns_edits(latest: Seq<NodeView>, pending: Seq<(Entity, Seq<(Entity, GraphView)>)>, i: int)
    requires
        distinct_keys(pending),
        0 <= i < latest.len(),
        forall|j: int| 0 <= j < i ==> #[trigger] latest[j].status.spec_entity() != latest[i].status.spec_entity(),
    ensures
        restore(latest, pending).0.len() == latest.len(),
        restore(latest, pending).0[i] == (match key_lookup(pending, latest[i].status.spec_entity()) {
            Some(m) => NodeView { mutations: m, ..latest[i] },
            None => latest[i],
        }),
{
    lemma_restore_len(latest, pending);
    lemma_restore_prefix(latest, pending, i);
    let q = latest.subrange(0, i + 1);
    let e = latest[i].status.spec_entity();
    assert(q.drop_last() =~= latest.subrange(0, i));
    assert forall|j: int| 0 <= j < q.drop_last().len() implies #[trigger] q.drop_last()[j].status.spec_entity() != e by {
        assert(q.drop_last()[j] == latest[j]);
    }
    lemma_restore_left(q.drop_last(), pending, e);
    assert(q.last() == latest[i]);
}

/// Edits made on the nodes survive a round through the runtime: after the
/// nodes are drained and fresh ones come in, the first fresh node of an entity
/// carries the edits that the last drained node of that entity held.
pub proof fn law_edits_survive_refresh(drained: Seq<NodeView>, latest: Seq<NodeView>, i: int)
    requires
        0 <= i < latest.len(),
        forall|j: int| 0 <= j < i ==> #[trigger] latest[j].status.spec_entity() != latest[i].status.spec_entity(),
        has_key(node_edits(drained), latest[i].status.spec_entity()),
    ensures
        restore(latest, node_edits(drained)).0[i].mutations
            == key_lookup(node_edits(drained), latest[i].status.spec_entity()).unwrap(),
        restore(latest, node_edits(drained)).0[i].status == latest[i].status,
{
    lemma_node_edits_distinct(drained);
    law_refresh_returns_edits(latest, node_edits(drained), i);
}

} // verus!
