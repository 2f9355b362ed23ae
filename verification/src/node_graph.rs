use vstd::prelude::*;
use crate::attributes::{Attribute, AttributeGraph, AttributeView, GraphView, Value, ValueView, upsert};
use crate::keyed::{key_lookup, key_upsert, key_remove, key_position, has_key, first_key, lemma_key_position};
use crate::text::{same_text, strings_view, strip_prefix};

verus! {

/// What a link of the node graph does to the node it points to, decided by
/// the value of the node it starts from and the value of the node it points to.
#[derive(Debug)]
pub enum LinkStep {
    /// The target takes the reference that the source holds.
    ShareReference(u64),
    /// The target takes a reference to the first value that the source's
    /// node returns, where it returns one.
    TakeFirstReturn,
    /// The target takes a reference to the source's value.
    TakeReference,
    /// The target's thunk, named here, takes every output and every returned
    /// value of the source's node.
    ForwardOutputs(String),
    /// The target's thunk, named here, takes under the source's name the
    /// value stored under the source's reference; where nothing is stored
    /// there, the walk stops.
    ForwardReferenced(String, u64),
    /// The target's thunk, named here, takes the source's value under the
    /// source's name.
    ForwardValue(String),
    /// The walk stops at this link.
    Stop,
    /// The link changes nothing.
    Keep,
}

/// Mathematical form of a [`LinkStep`].
pub enum LinkStepView {
    ShareReference(u64),
    TakeFirstReturn,
    TakeReference,
    ForwardOutputs(Seq<char>),
    ForwardReferenced(Seq<char>, u64),
    ForwardValue(Seq<char>),
    Stop,
    Keep,
}

impl View for LinkStep {
    type V = LinkStepView;

    open spec fn view(&self) -> LinkStepView {
        match self {
            LinkStep::ShareReference(r) => LinkStepView::ShareReference(*r),
            LinkStep::TakeFirstReturn => LinkStepView::TakeFirstReturn,
            LinkStep::TakeReference => LinkStepView::TakeReference,
            LinkStep::ForwardOutputs(t) => LinkStepView::ForwardOutputs(t@),
            LinkStep::ForwardReferenced(t, r) => LinkStepView::ForwardReferenced(t@, *r),
            LinkStep::ForwardValue(t) => LinkStepView::ForwardValue(t@),
            LinkStep::Stop => LinkStepView::Stop,
            LinkStep::Keep => LinkStepView::Keep,
        }
    }
}

/// The prefix of a symbol that names a thunk.
pub open spec fn thunk_prefix() -> Seq<char> {
    seq!['t', 'h', 'u', 'n', 'k', ':', ':']
}

/// The thunk that a symbol names, where the symbol names one with the thunk
/// prefix and the graph knows a thunk of that name.
pub open spec fn known_thunk(symbol: Seq<char>, thunks: Seq<Seq<char>>) -> Option<Seq<char>> {
    if thunk_prefix().is_prefix_of(symbol) && thunks.contains(symbol.skip(7)) {
        Some(symbol.skip(7))
    } else {
        None
    }
}

/// The step of a link from a node whose value is `from` to a node whose value
/// is `to`; `has_values` tells whether the source's node holds values of its
/// own, and `thunks` are the names of the thunks the graph knows. The first
/// rule that fits decides:
/// a reference source shares it with a reference or empty target; a symbol
/// source hands an empty target its first returned value; an empty source
/// stops at a symbol target; any other source gives an empty target a
/// reference to its value; a symbol target that names a known thunk takes a
/// symbol source's outputs (stopping where that node holds no values), the
/// value behind a reference source, or the value of any other source; and
/// nothing else changes anything.
pub open spec fn link_step_of(from: ValueView, to: ValueView, has_values: bool, thunks: Seq<Seq<char>>) -> LinkStepView {
    match (from, to) {
        (ValueView::Reference(f), ValueView::Reference(_)) => LinkStepView::ShareReference(f),
        (ValueView::Reference(f), ValueView::Empty) => LinkStepView::ShareReference(f),
        (ValueView::Symbol(_), ValueView::Empty) => {
            if has_values { LinkStepView::TakeFirstReturn } else { LinkStepView::Keep }
        },
        (ValueView::Empty, ValueView::Symbol(_)) => LinkStepView::Stop,
        (_, ValueView::Empty) => LinkStepView::TakeReference,
        (_, ValueView::Symbol(s)) => match known_thunk(s, thunks) {
            None => LinkStepView::Keep,
            Some(t) => match from {
                ValueView::Symbol(_) => {
                    if has_values { LinkStepView::ForwardOutputs(t) } else { LinkStepView::Stop }
                },
                ValueView::Reference(r) => LinkStepView::ForwardReferenced(t, r),
                _ => LinkStepView::ForwardValue(t),
            },
        },
        _ => LinkStepView::Keep,
    }
}

/// Whether `name` is one of `names`.
fn contains_text(names: &Vec<String>, name: &str) -> (r: bool)
    ensures
        r == strings_view(names@).contains(name@),
{
    let mut i: usize = 0;
    while i < names.len()
        invariant
            i <= names@.len(),
            forall|j: int| 0 <= j < i ==> strings_view(names@)[j] != name@,
        decreases names@.len() - i,
    {
        if same_text(names[i].as_str(), name) {
            assert(strings_view(names@)[i as int] == name@);
            return true;
        }
        i = i + 1;
    }
    proof {
        if strings_view(names@).contains(name@) {
            let j = choose|j: int| 0 <= j < strings_view(names@).len() && strings_view(names@)[j] == name@;
            assert(strings_view(names@)[j] == name@);
        }
    }
    false
}

/// The thunk that `symbol` names, where it names one that the graph knows.
fn find_thunk(symbol: &str, thunks: &Vec<String>) -> (r: Option<String>)
    ensures
        r is Some <==> known_thunk(symbol@, strings_view(thunks@)) is Some,
        r matches Some(t) ==> known_thunk(symbol@, strings_view(thunks@)) == Some(t@),
{
    let prefix = "thunk::";
    proof {
        reveal_strlit("thunk::");
        assert(prefix@ == thunk_prefix());
    }
    match strip_prefix(symbol, prefix) {
        None => None,
        Some(name) => {
            if contains_text(thunks, name.as_str()) {
                Some(name)
            } else {
                None
            }
        },
    }
}

/// Decides what the link from a node whose value is `from` to a node whose
/// value is `to` does (see [`link_step_of`]).
pub fn link_step(from: &Value, to: &Value, has_values: bool, thunks: &Vec<String>) -> (r: LinkStep)
    ensures
        r@ == link_step_of(from@, to@, has_values, strings_view(thunks@)),
{
    match (from, to) {
        (Value::Reference(f), Value::Reference(_)) => LinkStep::ShareReference(*f),
        (Value::Reference(f), Value::Empty) => LinkStep::ShareReference(*f),
        (Value::Symbol(_), Value::Empty) => {
            if has_values { LinkStep::TakeFirstReturn } else { LinkStep::Keep }
        },
        (Value::Empty, Value::Symbol(_)) => LinkStep::Stop,
        (_, Value::Empty) => LinkStep::TakeReference,
        (_, Value::Symbol(s)) => match find_thunk(s.as_str(), thunks) {
            None => LinkStep::Keep,
            Some(t) => match from {
                Value::Symbol(_) => {
                    if has_values { LinkStep::ForwardOutputs(t) } else { LinkStep::Stop }
                },
                Value::Reference(r) => LinkStep::ForwardReferenced(t, *r),
                _ => LinkStep::ForwardValue(t),
            },
        },
        _ => LinkStep::Keep,
    }
}

// ------------------------------------------------------------------------
// The graph of nodes
// ------------------------------------------------------------------------

/// A node of the graph: its title, the attribute it shows, the reference its
/// value is stored under, the values its thunk was given and gave out, what
/// its thunk returned (each with the reference it is stored under), and the
/// name of that thunk.
pub struct GraphNode {
    pub title: String,
    pub attribute: Attribute,
    pub reference: u64,
    pub values: Option<AttributeGraph>,
    pub returned: Vec<(u64, Attribute)>,
    pub thunk: Option<String>,
}

pub struct GraphNodeView {
    pub title: Seq<char>,
    pub attribute: AttributeView,
    pub reference: u64,
    pub values: Option<GraphView>,
    pub returned: Seq<(u64, AttributeView)>,
    pub thunk: Option<Seq<char>>,
}

pub open spec fn returns_view(v: Seq<(u64, Attribute)>) -> Seq<(u64, AttributeView)> {
    v.map_values(|p: (u64, Attribute)| (p.0, p.1@))
}

impl View for GraphNode {
    type V = GraphNodeView;

    open spec fn view(&self) -> GraphNodeView {
        GraphNodeView {
            title: self.title@,
            attribute: self.attribute@,
            reference: self.reference,
            values: match self.values { Some(g) => Some(g@), None => None },
            returned: returns_view(self.returned@),
            thunk: match self.thunk { Some(t) => Some(t@), None => None },
        }
    }
}

/// The node graph of an editor: its nodes by node id, its links by link id
/// (each from one node to another), and the values that references point to.
pub struct NodeGraph {
    nodes: Vec<(i32, GraphNode)>,
    links: Vec<(u32, (i32, i32))>,
    values: Vec<(u64, Value)>,
}

pub struct NodeGraphView {
    pub nodes: Seq<(i32, GraphNodeView)>,
    pub links: Seq<(u32, (i32, i32))>,
    pub values: Seq<(u64, ValueView)>,
}

pub open spec fn nodes_view(v: Seq<(i32, GraphNode)>) -> Seq<(i32, GraphNodeView)> {
    v.map_values(|p: (i32, GraphNode)| (p.0, p.1@))
}

pub open spec fn stored_view(v: Seq<(u64, Value)>) -> Seq<(u64, ValueView)> {
    v.map_values(|p: (u64, Value)| (p.0, p.1@))
}

impl View for NodeGraph {
    type V = NodeGraphView;

    closed spec fn view(&self) -> NodeGraphView {
        NodeGraphView { nodes: nodes_view(self.nodes@), links: self.links@, values: stored_view(self.values@) }
    }
}

/// `n` showing the value `v`.
pub open spec fn with_value(n: GraphNodeView, v: ValueView) -> GraphNodeView {
    GraphNodeView { attribute: AttributeView { value: v, ..n.attribute }, ..n }
}

/// `n` with the values of its thunk cleared.
pub open spec fn cleared(n: GraphNodeView) -> GraphNodeView {
    GraphNodeView {
        values: match n.values {
            Some(g) => Some(GraphView { entity: g.entity, attributes: Seq::empty() }),
            None => None,
        },
        ..n
    }
}

/// `n` after its thunk `thunk` is given the input `value` named `name`.
pub open spec fn fed(n: GraphNodeView, thunk: Seq<char>, name: Seq<char>, value: ValueView) -> GraphNodeView {
    let g = match n.values { Some(g) => g, None => GraphView { entity: 0, attributes: Seq::empty() } };
    GraphNodeView {
        thunk: Some(thunk),
        values: Some(GraphView { entity: g.entity, attributes: upsert(g.attributes, AttributeView { id: g.entity, name, value }) }),
        ..n
    }
}

/// `n` after its thunk `thunk` is given each of `inputs`, in order.
pub open spec fn fed_all(n: GraphNodeView, thunk: Seq<char>, inputs: Seq<AttributeView>) -> GraphNodeView
    decreases inputs.len(),
{
    if inputs.len() == 0 {
        n
    } else {
        let a = inputs.last();
        fed(fed_all(n, thunk, inputs.drop_last()), thunk, a.name, a.value)
    }
}

/// What a node gives out to a thunk that follows it: the outputs its thunk
/// was left with, then what its thunk returned.
pub open spec fn outputs_of(n: GraphNodeView) -> Seq<AttributeView> {
    (match n.values { Some(g) => g.attributes, None => Seq::empty() })
        + n.returned.map_values(|p: (u64, AttributeView)| p.1)
}

/// The node a dropped link pointed to: a reference it held is replaced by the
/// value stored under it when inputs are preserved (kept where none is
/// stored), or emptied; a symbol's thunk values are cleared.
pub open spec fn dropped_target(n: GraphNodeView, preserve: bool, store: Seq<(u64, ValueView)>) -> GraphNodeView {
    match n.attribute.value {
        ValueView::Reference(r) => if preserve {
            match key_lookup(store, r) { Some(v) => with_value(n, v), None => n }
        } else {
            with_value(n, ValueView::Empty)
        },
        ValueView::Symbol(_) => cleared(n),
        _ => n,
    }
}

/// The node a dropped link started from: a reference is emptied, a symbol's
/// thunk values are cleared.
pub open spec fn dropped_source(n: GraphNodeView) -> GraphNodeView {
    match n.attribute.value {
        ValueView::Reference(_) => with_value(n, ValueView::Empty),
        ValueView::Symbol(_) => cleared(n),
        _ => n,
    }
}

/// `nodes` with the node `id` replaced by `n`, where there is such a node.
pub open spec fn replaced(nodes: Seq<(i32, GraphNodeView)>, id: i32, n: GraphNodeView) -> Seq<(i32, GraphNodeView)> {
    if has_key(nodes, id) { nodes.update(key_position(nodes, id), (id, n)) } else { nodes }
}

/// The nodes after the link from `from` to `to` is dropped: the target first,
/// then the source as the target's change left it.
pub open spec fn after_drop(nodes: Seq<(i32, GraphNodeView)>, from: i32, to: i32, preserve: bool, store: Seq<(u64, ValueView)>)
    -> Seq<(i32, GraphNodeView)>
{
    let n1 = match key_lookup(nodes, to) { Some(t) => replaced(nodes, to, dropped_target(t, preserve, store)), None => nodes };
    match key_lookup(n1, from) { Some(f) => replaced(n1, from, dropped_source(f)), None => n1 }
}

/// Some link already goes from `from` to `to`.
pub open spec fn linked(links: Seq<(u32, (i32, i32))>, from: i32, to: i32) -> bool {
    exists|i: int| 0 <= i < links.len() && links[i].1 == (from, to)
}

/// The node a link points to after the link is followed with the step
/// `step`: a shared reference; a reference to the source's value (the one the
/// source is stored under); a reference to the first value the source's thunk
/// returned (none is taken when it returned nothing); every output and
/// returned value of the source given to the target's thunk; or one input
/// given to it (for a reference, where a value is stored under it).
pub open spec fn visited_target(step: LinkStepView, source: GraphNodeView, target: GraphNodeView, store: Seq<(u64, ValueView)>) -> GraphNodeView {
    match step {
        LinkStepView::ShareReference(r) => with_value(target, ValueView::Reference(r)),
        LinkStepView::TakeReference => with_value(target, ValueView::Reference(source.reference)),
        LinkStepView::TakeFirstReturn => if source.returned.len() > 0 {
            with_value(target, ValueView::Reference(source.returned[0].0))
        } else {
            target
        },
        LinkStepView::ForwardOutputs(t) => fed_all(target, t, outputs_of(source)),
        LinkStepView::ForwardReferenced(t, r) => match key_lookup(store, r) {
            Some(v) => fed(target, t, source.attribute.name, v),
            None => target,
        },
        LinkStepView::ForwardValue(t) => fed(target, t, source.attribute.name, source.attribute.value),
        _ => target,
    }
}

/// `n`, shown with no value when it shows a reference under which nothing is stored.
pub open spec fn undangled(n: GraphNodeView, store: Seq<(u64, ValueView)>) -> GraphNodeView {
    match n.attribute.value {
        ValueView::Reference(r) => if key_lookup(store, r) is None { with_value(n, ValueView::Empty) } else { n },
        _ => n,
    }
}

/// `store` after each returned value is stored under its reference, in order.
pub open spec fn stored_all(store: Seq<(u64, ValueView)>, returned: Seq<(u64, AttributeView)>) -> Seq<(u64, ValueView)>
    decreases returned.len(),
{
    if returned.len() == 0 {
        store
    } else {
        key_upsert(stored_all(store, returned.drop_last()), returned.last().0, returned.last().1.value)
    }
}

/// Whether the walk goes on past a link followed with the step `step`: not
/// when it stops, nor when nothing is stored under a forwarded reference.
pub open spec fn walk_goes_on(step: LinkStepView, store: Seq<(u64, ValueView)>) -> bool {
    match step {
        LinkStepView::Stop => false,
        LinkStepView::ForwardReferenced(_, r) => key_lookup(store, r) is Some,
        _ => true,
    }
}

fn copy_returns(v: &Vec<(u64, Attribute)>) -> (r: Vec<(u64, Attribute)>)
    ensures
        returns_view(r@) == returns_view(v@),
{
    let mut r: Vec<(u64, Attribute)> = Vec::new();
    let mut i: usize = 0;
    while i < v.len()
        invariant
            i <= v@.len(),
            returns_view(r@) =~= returns_view(v@).subrange(0, i as int),
        decreases v@.len() - i,
    {
        let ghost before = r@;
        r.push((v[i].0, v[i].1.duplicate()));
        assert(returns_view(r@) =~= returns_view(before).push(returns_view(v@)[i as int]));
        i = i + 1;
    }
    r
}

/// The outputs and returned values of a node, as attributes.
fn outputs_list(n: &GraphNode) -> (r: Vec<Attribute>)
    ensures
        crate::attributes::attributes_view(r@) == outputs_of(n@),
{
    let mut r: Vec<Attribute> = Vec::new();
    match &n.values {
        Some(g) => {
            let attrs = g.attributes();
            let mut i: usize = 0;
            while i < attrs.len()
                invariant
                    i <= attrs@.len(),
                    crate::attributes::attributes_view(attrs@) == g@.attributes,
                    crate::attributes::attributes_view(r@) =~= g@.attributes.subrange(0, i as int),
                decreases attrs@.len() - i,
            {
                let ghost before = r@;
                r.push(attrs[i].duplicate());
                assert(crate::attributes::attributes_view(r@) =~= crate::attributes::attributes_view(before).push(attrs@[i as int]@));
                i = i + 1;
            }
        },
        None => {},
    }
    let ghost outs = crate::attributes::attributes_view(r@);
    let ghost rets = returns_view(n.returned@).map_values(|p: (u64, AttributeView)| p.1);
    assert(outs =~= (match n@.values { Some(g) => g.attributes, None => Seq::<AttributeView>::empty() }));
    let mut j: usize = 0;
    while j < n.returned.len()
        invariant
            j <= n.returned@.len(),
            crate::attributes::attributes_view(r@) =~= outs + rets.subrange(0, j as int),
            rets == returns_view(n.returned@).map_values(|p: (u64, AttributeView)| p.1),
        decreases n.returned@.len() - j,
    {
        let ghost before = r@;
        r.push(n.returned[j].1.duplicate());
        assert(crate::attributes::attributes_view(r@) =~= crate::attributes::attributes_view(before).push(n.returned@[j as int].1@));
        assert(rets.subrange(0, j + 1 as int) =~= rets.subrange(0, j as int).push(rets[j as int]));
        j = j + 1;
    }
    assert(rets.subrange(0, j as int) =~= rets);
    r
}

impl GraphNode {
    /// Returns a copy of this node.
    pub fn duplicate(&self) -> (n: GraphNode)
        ensures
            n@ == self@,
    {
        GraphNode {
            title: self.title.clone(),
            attribute: self.attribute.duplicate(),
            reference: self.reference,
            values: match &self.values { Some(g) => Some(g.duplicate()), None => None },
            returned: copy_returns(&self.returned),
            thunk: match &self.thunk { Some(t) => Some(t.clone()), None => None },
        }
    }

    fn feed_all(&mut self, thunk: &String, inputs: &Vec<Attribute>)
        ensures
            final(self)@ == fed_all(old(self)@, thunk@, crate::attributes::attributes_view(inputs@)),
    {
        let ghost av = crate::attributes::attributes_view(inputs@);
        let ghost start = self@;
        let mut i: usize = 0;
        while i < inputs.len()
            invariant
                i <= inputs@.len(),
                av == crate::attributes::attributes_view(inputs@),
                self@ == fed_all(start, thunk@, av.subrange(0, i as int)),
            decreases inputs@.len() - i,
        {
            self.feed(thunk.clone(), inputs[i].name.clone(), inputs[i].value.duplicate());
            assert(av.subrange(0, i + 1 as int).drop_last() =~= av.subrange(0, i as int));
            assert(av.subrange(0, i + 1 as int).last() == inputs@[i as int]@);
            i = i + 1;
        }
        assert(av.subrange(0, i as int) =~= av);
    }

    fn set_value(&mut self, v: Value)
        ensures
            final(self)@ == with_value(old(self)@, v@),
    {
        self.attribute.value = v;
    }

    fn clear_values(&mut self)
        ensures
            final(self)@ == cleared(old(self)@),
    {
        let cleared_values = match &self.values {
            Some(g) => Some(AttributeGraph::new(g.entity_id())),
            None => None,
        };
        self.values = cleared_values;
    }

    fn feed(&mut self, thunk: String, name: String, value: Value)
        ensures
            final(self)@ == fed(old(self)@, thunk@, name@, value@),
    {
        let mut g = match &self.values {
            Some(g) => g.duplicate(),
            None => AttributeGraph::new(0),
        };
        g.with(name, value);
        self.values = Some(g);
        self.thunk = Some(thunk);
    }
}

impl NodeGraph {
    /// A graph with no nodes, links or stored values.
    pub fn new() -> (g: NodeGraph)
        ensures
            g@.nodes == Seq::<(i32, GraphNodeView)>::empty(),
            g@.links == Seq::<(u32, (i32, i32))>::empty(),
            g@.values == Seq::<(u64, ValueView)>::empty(),
    {
        let g = NodeGraph { nodes: Vec::new(), links: Vec::new(), values: Vec::new() };
        assert(g@.nodes =~= Seq::<(i32, GraphNodeView)>::empty());
        assert(g@.values =~= Seq::<(u64, ValueView)>::empty());
        g
    }

    /// Adds a node with the id `id`, showing `attribute`; its value is stored
    /// under the reference `reference`. An empty title is taken from the
    /// attribute's name.
    pub fn add_node(&mut self, id: i32, title: String, attribute: Attribute, reference: u64)
        ensures
            final(self)@.nodes == old(self)@.nodes.push((id, GraphNodeView {
                title: if title@.len() == 0 { attribute@.name } else { title@ },
                attribute: attribute@,
                reference,
                values: None,
                returned: Seq::empty(),
                thunk: None,
            })),
            final(self)@.links == old(self)@.links,
            final(self)@.values == key_upsert(old(self)@.values, reference, attribute@.value),
    {
        let stored = attribute.value.duplicate();
        let title = if title.unicode_len() == 0 { attribute.name.clone() } else { title };
        let ghost before = self.nodes@;
        let returned: Vec<(u64, Attribute)> = Vec::new();
        assert(returns_view(returned@) =~= Seq::<(u64, AttributeView)>::empty());
        self.nodes.push((id, GraphNode { title, attribute, reference, values: None, returned, thunk: None }));
        assert(nodes_view(self.nodes@) =~= nodes_view(before).push((id, self.nodes@.last().1@)));
        self.store(reference, stored);
    }

    fn store(&mut self, reference: u64, v: Value)
        ensures
            final(self)@.values == key_upsert(old(self)@.values, reference, v@),
            final(self)@.nodes == old(self)@.nodes,
            final(self)@.links == old(self)@.links,
    {
        let ghost sv = self@.values;
        proof {
            lemma_key_position(sv, reference);
        }
        let mut i: usize = 0;
        while i < self.values.len()
            invariant
                i <= self.values@.len(),
                sv == stored_view(self.values@),
                sv == old(self)@.values,
                self.nodes == old(self).nodes,
                self.links == old(self).links,
                forall|j: int| 0 <= j < i ==> #[trigger] sv[j].0 != reference,
            decreases self.values@.len() - i,
        {
            if self.values[i].0 == reference {
                assert(first_key(sv, reference, i as int));
                let ghost vv = v@;
                self.values.set(i, (reference, v));
                assert(stored_view(self.values@) =~= sv.update(i as int, (reference, vv)));
                return;
            }
            i = i + 1;
        }
        let ghost vv = v@;
        self.values.push((reference, v));
        assert(stored_view(self.values@) =~= sv.push((reference, vv)));
    }

    fn node_position(&self, id: i32) -> (r: Option<usize>)
        ensures
            r is Some <==> has_key(self@.nodes, id),
            r matches Some(i) ==> i as int == key_position(self@.nodes, id) && i < self.nodes@.len(),
    {
        let ghost ns = self@.nodes;
        proof {
            lemma_key_position(ns, id);
        }
        let mut i: usize = 0;
        while i < self.nodes.len()
            invariant
                i <= self.nodes@.len(),
                ns == nodes_view(self.nodes@),
                forall|j: int| 0 <= j < i ==> #[trigger] ns[j].0 != id,
            decreases self.nodes@.len() - i,
        {
            if self.nodes[i].0 == id {
                assert(first_key(ns, id, i as int));
                return Some(i);
            }
            i = i + 1;
        }
        None
    }

    /// The node with the id `id`.
    pub fn find_node(&self, id: i32) -> (r: Option<&GraphNode>)
        ensures
            r matches Some(n) ==> key_lookup(self@.nodes, id) == Some(n@),
            r is None ==> key_lookup(self@.nodes, id) is None,
    {
        proof {
            lemma_key_position(self@.nodes, id);
        }
        match self.node_position(id) {
            Some(p) => Some(&self.nodes[p].1),
            None => None,
        }
    }

    fn replace_node(&mut self, p: usize, n: GraphNode)
        requires
            p < old(self).nodes@.len(),
        ensures
            final(self)@.nodes == old(self)@.nodes.update(p as int, (old(self)@.nodes[p as int].0, n@)),
            final(self)@.links == old(self)@.links,
            final(self)@.values == old(self)@.values,
    {
        let id = self.nodes[p].0;
        let ghost ns = self@.nodes;
        let ghost nv = n@;
        self.nodes.set(p, (id, n));
        assert(nodes_view(self.nodes@) =~= ns.update(p as int, (id, nv)));
    }

    /// Adds the link `link` from `from` to `to`, unless such a link is already
    /// there; tells whether it was added.
    pub fn add_link(&mut self, link: u32, from: i32, to: i32) -> (added: bool)
        ensures
            added == !linked(old(self)@.links, from, to),
            added ==> final(self)@.links == key_upsert(old(self)@.links, link, (from, to)),
            !added ==> final(self)@.links == old(self)@.links,
            final(self)@.nodes == old(self)@.nodes,
            final(self)@.values == old(self)@.values,
    {
        let ghost ls = self@.links;
        let mut i: usize = 0;
        while i < self.links.len()
            invariant
                i <= self.links@.len(),
                ls == self.links@,
                ls == old(self)@.links,
                self.nodes == old(self).nodes,
                self.values == old(self).values,
                forall|j: int| 0 <= j < i ==> #[trigger] ls[j].1 != (from, to),
            decreases self.links@.len() - i,
        {
            if self.links[i].1.0 == from && self.links[i].1.1 == to {
                assert(ls[i as int].1 == (from, to));
                return false;
            }
            i = i + 1;
        }
        proof {
            lemma_key_position(ls, link);
            assert(!linked(ls, from, to)) by {
                if linked(ls, from, to) {
                    let j = choose|j: int| 0 <= j < ls.len() && ls[j].1 == (from, to);
                    assert(ls[j].1 != (from, to));
                }
            }
        }
        let mut k: usize = 0;
        while k < self.links.len()
            invariant
                k <= self.links@.len(),
                ls == self.links@,
                ls == old(self)@.links,
                self.nodes == old(self).nodes,
                self.values == old(self).values,
                !linked(ls, from, to),
                forall|j: int| 0 <= j < k ==> #[trigger] ls[j].0 != link,
            decreases self.links@.len() - k,
        {
            if self.links[k].0 == link {
                assert(first_key(ls, link, k as int));
                self.links.set(k, (link, (from, to)));
                assert(self.links@ =~= key_upsert(ls, link, (from, to)));
                return true;
            }
            k = k + 1;
        }
        self.links.push((link, (from, to)));
        assert(self.links@ =~= key_upsert(ls, link, (from, to)));
        true
    }

    /// Drops the link `link`: the node it pointed to, then the node it
    /// started from, let go of what the link gave them (see
    /// [`dropped_target`] and [`dropped_source`]), and the link goes.
    /// `preserve` tells whether a target keeps the value its reference pointed
    /// to. Tells whether there was such a link.
    pub fn drop_link(&mut self, link: u32, preserve: bool) -> (dropped: bool)
        ensures
            dropped == has_key(old(self)@.links, link),
            final(self)@.values == old(self)@.values,
            final(self)@.links == key_remove(old(self)@.links, link),
            match key_lookup(old(self)@.links, link) {
                Some((from, to)) => final(self)@.nodes == after_drop(old(self)@.nodes, from, to, preserve, old(self)@.values),
                None => final(self)@.nodes == old(self)@.nodes,
            },
    {
        let ghost ls = self@.links;
        proof {
            lemma_key_position(ls, link);
        }
        let mut i: usize = 0;
        while i < self.links.len()
            invariant
                i <= self.links@.len(),
                ls == self.links@,
                ls == old(self)@.links,
                self.nodes == old(self).nodes,
                self.values == old(self).values,
                forall|j: int| 0 <= j < i ==> #[trigger] ls[j].0 != link,
            decreases self.links@.len() - i,
        {
            if self.links[i].0 == link {
                assert(first_key(ls, link, i as int));
                let (from, to) = self.links[i].1;
                let ghost n0 = self@.nodes;
                let ghost store = self@.values;
                proof {
                    lemma_key_position(n0, to);
                }
                match self.node_position(to) {
                    Some(p) => {
                        let mut n = self.nodes[p].1.duplicate();
                        match &self.nodes[p].1.attribute.value {
                            Value::Reference(r) => {
                                if preserve {
                                    match self.lookup_value(*r) {
                                        Some(v) => n.set_value(v),
                                        None => {},
                                    }
                                } else {
                                    n.set_value(Value::Empty);
                                }
                            },
                            Value::Symbol(_) => n.clear_values(),
                            _ => {},
                        }
                        self.replace_node(p, n);
                    },
                    None => {},
                }
                let ghost n1 = self@.nodes;
                assert(n1 == match key_lookup(n0, to) {
                    Some(t) => replaced(n0, to, dropped_target(t, preserve, store)),
                    None => n0,
                });
                proof {
                    lemma_key_position(n1, from);
                }
                match self.node_position(from) {
                    Some(p) => {
                        let mut n = self.nodes[p].1.duplicate();
                        match &self.nodes[p].1.attribute.value {
                            Value::Reference(_) => n.set_value(Value::Empty),
                            Value::Symbol(_) => n.clear_values(),
                            _ => {},
                        }
                        self.replace_node(p, n);
                    },
                    None => {},
                }
                self.links.remove(i);
                assert(self.links@ =~= key_remove(ls, link));
                return true;
            }
            i = i + 1;
        }
        assert(key_remove(ls, link) == ls);
        false
    }

    fn lookup_value(&self, reference: u64) -> (r: Option<Value>)
        ensures
            r matches Some(v) ==> key_lookup(self@.values, reference) == Some(v@),
            r is None ==> key_lookup(self@.values, reference) is None,
    {
        let ghost sv = self@.values;
        proof {
            lemma_key_position(sv, reference);
        }
        let mut i: usize = 0;
        while i < self.values.len()
            invariant
                i <= self.values@.len(),
                sv == stored_view(self.values@),
                forall|j: int| 0 <= j < i ==> #[trigger] sv[j].0 != reference,
            decreases self.values@.len() - i,
        {
            if self.values[i].0 == reference {
                assert(first_key(sv, reference, i as int));
                return Some(self.values[i].1.duplicate());
            }
            i = i + 1;
        }
        None
    }

    /// Every node that shows a reference under which nothing is stored is
    /// reset to show no value.
    pub fn reset_dangling(&mut self)
        ensures
            final(self)@.links == old(self)@.links,
            final(self)@.values == old(self)@.values,
            final(self)@.nodes == old(self)@.nodes.map_values(|p: (i32, GraphNodeView)| (p.0, undangled(p.1, old(self)@.values))),
    {
        let ghost n0 = self@.nodes;
        let mut i: usize = 0;
        while i < self.nodes.len()
            invariant
                i <= self.nodes@.len(),
                n0.len() == self.nodes@.len(),
                self@.links == old(self)@.links,
                self@.values == old(self)@.values,
                n0 == old(self)@.nodes,
                forall|j: int| 0 <= j < i ==> #[trigger] self@.nodes[j] == (n0[j].0, undangled(n0[j].1, old(self)@.values)),
                forall|j: int| i <= j < n0.len() ==> #[trigger] self@.nodes[j] == n0[j],
            decreases self.nodes@.len() - i,
        {
            let mut n = self.nodes[i].1.duplicate();
            let dangling = match &self.nodes[i].1.attribute.value {
                Value::Reference(r) => self.lookup_value(*r).is_none(),
                _ => false,
            };
            if dangling {
                n.set_value(Value::Empty);
            }
            let ghost before = self@.nodes;
            self.replace_node(i, n);
            assert(self@.nodes == before.update(i as int, (n0[i as int].0, undangled(n0[i as int].1, old(self)@.values))));
            i = i + 1;
        }
        assert(self@.nodes =~= n0.map_values(|p: (i32, GraphNodeView)| (p.0, undangled(p.1, old(self)@.values))));
    }

    /// Records what the thunk of the node `id` returned, each value with the
    /// reference it is stored under, and stores those values. Tells whether
    /// there is such a node.
    pub fn record_returns(&mut self, id: i32, returned: Vec<(u64, Attribute)>) -> (found: bool)
        ensures
            found == has_key(old(self)@.nodes, id),
            final(self)@.links == old(self)@.links,
            found ==> final(self)@.nodes == replaced(old(self)@.nodes, id,
                GraphNodeView { returned: returns_view(returned@), ..key_lookup(old(self)@.nodes, id).unwrap() }),
            found ==> final(self)@.values == stored_all(old(self)@.values, returns_view(returned@)),
            !found ==> final(self)@ == old(self)@,
    {
        proof {
            lemma_key_position(self@.nodes, id);
        }
        match self.node_position(id) {
            None => false,
            Some(p) => {
                let ghost rv = returns_view(returned@);
                let ghost v0 = self@.values;
                let mut i: usize = 0;
                while i < returned.len()
                    invariant
                        i <= returned@.len(),
                        rv == returns_view(returned@),
                        self@.nodes == old(self)@.nodes,
                        self@.links == old(self)@.links,
                        self@.values == stored_all(v0, rv.subrange(0, i as int)),
                        v0 == old(self)@.values,
                        p < self.nodes@.len(),
                        p as int == key_position(old(self)@.nodes, id),
                    decreases returned@.len() - i,
                {
                    self.store(returned[i].0, returned[i].1.value.duplicate());
                    assert(rv.subrange(0, i + 1 as int).drop_last() =~= rv.subrange(0, i as int));
                    assert(rv.subrange(0, i + 1 as int).last() == rv[i as int]);
                    i = i + 1;
                }
                assert(rv.subrange(0, i as int) =~= rv);
                let mut n = self.nodes[p].1.duplicate();
                n.returned = returned;
                self.replace_node(p, n);
                true
            },
        }
    }

    /// Follows the link from `from` to `to` in a walk of the graph: decides
    /// its step with [`link_step`] and carries it out on the target (see
    /// [`visited_target`]); the source is left as it was. Returns whether the
    /// walk goes on, and the step decided, which is none when one of the two
    /// nodes is missing.
    pub fn visit(&mut self, from: i32, to: i32, thunks: &Vec<String>) -> (r: (bool, Option<LinkStep>))
        ensures
            final(self)@.links == old(self)@.links,
            final(self)@.values == old(self)@.values,
            match (key_lookup(old(self)@.nodes, from), key_lookup(old(self)@.nodes, to)) {
                (Some(s), Some(t)) => {
                    let step = link_step_of(s.attribute.value, t.attribute.value, s.values is Some, strings_view(thunks@));
                    &&& r.1 matches Some(st) && st@ == step
                    &&& r.0 == walk_goes_on(step, old(self)@.values)
                    &&& final(self)@.nodes == replaced(old(self)@.nodes, to, visited_target(step, s, t, old(self)@.values))
                },
                _ => r == (true, None::<LinkStep>) && final(self)@.nodes == old(self)@.nodes,
            },
    {
        let ghost n0 = self@.nodes;
        let ghost store = self@.values;
        proof {
            lemma_key_position(n0, from);
            lemma_key_position(n0, to);
        }
        let (ps, pt) = match (self.node_position(from), self.node_position(to)) {
            (Some(ps), Some(pt)) => (ps, pt),
            _ => return (true, None),
        };
        let source = self.nodes[ps].1.duplicate();
        let mut target = self.nodes[pt].1.duplicate();
        let step = link_step(&source.attribute.value, &target.attribute.value, source.values.is_some(), thunks);
        let go_on = match &step {
            LinkStep::ShareReference(r) => {
                target.set_value(Value::Reference(*r));
                true
            },
            LinkStep::TakeReference => {
                target.set_value(Value::Reference(source.reference));
                true
            },
            LinkStep::TakeFirstReturn => {
                if source.returned.len() > 0 {
                    target.set_value(Value::Reference(source.returned[0].0));
                }
                true
            },
            LinkStep::ForwardOutputs(t) => {
                let outs = outputs_list(&source);
                target.feed_all(t, &outs);
                true
            },
            LinkStep::ForwardReferenced(t, r) => match self.lookup_value(*r) {
                Some(v) => {
                    target.feed(t.clone(), source.attribute.name.clone(), v);
                    true
                },
                None => false,
            },
            LinkStep::ForwardValue(t) => {
                target.feed(t.clone(), source.attribute.name.clone(), source.attribute.value.duplicate());
                true
            },
            LinkStep::Stop => false,
            _ => true,
        };
        self.replace_node(pt, target);
        (go_on, Some(step))
    }
}

proof fn lemma_replaced_lookup(nodes: Seq<(i32, GraphNodeView)>, id: i32, n: GraphNodeView, other: i32)
    ensures
        has_key(nodes, id) ==> key_lookup(replaced(nodes, id, n), id) == Some(n),
        other != id ==> key_lookup(replaced(nodes, id, n), other) == key_lookup(nodes, other),
        has_key(replaced(nodes, id, n), other) == has_key(nodes, other),
{
    lemma_key_position(nodes, id);
    lemma_key_position(nodes, other);
    let r = replaced(nodes, id, n);
    lemma_key_position(r, id);
    lemma_key_position(r, other);
    if has_key(nodes, id) {
        let p = key_position(nodes, id);
        assert(first_key(r, id, p));
        if has_key(nodes, other) {
            let q = key_position(nodes, other);
            if other != id {
                assert(first_key(r, other, q));
            }
        } else if has_key(r, other) {
            let i = choose|i: int| 0 <= i < r.len() && r[i].0 == other;
            assert(nodes[i].0 == other);
        }
        if has_key(nodes, other) {
            let q = key_position(nodes, other);
            assert(r[q].0 == other);
        }
    }
}

/// Dropping a link lets the node it pointed to go of what the link fed its
/// thunk: when that node shows a symbol, it still shows it, and its thunk's
/// values, where it has any, hold no attributes afterwards.
pub proof fn law_drop_clears_symbol_target(nodes: Seq<(i32, GraphNodeView)>, from: i32, to: i32, preserve: bool, store: Seq<(u64, ValueView)>)
    requires
        key_lookup(nodes, to) matches Some(t) && t.attribute.value is Symbol,
    ensures
        key_lookup(after_drop(nodes, from, to, preserve, store), to) matches Some(n)
            && n.attribute == key_lookup(nodes, to).unwrap().attribute
            && (n.values matches Some(g) ==> g.attributes.len() == 0),
{
    let t = key_lookup(nodes, to).unwrap();
    lemma_key_position(nodes, to);
    let dt = dropped_target(t, preserve, store);
    assert(dt == cleared(t));
    let n1 = replaced(nodes, to, dt);
    lemma_replaced_lookup(nodes, to, dt, from);
    assert(key_lookup(n1, to) == Some(dt));
    if from == to {
        let ds = dropped_source(dt);
        assert(ds == cleared(dt));
        lemma_key_position(n1, to);
        lemma_replaced_lookup(n1, to, ds, to);
    } else {
        match key_lookup(n1, from) {
            Some(f) => {
                lemma_key_position(n1, from);
                lemma_replaced_lookup(n1, from, dropped_source(f), to);
            },
            None => {},
        }
    }
}

/// Dropping a link releases the references it carried: the node it started
/// from no longer shows a reference, and the node it pointed to, when it
/// showed the reference `r`, shows no value unless inputs are preserved, in
/// which case it shows the value stored under `r` (or keeps `r`, when nothing is).
pub proof fn law_drop_releases_references(nodes: Seq<(i32, GraphNodeView)>, from: i32, to: i32, preserve: bool, store: Seq<(u64, ValueView)>, r: u64)
    requires
        from != to,
    ensures
        (key_lookup(nodes, from) matches Some(f) && f.attribute.value is Reference) ==>
            (key_lookup(after_drop(nodes, from, to, preserve, store), from) matches Some(n)
                && n.attribute.value == ValueView::Empty),
        (key_lookup(nodes, to) matches Some(t) && t.attribute.value == ValueView::Reference(r)) ==>
            (key_lookup(after_drop(nodes, from, to, preserve, store), to) matches Some(n)
                && n.attribute.value == (if !preserve { ValueView::Empty } else {
                    match key_lookup(store, r) { Some(v) => v, None => ValueView::Reference(r) }
                })),
{
    lemma_key_position(nodes, to);
    lemma_key_position(nodes, from);
    let n1 = match key_lookup(nodes, to) { Some(t) => replaced(nodes, to, dropped_target(t, preserve, store)), None => nodes };
    match key_lookup(nodes, to) {
        Some(t) => {
            lemma_replaced_lookup(nodes, to, dropped_target(t, preserve, store), from);
        },
        None => {},
    }
    assert(key_lookup(n1, from) == key_lookup(nodes, from));
    match key_lookup(n1, from) {
        Some(f) => {
            lemma_key_position(n1, from);
            lemma_replaced_lookup(n1, from, dropped_source(f), to);
            lemma_replaced_lookup(n1, from, dropped_source(f), from);
        },
        None => {},
    }
}

} // verus!
