use vstd::prelude::*;
use crate::text::strings_view;

verus! {

/// Value held by an attribute.
///
/// Floating point values are held by their IEEE-754 bit pattern, so that the
/// library can store and compare them without computing on them.
#[derive(Debug, Clone)]
pub enum Value {
    Empty,
    Bool(bool),
    TextBuffer(String),
    Int(i32),
    IntPair(i32, i32),
    IntRange(i32, i32, i32),
    Float(u32),
    FloatPair(u32, u32),
    FloatRange(u32, u32, u32),
    BinaryVector(Vec<u8>),
    Reference(u64),
    Symbol(String),
    Complex(Vec<String>),
}

/// Mathematical form of a [`Value`].
pub enum ValueView {
    Empty,
    Bool(bool),
    TextBuffer(Seq<char>),
    Int(i32),
    IntPair(i32, i32),
    IntRange(i32, i32, i32),
    Float(u32),
    FloatPair(u32, u32),
    FloatRange(u32, u32, u32),
    BinaryVector(Seq<u8>),
    Reference(u64),
    Symbol(Seq<char>),
    Complex(Seq<Seq<char>>),
}

impl View for Value {
    type V = ValueView;

    open spec fn view(&self) -> ValueView {
        match self {
            Value::Empty => ValueView::Empty,
            Value::Bool(b) => ValueView::Bool(*b),
            Value::TextBuffer(t) => ValueView::TextBuffer(t@),
            Value::Int(i) => ValueView::Int(*i),
            Value::IntPair(a, b) => ValueView::IntPair(*a, *b),
            Value::IntRange(a, b, c) => ValueView::IntRange(*a, *b, *c),
            Value::Float(f) => ValueView::Float(*f),
            Value::FloatPair(a, b) => ValueView::FloatPair(*a, *b),
            Value::FloatRange(a, b, c) => ValueView::FloatRange(*a, *b, *c),
            Value::BinaryVector(v) => ValueView::BinaryVector(v@),
            Value::Reference(r) => ValueView::Reference(*r),
            Value::Symbol(s) => ValueView::Symbol(s@),
            Value::Complex(c) => ValueView::Complex(strings_view(c@)),
        }
    }
}

/// Copies a list of strings, keeping each string's text.
pub fn copy_strings(v: &Vec<String>) -> (r: Vec<String>)
    ensures
        strings_view(r@) == strings_view(v@),
{
    let mut r: Vec<String> = Vec::new();
    let mut i: usize = 0;
    while i < v.len()
        invariant
            i <= v.len(),
            r@.len() == i,
            forall|j: int| 0 <= j < i ==> #[trigger] r@[j]@ == v@[j]@,
        decreases v.len() - i,
    {
        r.push(v[i].clone());
        i = i + 1;
    }
    assert(strings_view(r@) =~= strings_view(v@));
    r
}

impl Value {
    /// Returns a copy of this value.
    pub fn duplicate(&self) -> (v: Value)
        ensures
            v@ == self@,
    {
        match self {
            Value::Empty => Value::Empty,
            Value::Bool(b) => Value::Bool(*b),
            Value::TextBuffer(t) => Value::TextBuffer(t.clone()),
            Value::Int(i) => Value::Int(*i),
            Value::IntPair(a, b) => Value::IntPair(*a, *b),
            Value::IntRange(a, b, c) => Value::IntRange(*a, *b, *c),
            Value::Float(f) => Value::Float(*f),
            Value::FloatPair(a, b) => Value::FloatPair(*a, *b),
            Value::FloatRange(a, b, c) => Value::FloatRange(*a, *b, *c),
            Value::BinaryVector(v) => {
                let c = v.clone();
                assert(c@ =~= v@);
                Value::BinaryVector(c)
            },
            Value::Reference(r) => Value::Reference(*r),
            Value::Symbol(s) => Value::Symbol(s.clone()),
            Value::Complex(c) => Value::Complex(copy_strings(c)),
        }
    }

    /// Returns true if this is the empty value.
    pub fn is_empty(&self) -> (b: bool)
        ensures
            b == (self@ is Empty),
    {
        match self {
            Value::Empty => true,
            _ => false,
        }
    }
}

/// A named value owned by an entity.
#[derive(Debug, Clone)]
pub struct Attribute {
    pub id: u32,
    pub name: String,
    pub value: Value,
}

/// Mathematical form of an [`Attribute`].
pub struct AttributeView {
    pub id: u32,
    pub name: Seq<char>,
    pub value: ValueView,
}

impl View for Attribute {
    type V = AttributeView;

    open spec fn view(&self) -> AttributeView {
        AttributeView { id: self.id, name: self.name@, value: self.value@ }
    }
}

impl Attribute {
    /// Creates an attribute.
    pub fn new(id: u32, name: String, value: Value) -> (a: Attribute)
        ensures
            a@ == (AttributeView { id, name: name@, value: value@ }),
    {
        Attribute { id, name, value }
    }

    /// Returns the id of the entity that owns this attribute.
    pub fn id(&self) -> (id: u32)
        ensures
            id == self.id,
    {
        self.id
    }

    /// Returns the name of this attribute.
    pub fn name(&self) -> (n: &String)
        ensures
            n@ == self.name@,
    {
        &self.name
    }

    /// Returns the value of this attribute.
    pub fn value(&self) -> (v: &Value)
        ensures
            v@ == self.value@,
    {
        &self.value
    }

    /// Returns a copy of this attribute.
    pub fn duplicate(&self) -> (a: Attribute)
        ensures
            a@ == self@,
    {
        Attribute { id: self.id, name: self.name.clone(), value: self.value.duplicate() }
    }
}

/// `i` is the first position in `attrs` of an attribute named `name`.
pub open spec fn first_match(attrs: Seq<AttributeView>, name: Seq<char>, i: int) -> bool {
    &&& 0 <= i < attrs.len()
    &&& attrs[i].name == name
    &&& forall|j: int| 0 <= j < i ==> attrs[j].name != name
}

/// Some attribute of `attrs` is named `name`.
pub open spec fn has_name(attrs: Seq<AttributeView>, name: Seq<char>) -> bool {
    exists|i: int| 0 <= i < attrs.len() && attrs[i].name == name
}

/// Position of the first attribute named `name`, or -1 when there is none.
pub open spec fn position_of(attrs: Seq<AttributeView>, name: Seq<char>) -> int {
    if has_name(attrs, name) {
        choose|i: int| first_match(attrs, name, i)
    } else {
        -1
    }
}

/// The first attribute named `name`, if any.
pub open spec fn lookup(attrs: Seq<AttributeView>, name: Seq<char>) -> Option<AttributeView> {
    if has_name(attrs, name) {
        Some(attrs[position_of(attrs, name)])
    } else {
        None
    }
}

/// `attrs` with `a` in place of the first attribute of the same name, or with
/// `a` appended when no attribute has that name.
pub open spec fn upsert(attrs: Seq<AttributeView>, a: AttributeView) -> Seq<AttributeView> {
    if has_name(attrs, a.name) {
        attrs.update(position_of(attrs, a.name), a)
    } else {
        attrs.push(a)
    }
}

/// Filtering a sequence with one more element at its end.
pub proof fn lemma_filter_push<A>(s: Seq<A>, pred: spec_fn(A) -> bool, e: A)
    ensures
        pred(e) ==> s.push(e).filter(pred) == s.filter(pred).push(e),
        !pred(e) ==> s.push(e).filter(pred) == s.filter(pred),
{
    reveal(Seq::filter);
    assert(s.push(e).drop_last() =~= s);
}

proof fn lemma_first_exists(attrs: Seq<AttributeView>, name: Seq<char>, w: int)
    requires
        0 <= w < attrs.len(),
        attrs[w].name == name,
    ensures
        exists|i: int| first_match(attrs, name, i),
    decreases w,
{
    if forall|j: int| 0 <= j < w ==> attrs[j].name != name {
        assert(first_match(attrs, name, w));
    } else {
        let j = choose|j: int| 0 <= j < w && attrs[j].name == name;
        lemma_first_exists(attrs, name, j);
    }
}

/// A first match exists exactly when some attribute has the name, and it is unique.
pub proof fn lemma_first_match(attrs: Seq<AttributeView>, name: Seq<char>)
    ensures
        has_name(attrs, name) ==> first_match(attrs, name, position_of(attrs, name)),
        forall|i: int| #[trigger] first_match(attrs, name, i) ==> i == position_of(attrs, name),
        !has_name(attrs, name) ==> position_of(attrs, name) == -1,
{
    if has_name(attrs, name) {
        let w = choose|i: int| 0 <= i < attrs.len() && attrs[i].name == name;
        lemma_first_exists(attrs, name, w);
        assert(exists|i: int| first_match(attrs, name, i));
        let p = position_of(attrs, name);
        assert(first_match(attrs, name, p));
        assert forall|i: int| #[trigger] first_match(attrs, name, i) implies i == p by {
            if i < p {
                assert(attrs[i].name != name);
            } else if p < i {
                assert(attrs[p].name != name);
            }
        }
    }
}

/// A set of attributes owned by one entity, found by name.
///
/// When two attributes share a name, lookups find the first one.
#[derive(Debug, Clone)]
pub struct AttributeGraph {
    entity: u32,
    attributes: Vec<Attribute>,
}

/// Mathematical form of an [`AttributeGraph`].
pub struct GraphView {
    pub entity: u32,
    pub attributes: Seq<AttributeView>,
}

pub open spec fn attributes_view(v: Seq<Attribute>) -> Seq<AttributeView> {
    v.map_values(|a: Attribute| a@)
}

/// Viewing a list with one more attribute at its end.
pub proof fn lemma_attributes_view_push(v: Seq<Attribute>, a: Attribute)
    ensures
        attributes_view(v.push(a)) == attributes_view(v).push(a@),
{
    assert(attributes_view(v.push(a)) =~= attributes_view(v).push(a@));
}

impl View for AttributeGraph {
    type V = GraphView;

    closed spec fn view(&self) -> GraphView {
        GraphView { entity: self.entity, attributes: attributes_view(self.attributes@) }
    }
}

impl AttributeGraph {
    /// Creates an empty graph for the entity `entity`.
    pub fn new(entity: u32) -> (g: AttributeGraph)
        ensures
            g@.entity == entity,
            g@.attributes == Seq::<AttributeView>::empty(),
    {
        let g = AttributeGraph { entity, attributes: Vec::new() };
        assert(g@.attributes =~= Seq::<AttributeView>::empty());
        g
    }

    /// Creates a graph for the entity `entity` from attributes, in order.
    pub fn from_attributes(entity: u32, attributes: Vec<Attribute>) -> (g: AttributeGraph)
        ensures
            g@.entity == entity,
            g@.attributes == attributes_view(attributes@),
    {
        AttributeGraph { entity, attributes }
    }

    /// Returns the id of the entity that owns this graph.
    pub fn entity_id(&self) -> (id: u32)
        ensures
            id == self@.entity,
    {
        self.entity
    }

    /// Returns the attributes of this graph, in order.
    pub fn attributes(&self) -> (a: &Vec<Attribute>)
        ensures
            attributes_view(a@) == self@.attributes,
    {
        &self.attributes
    }

    /// Returns the number of attributes.
    pub fn len(&self) -> (n: usize)
        ensures
            n == self@.attributes.len(),
    {
        self.attributes.len()
    }

    /// Returns a copy of this graph.
    pub fn duplicate(&self) -> (g: AttributeGraph)
        ensures
            g@ == self@,
    {
        let mut out: Vec<Attribute> = Vec::new();
        let mut i: usize = 0;
        while i < self.attributes.len()
            invariant
                i <= self.attributes@.len(),
                attributes_view(out@) =~= attributes_view(self.attributes@).subrange(0, i as int),
            decreases self.attributes@.len() - i,
        {
            let d = self.attributes[i].duplicate();
            proof { lemma_attributes_view_push(out@, d); }
            out.push(d);
            assert(attributes_view(out@) =~= attributes_view(self.attributes@).subrange(0, i + 1 as int));
            i = i + 1;
        }
        assert(attributes_view(self.attributes@).subrange(0, i as int) =~= attributes_view(self.attributes@));
        AttributeGraph { entity: self.entity, attributes: out }
    }

    /// Returns the position of the first attribute named `name`.
    pub fn find_index(&self, name: &str) -> (r: Option<usize>)
        ensures
            r is Some <==> has_name(self@.attributes, name@),
            r matches Some(i) ==> i as int == position_of(self@.attributes, name@)
                && i < self@.attributes.len() && first_match(self@.attributes, name@, i as int),
    {
        proof {
            lemma_first_match(self@.attributes, name@);
        }
        let target = name.to_owned();
        let mut i: usize = 0;
        while i < self.attributes.len()
            invariant
                i <= self.attributes@.len(),
                target@ == name@,
                forall|j: int| 0 <= j < i ==> #[trigger] self@.attributes[j].name != name@,
            decreases self.attributes@.len() - i,
        {
            if self.attributes[i].name == target {
                assert(first_match(self@.attributes, name@, i as int));
                return Some(i);
            }
            i = i + 1;
        }
        assert(!has_name(self@.attributes, name@));
        None
    }

    /// Returns the first attribute named `name`.
    pub fn find_attr(&self, name: &str) -> (r: Option<&Attribute>)
        ensures
            r matches Some(a) ==> lookup(self@.attributes, name@) == Some(a@),
            r is None ==> lookup(self@.attributes, name@) is None,
    {
        match self.find_index(name) {
            Some(i) => Some(&self.attributes[i]),
            None => None,
        }
    }

    /// Returns the value of the first attribute named `name`.
    pub fn find_attr_value(&self, name: &str) -> (r: Option<&Value>)
        ensures
            r matches Some(v) ==> lookup(self@.attributes, name@) matches Some(a) && a.value == v@,
            r is None ==> lookup(self@.attributes, name@) is None,
    {
        match self.find_index(name) {
            Some(i) => Some(&self.attributes[i].value),
            None => None,
        }
    }

    /// Returns the flag held by the attribute named `name`, if it holds a bool.
    pub fn is_enabled(&self, name: &str) -> (r: Option<bool>)
        ensures
            r == enabled_flag(self@.attributes, name@),
    {
        match self.find_attr_value(name) {
            Some(Value::Bool(b)) => Some(*b),
            _ => None,
        }
    }

    /// Returns the text held by the attribute named `name`, if it holds text.
    pub fn find_text(&self, name: &str) -> (r: Option<String>)
        ensures
            r matches Some(t) ==> lookup(self@.attributes, name@) matches Some(a)
                && a.value == ValueView::TextBuffer(t@),
            r is None ==> !(lookup(self@.attributes, name@) matches Some(a) && a.value is TextBuffer),
    {
        match self.find_attr_value(name) {
            Some(Value::TextBuffer(t)) => Some(t.clone()),
            _ => None,
        }
    }

    /// Returns the symbol held by the attribute named `name`, if it holds a symbol.
    pub fn find_symbol(&self, name: &str) -> (r: Option<String>)
        ensures
            r matches Some(t) ==> lookup(self@.attributes, name@) matches Some(a)
                && a.value == ValueView::Symbol(t@),
            r is None ==> !(lookup(self@.attributes, name@) matches Some(a) && a.value is Symbol),
    {
        match self.find_attr_value(name) {
            Some(Value::Symbol(t)) => Some(t.clone()),
            _ => None,
        }
    }

    /// Sets the attribute named `name` to `value`: the first attribute of that
    /// name is replaced, or a new one is appended. The attribute belongs to this
    /// graph's entity.
    pub fn with(&mut self, name: String, value: Value)
        ensures
            final(self)@ == (GraphView {
                entity: old(self)@.entity,
                attributes: upsert(old(self)@.attributes, AttributeView { id: old(self)@.entity, name: name@, value: value@ }),
            }),
    {
        let ghost a = AttributeView { id: self@.entity, name: name@, value: value@ };
        proof {
            lemma_first_match(self@.attributes, name@);
        }
        let attr = Attribute { id: self.entity, name, value };
        match self.find_index(attr.name.as_str()) {
            Some(i) => {
                self.attributes.set(i, attr);
                assert(self@.attributes =~= upsert(old(self)@.attributes, a));
            },
            None => {
                self.attributes.push(attr);
                assert(self@.attributes =~= upsert(old(self)@.attributes, a));
            },
        }
    }

    /// Sets a text attribute.
    pub fn add_text_attr(&mut self, name: String, text: String)
        ensures
            final(self)@ == (GraphView {
                entity: old(self)@.entity,
                attributes: upsert(old(self)@.attributes, AttributeView { id: old(self)@.entity, name: name@, value: ValueView::TextBuffer(text@) }),
            }),
    {
        self.with(name, Value::TextBuffer(text));
    }

    /// Sets a binary attribute.
    pub fn add_binary_attr(&mut self, name: String, bytes: Vec<u8>)
        ensures
            final(self)@ == (GraphView {
                entity: old(self)@.entity,
                attributes: upsert(old(self)@.attributes, AttributeView { id: old(self)@.entity, name: name@, value: ValueView::BinaryVector(bytes@) }),
            }),
    {
        self.with(name, Value::BinaryVector(bytes));
    }

    /// Sets a bool attribute.
    pub fn add_bool_attr(&mut self, name: String, b: bool)
        ensures
            final(self)@ == (GraphView {
                entity: old(self)@.entity,
                attributes: upsert(old(self)@.attributes, AttributeView { id: old(self)@.entity, name: name@, value: ValueView::Bool(b) }),
            }),
    {
        self.with(name, Value::Bool(b));
    }

    /// Copies an attribute into this graph, under this graph's entity.
    pub fn copy_attribute(&mut self, attribute: &Attribute)
        ensures
            final(self)@ == (GraphView {
                entity: old(self)@.entity,
                attributes: upsert(old(self)@.attributes, AttributeView { id: old(self)@.entity, ..attribute@ }),
            }),
    {
        self.with(attribute.name.clone(), attribute.value.duplicate());
    }

    /// Replaces the attribute at position `i`.
    pub fn set_at(&mut self, i: usize, attribute: Attribute)
        requires
            i < old(self)@.attributes.len(),
        ensures
            final(self)@ == (GraphView {
                entity: old(self)@.entity,
                attributes: old(self)@.attributes.update(i as int, attribute@),
            }),
    {
        self.attributes.set(i, attribute);
        assert(self@.attributes =~= old(self)@.attributes.update(i as int, attribute@));
    }

    /// Moves this graph, and every attribute in it, to the entity `entity`.
    pub fn set_parent_entity_id(&mut self, entity: u32)
        ensures
            final(self)@.entity == entity,
            final(self)@.attributes == reparent(old(self)@.attributes, entity),
    {
        let mut out: Vec<Attribute> = Vec::new();
        let mut i: usize = 0;
        while i < self.attributes.len()
            invariant
                i <= self.attributes@.len(),
                self == old(self),
                attributes_view(out@) =~= reparent(old(self)@.attributes, entity).subrange(0, i as int),
            decreases self.attributes@.len() - i,
        {
            let mut a = self.attributes[i].duplicate();
            a.id = entity;
            proof { lemma_attributes_view_push(out@, a); }
            out.push(a);
            assert(attributes_view(out@) =~= reparent(old(self)@.attributes, entity).subrange(0, i + 1 as int));
            i = i + 1;
        }
        assert(reparent(old(self)@.attributes, entity).subrange(0, i as int) =~= reparent(old(self)@.attributes, entity));
        self.attributes = out;
        self.entity = entity;
    }

    /// Removes every attribute named `name`.
    pub fn remove(&mut self, name: &str)
        ensures
            final(self)@.entity == old(self)@.entity,
            final(self)@.attributes == old(self)@.attributes.filter(|a: AttributeView| a.name != name@),
    {
        let target = name.to_owned();
        let ghost pred = |a: AttributeView| a.name != name@;
        let mut kept: Vec<Attribute> = Vec::new();
        let mut old_attrs: Vec<Attribute> = Vec::new();
        std::mem::swap(&mut old_attrs, &mut self.attributes);
        let mut i: usize = 0;
        while i < old_attrs.len()
            invariant
                i <= old_attrs@.len(),
                target@ == name@,
                pred == (|a: AttributeView| a.name != name@),
                attributes_view(old_attrs@) == old(self)@.attributes,
                attributes_view(kept@) == attributes_view(old_attrs@).subrange(0, i as int).filter(pred),
            decreases old_attrs@.len() - i,
        {
            let ghost pre = attributes_view(old_attrs@).subrange(0, i as int);
            assert(attributes_view(old_attrs@).subrange(0, i + 1 as int) =~= pre.push(old_attrs@[i as int]@));
            proof { lemma_filter_push(pre, pred, old_attrs@[i as int]@); }
            if !(old_attrs[i].name == target) {
                let d = old_attrs[i].duplicate();
                proof { lemma_attributes_view_push(kept@, d); }
                kept.push(d);
                assert(attributes_view(kept@) =~= pre.filter(pred).push(old_attrs@[i as int]@));
            } else {
                assert(attributes_view(kept@) =~= pre.filter(pred));
            }
            i = i + 1;
        }
        assert(attributes_view(old_attrs@).subrange(0, i as int) =~= attributes_view(old_attrs@));
        self.attributes = kept;
    }

    /// Removes every attribute whose value is empty.
    pub fn remove_empty(&mut self)
        ensures
            final(self)@.entity == old(self)@.entity,
            final(self)@.attributes == old(self)@.attributes.filter(|a: AttributeView| !(a.value is Empty)),
    {
        let ghost pred = |a: AttributeView| !(a.value is Empty);
        let mut kept: Vec<Attribute> = Vec::new();
        let mut old_attrs: Vec<Attribute> = Vec::new();
        std::mem::swap(&mut old_attrs, &mut self.attributes);
        let mut i: usize = 0;
        while i < old_attrs.len()
            invariant
                i <= old_attrs@.len(),
                pred == (|a: AttributeView| !(a.value is Empty)),
                attributes_view(old_attrs@) == old(self)@.attributes,
                attributes_view(kept@) == attributes_view(old_attrs@).subrange(0, i as int).filter(pred),
            decreases old_attrs@.len() - i,
        {
            let ghost pre = attributes_view(old_attrs@).subrange(0, i as int);
            assert(attributes_view(old_attrs@).subrange(0, i + 1 as int) =~= pre.push(old_attrs@[i as int]@));
            proof { lemma_filter_push(pre, pred, old_attrs@[i as int]@); }
            if !old_attrs[i].value.is_empty() {
                let d = old_attrs[i].duplicate();
                proof { lemma_attributes_view_push(kept@, d); }
                kept.push(d);
                assert(attributes_view(kept@) =~= pre.filter(pred).push(old_attrs@[i as int]@));
            } else {
                assert(attributes_view(kept@) =~= pre.filter(pred));
            }
            i = i + 1;
        }
        assert(attributes_view(old_attrs@).subrange(0, i as int) =~= attributes_view(old_attrs@));
        self.attributes = kept;
    }
}

/// The flag held by the first attribute named `name`, when that attribute holds a bool.
pub open spec fn enabled_flag(attrs: Seq<AttributeView>, name: Seq<char>) -> Option<bool> {
    match lookup(attrs, name) {
        Some(a) => match a.value {
            ValueView::Bool(b) => Some(b),
            _ => None,
        },
        None => None,
    }
}

/// `attrs`, each moved to the entity `entity`.
pub open spec fn reparent(attrs: Seq<AttributeView>, entity: u32) -> Seq<AttributeView> {
    attrs.map_values(|a: AttributeView| AttributeView { id: entity, ..a })
}

impl Default for AttributeGraph {
    fn default() -> (g: AttributeGraph)
        ensures
            g@.entity == 0,
            g@.attributes == Seq::<AttributeView>::empty(),
    {
        AttributeGraph::new(0)
    }
}


/// After an upsert, the upserted name finds the new attribute and other names
/// find what they found before.
pub proof fn lemma_upsert_lookup(attrs: Seq<AttributeView>, a: AttributeView)
    ensures
        lookup(upsert(attrs, a), a.name) == Some(a),
        forall|n: Seq<char>| n != a.name ==> #[trigger] lookup(upsert(attrs, a), n) == lookup(attrs, n),
{
    lemma_first_match(attrs, a.name);
    let u = upsert(attrs, a);
    lemma_first_match(u, a.name);
    if has_name(attrs, a.name) {
        assert(first_match(u, a.name, position_of(attrs, a.name)));
    } else {
        assert(first_match(u, a.name, attrs.len() as int));
    }
    assert forall|n: Seq<char>| n != a.name implies #[trigger] lookup(u, n) == lookup(attrs, n) by {
        lemma_first_match(attrs, n);
        lemma_first_match(u, n);
        if has_name(attrs, n) {
            assert(first_match(u, n, position_of(attrs, n)));
        } else if has_name(u, n) {
            let i = choose|i: int| 0 <= i < u.len() && u[i].name == n;
            assert(attrs[i].name == n);
        }
    }
}

} // verus!
