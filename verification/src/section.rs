use vstd::prelude::*;
use crate::attributes::{Attribute, AttributeGraph, AttributeView, GraphView, ValueView, Value, lookup, upsert, enabled_flag, position_of, has_name, reparent, attributes_view};

verus! {

/// A section displays a collapsible header and renders its editor in its body.
/// It keeps a set of attributes that it owns and that are editable, so that a
/// section can make forms and widgets in a uniform manner.
#[derive(Debug)]
pub struct Section<S> {
    /// id of the parent entity of the section
    id: u32,
    /// title of this section, will be the header
    pub title: String,
    /// attributes are properties that this section owns and are editable
    pub attributes: AttributeGraph,
    /// enable to allow external systems to make changes to state,
    pub enable_app_systems: bool,
    /// enable inherent attribute editor for section
    pub enable_edit_attributes: bool,
    /// generation of the section's state,
    pub gen: u64,
    /// state of the section,
    pub state: S,
}

pub struct SectionView<S> {
    pub id: u32,
    pub title: Seq<char>,
    pub attributes: GraphView,
    pub enable_app_systems: bool,
    pub enable_edit_attributes: bool,
    pub gen: u64,
    pub state: S,
}

impl<S> View for Section<S> {
    type V = SectionView<S>;

    closed spec fn view(&self) -> SectionView<S> {
        SectionView {
            id: self.id,
            title: self.title@,
            attributes: self.attributes@,
            enable_app_systems: self.enable_app_systems,
            enable_edit_attributes: self.enable_edit_attributes,
            gen: self.gen,
            state: self.state,
        }
    }
}

/// A graph after attributes are copied into it, one after the other.
pub open spec fn copy_all(g: GraphView, attrs: Seq<AttributeView>) -> GraphView
    decreases attrs.len(),
{
    if attrs.len() == 0 {
        g
    } else {
        let before = copy_all(g, attrs.drop_last());
        GraphView {
            entity: before.entity,
            attributes: upsert(before.attributes, AttributeView { id: before.entity, ..attrs.last() }),
        }
    }
}

/// The name of the attribute that holds a loaded file.
pub open spec fn file_attribute_name(file_name: Seq<char>) -> Seq<char> {
    "file::"@ + file_name
}

impl<S> Section<S> {
    /// Creates a section with a title, attributes and an initial state; the
    /// attributes of the initial state are copied into the section's attributes.
    pub fn new(title: &str, attributes: AttributeGraph, initial_state: S, state_attributes: &Vec<Attribute>) -> (s: Section<S>)
        ensures
            s@ == (SectionView {
                id: 0,
                title: title@,
                attributes: copy_all(attributes@, attributes_view(state_attributes@)),
                enable_app_systems: false,
                enable_edit_attributes: false,
                gen: 0,
                state: initial_state,
            }),
    {
        let mut section = Section {
            gen: 0,
            id: 0,
            title: title.to_owned(),
            state: initial_state,
            enable_app_systems: false,
            enable_edit_attributes: false,
            attributes,
        };
        let mut i: usize = 0;
        while i < state_attributes.len()
            invariant
                i <= state_attributes@.len(),
                section@ == (SectionView {
                    id: 0,
                    title: title@,
                    attributes: copy_all(attributes@, attributes_view(state_attributes@).subrange(0, i as int)),
                    enable_app_systems: false,
                    enable_edit_attributes: false,
                    gen: 0,
                    state: initial_state,
                }),
            decreases state_attributes@.len() - i,
        {
            section.attributes.copy_attribute(&state_attributes[i]);
            proof {
                let all = attributes_view(state_attributes@);
                assert(all.subrange(0, i + 1 as int).drop_last() =~= all.subrange(0, i as int));
            }
            i = i + 1;
        }
        assert(attributes_view(state_attributes@).subrange(0, i as int) =~= attributes_view(state_attributes@));
        section
    }

    /// Returns the generation of the section's state.
    pub fn get_gen(&self) -> (g: u64)
        ensures
            g == self@.gen,
    {
        self.gen
    }

    /// Moves the section's state to its next generation.
    pub fn next_gen(&mut self)
        requires
            old(self)@.gen < u64::MAX,
        ensures
            final(self)@ == (SectionView { gen: (old(self)@.gen + 1) as u64, ..old(self)@ }),
    {
        self.gen = self.gen + 1;
    }

    /// The parent entity of this component
    pub fn get_parent_entity(&self) -> (id: u32)
        ensures
            id == self@.id,
    {
        self.id
    }

    /// Returns the flag of a checkbox attribute, if the attribute holds a bool.
    pub fn is_attr_checkbox(&self, with_name: &str) -> (r: Option<bool>)
        ensures
            r == enabled_flag(self@.attributes.attributes, with_name@),
    {
        self.attributes.is_enabled(with_name)
    }

    /// Updates the state from the attribute named `attr_name`, if it exists.
    pub fn modify_state_with_attr(&mut self, attr_name: &str, update: impl Fn(&Attribute, &S) -> S)
        requires
            forall|a: &Attribute, s: &S| #[trigger] update.requires((a, s)),
        ensures
            lookup(old(self)@.attributes.attributes, attr_name@) is None ==> final(self)@ == old(self)@,
            lookup(old(self)@.attributes.attributes, attr_name@) matches Some(v) ==> exists|a: Attribute|
                #![trigger update.ensures((&a, &old(self)@.state), final(self)@.state)]
                a@ == v && update.ensures((&a, &old(self)@.state), final(self)@.state)
                && final(self)@ == (SectionView { state: final(self)@.state, ..old(self)@ }),
    {
        match self.attributes.find_attr(attr_name) {
            Some(attr) => {
                let ghost a = *attr;
                let next = update(attr, &self.state);
                assert(update.ensures((&a, &old(self)@.state), next));
                self.state = next;
                assert(a@ == lookup(old(self)@.attributes.attributes, attr_name@).unwrap());
                assert(self@ == (SectionView { state: self@.state, ..old(self)@ }));
                assert(update.ensures((&a, &old(self)@.state), self@.state));
            },
            None => {},
        }
    }

    /// Edits the attribute named `attr_name` with a custom editor, if it exists:
    /// the attribute is replaced by what the editor returns.
    pub fn edit_attr_custom(&mut self, attr_name: &str, show: impl Fn(&Attribute) -> Attribute)
        requires
            forall|a: &Attribute| #[trigger] show.requires((a,)),
        ensures
            !has_name(old(self)@.attributes.attributes, attr_name@) ==> final(self)@ == old(self)@,
            has_name(old(self)@.attributes.attributes, attr_name@) ==> exists|a: Attribute, b: Attribute|
                #![trigger show.ensures((&a,), b)]
                a@ == old(self)@.attributes.attributes[position_of(old(self)@.attributes.attributes, attr_name@)]
                && show.ensures((&a,), b)
                && final(self)@ == (SectionView {
                    attributes: GraphView {
                        entity: old(self)@.attributes.entity,
                        attributes: old(self)@.attributes.attributes.update(position_of(old(self)@.attributes.attributes, attr_name@), b@),
                    },
                    ..old(self)@
                }),
    {
        match self.attributes.find_index(attr_name) {
            Some(i) => {
                let edited = show(&self.attributes.attributes()[i]);
                self.attributes.set_at(i, edited);
            },
            None => {},
        }
    }

    /// Loads a file into an attribute named `file::{file_name}`: `contents` is
    /// what reading the file gave, if it could be read; when it could not, the
    /// section is unchanged.
    pub fn with_file(&mut self, file_name: &str, contents: Option<Vec<u8>>) -> (r: &mut Self)
        ensures
            contents is None ==> *r == *old(self),
            contents matches Some(bytes) ==> r@ == (SectionView {
                attributes: GraphView {
                    entity: old(self)@.attributes.entity,
                    attributes: upsert(old(self)@.attributes.attributes, AttributeView {
                        id: old(self)@.attributes.entity,
                        name: file_attribute_name(file_name@),
                        value: ValueView::BinaryVector(bytes@),
                    }),
                },
                ..old(self)@
            }),
            *final(self) == *final(r),
    {
        match contents {
            Some(bytes) => {
                let mut name = "file::".to_owned();
                name.append(file_name);
                self.attributes.add_binary_attr(name, bytes);
            },
            None => {},
        }
        self
    }

    /// Sets the title attribute `title::`.
    pub fn with_title(&mut self, title: &str) -> (r: &mut Self)
        ensures
            r@ == (SectionView {
                attributes: GraphView {
                    entity: old(self)@.attributes.entity,
                    attributes: upsert(old(self)@.attributes.attributes, AttributeView {
                        id: old(self)@.attributes.entity,
                        name: "title::"@,
                        value: ValueView::TextBuffer(title@),
                    }),
                },
                ..old(self)@
            }),
            *final(self) == *final(r),
    {
        self.attributes.add_text_attr("title::".to_owned(), title.to_owned());
        self
    }

    /// Copies an attribute into the section.
    pub fn with_attribute(&mut self, attribute: &Attribute) -> (r: &mut Self)
        ensures
            r@ == (SectionView {
                attributes: GraphView {
                    entity: old(self)@.attributes.entity,
                    attributes: upsert(old(self)@.attributes.attributes, AttributeView { id: old(self)@.attributes.entity, ..attribute@ }),
                },
                ..old(self)@
            }),
            *final(self) == *final(r),
    {
        self.attributes.copy_attribute(attribute);
        self
    }

    /// Makes `entity_id` the section's parent entity, and moves the section's
    /// attributes to it.
    pub fn with_parent_entity_id(&mut self, entity_id: u32) -> (r: &mut Self)
        ensures
            r@ == (SectionView {
                id: entity_id,
                attributes: GraphView {
                    entity: entity_id,
                    attributes: reparent(old(self)@.attributes.attributes, entity_id),
                },
                ..old(self)@
            }),
            *final(self) == *final(r),
    {
        self.attributes.set_parent_entity_id(entity_id);
        self.id = entity_id;
        self
    }

    /// Returns the section's attributes.
    pub fn attributes(&self) -> (a: &AttributeGraph)
        ensures
            a@ == self@.attributes,
    {
        &self.attributes
    }

    /// Returns the section's title.
    pub fn title(&self) -> (t: &String)
        ensures
            t@ == self@.title,
    {
        &self.title
    }

    /// Returns the section's attributes, to edit them.
    pub fn edit_attributes(&mut self) -> (r: &mut AttributeGraph)
        ensures
            r@ == old(self)@.attributes,
            final(self)@ == (SectionView { attributes: final(r)@, ..old(self)@ }),
    {
        &mut self.attributes
    }

    /// Removes the attributes whose value is empty.
    pub fn cleanup_empty_attributes(&mut self)
        ensures
            final(self)@ == (SectionView {
                attributes: GraphView {
                    entity: old(self)@.attributes.entity,
                    attributes: old(self)@.attributes.attributes.filter(|a: AttributeView| !(a.value is Empty)),
                },
                ..old(self)@
            }),
    {
        self.attributes.remove_empty();
    }

    /// Whether the header starts open: when the attribute `opened::` holds
    /// true, or for the section of the root entity.
    pub fn default_open(&self) -> (b: bool)
        ensures
            b == (enabled_flag(self@.attributes.attributes, "opened::"@) == Some(true) || self@.id == 0),
    {
        match self.attributes.find_attr_value("opened::") {
            Some(Value::Bool(true)) => true,
            _ => self.id == 0,
        }
    }

    /// Records what showing the section did: the attribute `opened::`, when it
    /// holds a bool, records whether the header is open; the title follows the
    /// text of the attribute `title::`; attributes whose value is empty go.
    pub fn after_show(&mut self, header_open: bool)
        ensures
            ({
                let opened = if enabled_flag(old(self)@.attributes.attributes, "opened::"@) is Some {
                    upsert(old(self)@.attributes.attributes, AttributeView {
                        id: old(self)@.attributes.entity,
                        name: "opened::"@,
                        value: ValueView::Bool(header_open),
                    })
                } else {
                    old(self)@.attributes.attributes
                };
                &&& final(self)@.attributes == (GraphView {
                    entity: old(self)@.attributes.entity,
                    attributes: opened.filter(|a: AttributeView| !(a.value is Empty)),
                })
                &&& final(self)@.title == (match lookup(opened, "title::"@) {
                    Some(a) => match a.value {
                        ValueView::TextBuffer(t) => t,
                        _ => old(self)@.title,
                    },
                    None => old(self)@.title,
                })
                &&& final(self)@ == (SectionView { attributes: final(self)@.attributes, title: final(self)@.title, ..old(self)@ })
            }),
    {
        if let Some(_) = self.attributes.is_enabled("opened::") {
            self.attributes.add_bool_attr("opened::".to_owned(), header_open);
        }
        match self.attributes.find_text("title::") {
            Some(t) => {
                self.title = t;
            },
            None => {},
        }
        self.attributes.remove_empty();
    }
}

impl<S: Clone> Section<S> {
    /// Returns a copy of this section that allows external systems to change its state.
    pub fn enable_app_systems(&self) -> (next: Section<S>)
        ensures
            next@ == (SectionView { enable_app_systems: true, state: next@.state, ..self@ }),
            cloned::<S>(self@.state, next@.state),
    {
        Section {
            id: self.id,
            title: self.title.clone(),
            attributes: self.attributes.duplicate(),
            enable_app_systems: true,
            enable_edit_attributes: self.enable_edit_attributes,
            gen: self.gen,
            state: self.state.clone(),
        }
    }

    /// Returns a copy of this section with its attribute editor enabled.
    pub fn enable_edit_attributes(&self) -> (next: Section<S>)
        ensures
            next@ == (SectionView { enable_edit_attributes: true, state: next@.state, ..self@ }),
            cloned::<S>(self@.state, next@.state),
    {
        Section {
            id: self.id,
            title: self.title.clone(),
            attributes: self.attributes.duplicate(),
            enable_app_systems: self.enable_app_systems,
            enable_edit_attributes: true,
            gen: self.gen,
            state: self.state.clone(),
        }
    }
}

impl<S: Default> Default for Section<S> {
    fn default() -> (s: Section<S>)
        ensures
            s@.id == 0,
            s@.title == Seq::<char>::empty(),
            s@.attributes.entity == 0,
            s@.attributes.attributes == Seq::<AttributeView>::empty(),
            !s@.enable_app_systems,
            !s@.enable_edit_attributes,
            s@.gen == 0,
    {
        Section {
            gen: 0,
            id: 0,
            title: String::new(),
            state: S::default(),
            attributes: AttributeGraph::new(0),
            enable_app_systems: false,
            enable_edit_attributes: false,
        }
    }
}

} // verus!
