use vstd::prelude::*;
use crate::section::{Section, SectionView};
use crate::keyed::{key_lookup, key_remove, key_position, has_key, first_key, lemma_key_position};

verus! {

/// The entities whose node editor is open, by entity id, each with the section
/// it had when its editor opened, made editable, where it had one.
pub struct NodeEditors<S> {
    sessions: Vec<(u32, Option<Section<S>>)>,
}

pub open spec fn parked_view<S>(p: Option<Section<S>>) -> Option<SectionView<S>> {
    match p {
        Some(s) => Some(s@),
        None => None,
    }
}

pub open spec fn sessions_view<S>(v: Seq<(u32, Option<Section<S>>)>) -> Seq<(u32, Option<SectionView<S>>)> {
    v.map_values(|p: (u32, Option<Section<S>>)| (p.0, parked_view(p.1)))
}

impl<S> View for NodeEditors<S> {
    type V = Seq<(u32, Option<SectionView<S>>)>;

    closed spec fn view(&self) -> Seq<(u32, Option<SectionView<S>>)> {
        sessions_view(self.sessions@)
    }
}

/// What a run of the node editor does for an entity.
pub enum NodeEditorStep<S> {
    /// The entity's editor opens: its nodes are laid out and its section kept.
    Open,
    /// The entity's open editor updates its graph.
    Update,
    /// The entity's editor closes, and its kept section goes back to be loaded.
    Load(Section<S>),
    /// The entity's editor closes; it kept no section.
    Close,
    /// Nothing to do.
    Nothing,
}

/// `parked` is `section` made editable, its state a clone of the section's.
pub open spec fn editable_copy<S: Clone>(section: SectionView<S>, parked: SectionView<S>) -> bool {
    &&& parked == (SectionView { enable_edit_attributes: true, state: parked.state, ..section })
    &&& cloned::<S>(section.state, parked.state)
}

impl<S: Clone> NodeEditors<S> {
    /// No editor open.
    pub fn new() -> (r: NodeEditors<S>)
        ensures
            r@ == Seq::<(u32, Option<SectionView<S>>)>::empty(),
    {
        let r = NodeEditors { sessions: Vec::new() };
        assert(r@ =~= Seq::<(u32, Option<SectionView<S>>)>::empty());
        r
    }

    fn position(&self, id: u32) -> (r: Option<usize>)
        ensures
            r is Some <==> has_key(self@, id),
            r matches Some(i) ==> i as int == key_position(self@, id) && i < self.sessions@.len(),
    {
        let ghost es = self@;
        proof {
            lemma_key_position(es, id);
        }
        let mut i: usize = 0;
        while i < self.sessions.len()
            invariant
                i <= self.sessions@.len(),
                es == sessions_view(self.sessions@),
                forall|j: int| 0 <= j < i ==> #[trigger] es[j].0 != id,
            decreases self.sessions@.len() - i,
        {
            if self.sessions[i].0 == id {
                assert(first_key(es, id, i as int));
                return Some(i);
            }
            i = i + 1;
        }
        None
    }

    /// Whether the editor of the entity `id` is open.
    pub fn is_open(&self, id: u32) -> (r: bool)
        ensures
            r == has_key(self@, id),
    {
        self.position(id).is_some()
    }

    /// One run of the node editor for the entity `id`: whether the entity
    /// enables the editor, and the section the entity has. An entity that
    /// enables it has its editor opened once, keeping an editable copy of its
    /// section, and updated on later runs; one that disables it has its editor
    /// closed, and the section kept for it handed back to be loaded.
    pub fn step(&mut self, id: u32, enabled: Option<bool>, section: Option<&Section<S>>) -> (r: NodeEditorStep<S>)
        ensures
            enabled == Some(true) && has_key(old(self)@, id) ==> r is Update && final(self)@ == old(self)@,
            enabled == Some(true) && !has_key(old(self)@, id) ==> {
                &&& r is Open
                &&& final(self)@.len() == old(self)@.len() + 1
                &&& final(self)@.drop_last() == old(self)@
                &&& final(self)@.last().0 == id
                &&& match section {
                    None => final(self)@.last().1 is None,
                    Some(s) => final(self)@.last().1 matches Some(p) && editable_copy(s@, p),
                }
            },
            enabled == Some(false) ==> final(self)@ == key_remove(old(self)@, id),
            enabled == Some(false) ==> match key_lookup(old(self)@, id) {
                None => r is Nothing,
                Some(None) => r is Close,
                Some(Some(p)) => r matches NodeEditorStep::Load(s) && s@ == p,
            },
            enabled is None ==> r is Nothing && final(self)@ == old(self)@,
    {
        let ghost es = self@;
        proof {
            lemma_key_position(es, id);
        }
        match enabled {
            Some(true) => {
                match self.position(id) {
                    Some(_) => NodeEditorStep::Update,
                    None => {
                        let parked = match section {
                            Some(s) => Some(s.enable_edit_attributes()),
                            None => None,
                        };
                        self.sessions.push((id, parked));
                        assert(self@.drop_last() =~= es);
                        NodeEditorStep::Open
                    },
                }
            },
            Some(false) => {
                match self.position(id) {
                    Some(p) => {
                        let (_, parked) = self.sessions.remove(p);
                        assert(self@ =~= es.remove(p as int));
                        match parked {
                            Some(s) => NodeEditorStep::Load(s),
                            None => NodeEditorStep::Close,
                        }
                    },
                    None => NodeEditorStep::Nothing,
                }
            },
            None => NodeEditorStep::Nothing,
        }
    }
}

/// Opening an entity's editor and closing it again leaves the open editors
/// as they were, and hands back the section kept when it opened.
pub proof fn law_open_then_close<S>(sessions: Seq<(u32, Option<SectionView<S>>)>, id: u32, parked: Option<SectionView<S>>)
    requires
        !has_key(sessions, id),
    ensures
        key_lookup(sessions.push((id, parked)), id) == Some(parked),
        key_remove(sessions.push((id, parked)), id) == sessions,
{
    let opened = sessions.push((id, parked));
    lemma_key_position(opened, id);
    assert(first_key(opened, id, sessions.len() as int));
    assert(opened.remove(sessions.len() as int) =~= sessions);
}

} // verus!
