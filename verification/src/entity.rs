use vstd::prelude::*;

verus! {

/// Handle of an entity in the runtime world: its index and its generation.
///
/// Two handles name the same entity when both parts are equal.
#[derive(Debug, Clone, Copy, PartialEq, Eq, Hash, Structural)]
pub struct Entity {
    pub index: u32,
    pub generation: i32,
}

impl Entity {
    /// Creates a handle from an index and a generation,
    pub fn new(index: u32, generation: i32) -> (e: Entity)
        ensures
            e.index == index,
            e.generation == generation,
    {
        Entity { index, generation }
    }

    /// Returns the index of the entity,
    pub fn id(&self) -> (id: u32)
        ensures
            id == self.index,
    {
        self.index
    }

    /// Returns the generation of the entity,
    pub fn gen(&self) -> (g: i32)
        ensures
            g == self.generation,
    {
        self.generation
    }
}

} // verus!
