use vstd::prelude::*;
use crate::hex::Hex;

verus! {

/// What covers a cell.
#[derive(Debug, Clone, Copy, PartialEq, Eq, Structural)]
pub enum Surface {
    Normal,
    Water,
    Piste,
}

/// A structure (such as a tree) standing on one cell.
#[derive(Debug, Clone, Copy, PartialEq, Eq, Structural)]
pub struct StructureInstance {
    /// Which kind of structure this is.
    pub structure_id: u32,
    /// The cell it stands on.
    pub pos: Hex,
}

impl StructureInstance {
    pub fn new(structure_id: u32, pos: Hex) -> (s: StructureInstance)
        ensures
            s.structure_id == structure_id,
            s.pos == pos,
    {
        StructureInstance { structure_id, pos }
    }
}

/// A ski lift, given by the cells its nodes stand on.
#[derive(Debug, Clone)]
pub struct LiftInstance {
    pub nodes: Vec<Hex>,
}

/// Anything that can be placed on the grid.
#[derive(Debug, Clone)]
pub enum ObjectInstance {
    Structure(StructureInstance),
    Lift(LiftInstance),
}

/// The kind of object that the place tool puts down.
#[derive(Debug, Clone, Copy, PartialEq, Eq, Structural)]
pub enum ObjectType {
    Structure(u32),
    Lift,
}

/// Whether `object` is a structure standing on `pos`.
pub open spec fn is_structure_at(object: ObjectInstance, pos: Hex) -> bool {
    object matches ObjectInstance::Structure(s) && s.pos == pos
}

} // verus!
