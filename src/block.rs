use vstd::prelude::*;

verus! {

/// The kinds of block that a cell of the voxel world can hold.
#[derive(Debug, Clone, Copy, PartialEq, Eq, Hash, Structural)]
pub enum BlockType {
    Air,
    Grass,
    Dirt,
    Stone,
    Water,
}

/// A block occupies space unless it is air or water.
pub open spec fn solid(b: BlockType) -> bool {
    !(b is Air || b is Water)
}

/// Light passes through air and water only.
pub open spec fn transparent(b: BlockType) -> bool {
    b is Air || b is Water
}

impl BlockType {
    /// Returns true if the block is solid (not air or water).
    pub fn is_solid(&self) -> (r: bool)
        ensures
            r == solid(*self),
    {
        match self {
            BlockType::Air | BlockType::Water => false,
            _ => true,
        }
    }

    /// Returns true if the block is transparent (air or water).
    pub fn is_transparent(&self) -> (r: bool)
        ensures
            r == transparent(*self),
    {
        match self {
            BlockType::Air | BlockType::Water => true,
            _ => false,
        }
    }
}

/// In this catalog a block is solid exactly when it is not transparent.
pub proof fn lemma_solid_iff_opaque(b: BlockType)
    ensures
        solid(b) == !transparent(b),
{
}

} // verus!
