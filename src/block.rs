use vstd::prelude::*;

verus! {

/// Handle of a block type in the block catalog. Id `0` is never handed out
/// by the catalog, which starts counting at `1`.
#[derive(Clone, Copy, PartialEq, Eq, Hash, Debug, Structural)]
pub struct BlockId(pub u32);

impl Default for BlockId {
    fn default() -> (r: BlockId)
        ensures
            r.0 == 0,
    {
        BlockId(0)
    }
}

/// One voxel of the world: empty space or a solid block of some type.
#[derive(Clone, Copy, PartialEq, Eq, Debug, Structural)]
pub enum Block {
    Air,
    Solid(BlockId),
}

impl Default for Block {
    fn default() -> (r: Block)
        ensures
            r == Block::Air,
    {
        Block::Air
    }
}

impl Block {
    pub fn is_solid(&self) -> (r: bool)
        ensures
            r == (*self is Solid),
    {
        match self {
            Block::Solid(_) => true,
            Block::Air => false,
        }
    }
}

} // verus!
