use vstd::prelude::*;

use crate::block::Block;

verus! {

/// Width of a chunk along x, in voxels.
pub const CHUNK_W: usize = 16;

/// Depth of a chunk along z, in voxels.
pub const CHUNK_D: usize = 16;

/// Height of a chunk along y, in voxels; chunks span the whole world height.
pub const CHUNK_H: usize = 16;

/// Number of voxels in a chunk.
pub const CHUNK_VOLUME: usize = 4096;

/// Whether `(x, y, z)` lies inside a chunk.
pub open spec fn in_chunk(x: int, y: int, z: int) -> bool {
    0 <= x < CHUNK_W && 0 <= y < CHUNK_H && 0 <= z < CHUNK_D
}

/// Position of voxel `(x, y, z)` in the flat block grid: y-major, then z, then x.
pub open spec fn block_index(x: int, y: int, z: int) -> int {
    (y * CHUNK_D + z) * CHUNK_W + x
}

pub proof fn lemma_block_index_bounds(x: int, y: int, z: int)
    requires
        in_chunk(x, y, z),
    ensures
        0 <= block_index(x, y, z) < CHUNK_VOLUME,
{
    assert(0 <= block_index(x, y, z) < CHUNK_VOLUME) by (nonlinear_arith)
        requires
            0 <= x < 16,
            0 <= y < 16,
            0 <= z < 16,
    ;
}

/// Distinct voxels have distinct places in the flat grid.
pub proof fn lemma_block_index_injective(x1: int, y1: int, z1: int, x2: int, y2: int, z2: int)
    requires
        in_chunk(x1, y1, z1),
        in_chunk(x2, y2, z2),
        block_index(x1, y1, z1) == block_index(x2, y2, z2),
    ensures
        x1 == x2 && y1 == y2 && z1 == z2,
{
    assert(x1 == x2 && y1 == y2 && z1 == z2) by (nonlinear_arith)
        requires
            0 <= x1 < 16,
            0 <= y1 < 16,
            0 <= z1 < 16,
            0 <= x2 < 16,
            0 <= y2 < 16,
            0 <= z2 < 16,
            (y1 * 16 + z1) * 16 + x1 == (y2 * 16 + z2) * 16 + x2,
    ;
}

/// The flat grid of all air.
pub open spec fn all_air() -> Seq<Block> {
    Seq::new(CHUNK_VOLUME as nat, |i: int| Block::Air)
}

/// Builds a grid of `CHUNK_VOLUME` air blocks.
pub fn air_blocks() -> (r: Vec<Block>)
    ensures
        r@ == all_air(),
{
    let mut blocks: Vec<Block> = Vec::new();
    let mut i: usize = 0;
    while i < CHUNK_VOLUME
        invariant
            i <= CHUNK_VOLUME,
            blocks@ == Seq::new(i as nat, |k: int| Block::Air),
        decreases CHUNK_VOLUME - i,
    {
        blocks.push(Block::Air);
        i = i + 1;
        assert(blocks@ =~= Seq::new(i as nat, |k: int| Block::Air));
    }
    blocks
}

/// A full-height column of the world: its block grid, its position on the
/// 2D chunk grid, whether its mesh is up to date, an optional render
/// translation, and the arena indices of its four horizontal neighbours.
///
/// `left_chunk` lies towards negative x, `right_chunk` towards positive x,
/// `backward_chunk` towards negative z and `forward_chunk` towards positive z.
pub struct Chunk {
    pub blocks: Vec<Block>,
    pub pos: (i32, i32),
    pub is_generated_mesh: bool,
    pub translation: Option<(i64, i64, i64)>,
    pub left_chunk: Option<usize>,
    pub right_chunk: Option<usize>,
    pub forward_chunk: Option<usize>,
    pub backward_chunk: Option<usize>,
}

impl Chunk {
    /// A chunk is well formed when its grid holds exactly one block per voxel.
    pub open spec fn wf(&self) -> bool {
        self.blocks@.len() == CHUNK_VOLUME
    }

    pub open spec fn block_at(&self, x: int, y: int, z: int) -> Block {
        self.blocks@[block_index(x, y, z)]
    }

    /// Everything but the blocks and the mesh flag.
    pub open spec fn same_frame(&self, other: &Chunk) -> bool {
        &&& self.pos == other.pos
        &&& self.translation == other.translation
        &&& self.left_chunk == other.left_chunk
        &&& self.right_chunk == other.right_chunk
        &&& self.forward_chunk == other.forward_chunk
        &&& self.backward_chunk == other.backward_chunk
    }

    /// A fresh chunk at `pos`: no translation and no neighbours.
    pub open spec fn is_fresh_at(&self, pos: (i32, i32)) -> bool {
        &&& self.pos == pos
        &&& self.translation is None
        &&& self.left_chunk is None
        &&& self.right_chunk is None
        &&& self.forward_chunk is None
        &&& self.backward_chunk is None
    }

    /// Runs `generator` and returns the chunk that it builds.
    pub fn new<F: Fn() -> Chunk>(generator: F) -> (r: Chunk)
        requires
            generator.requires(()),
        ensures
            generator.ensures((), r),
    {
        generator()
    }

    /// An all-air chunk at grid position `(0, 0)`.
    pub fn air() -> (r: Chunk)
        ensures
            r.wf(),
            r.blocks@ == all_air(),
            r.is_fresh_at((0, 0)),
            !r.is_generated_mesh,
    {
        Chunk::new_air((0, 0))
    }

    /// An all-air chunk at grid position `pos`.
    pub fn new_air(pos: (i32, i32)) -> (r: Chunk)
        ensures
            r.wf(),
            r.blocks@ == all_air(),
            r.is_fresh_at(pos),
            !r.is_generated_mesh,
    {
        Chunk {
            blocks: air_blocks(),
            pos,
            is_generated_mesh: false,
            translation: None,
            left_chunk: None,
            right_chunk: None,
            forward_chunk: None,
            backward_chunk: None,
        }
    }

    /// Sets the render translation, in half-voxel units.
    pub fn with_translation(&mut self, trans: (i64, i64, i64))
        ensures
            *final(self) == (Chunk { translation: Some(trans), ..*old(self) }),
    {
        self.translation = Some(trans);
    }

    /// Writes one voxel and marks the chunk's mesh as out of date.
    pub fn set(&mut self, x: usize, y: usize, z: usize, val: Block)
        requires
            old(self).wf(),
            in_chunk(x as int, y as int, z as int),
        ensures
            final(self).wf(),
            final(self).blocks@ == old(self).blocks@.update(block_index(x as int, y as int, z as int), val),
            !final(self).is_generated_mesh,
            final(self).same_frame(old(self)),
    {
        proof {
            lemma_block_index_bounds(x as int, y as int, z as int);
        }
        let i = (y * CHUNK_D + z) * CHUNK_W + x;
        self.blocks.set(i, val);
        self.is_generated_mesh = false;
    }

    /// Records that the chunk's mesh is up to date.
    pub fn set_as_generated(&mut self)
        ensures
            *final(self) == (Chunk { is_generated_mesh: true, ..*old(self) }),
    {
        self.is_generated_mesh = true;
    }

    /// Records that the chunk's mesh must be built again.
    pub fn set_to_not_generated_mesh(&mut self)
        ensures
            *final(self) == (Chunk { is_generated_mesh: false, ..*old(self) }),
    {
        self.is_generated_mesh = false;
    }

    pub fn is_generated_mesh(&self) -> (r: bool)
        ensures
            r == self.is_generated_mesh,
    {
        self.is_generated_mesh
    }

    pub fn translation(&self) -> (r: Option<(i64, i64, i64)>)
        ensures
            r == self.translation,
    {
        self.translation
    }

    /// Reads a voxel of this chunk; the coordinates must lie inside it.
    pub fn get_from_only_my(&self, x: usize, y: usize, z: usize) -> (r: Block)
        requires
            self.wf(),
            in_chunk(x as int, y as int, z as int),
        ensures
            r == self.block_at(x as int, y as int, z as int),
    {
        proof {
            lemma_block_index_bounds(x as int, y as int, z as int);
        }
        self.blocks[(y * CHUNK_D + z) * CHUNK_W + x]
    }

    /// Reads a voxel of this chunk, or `None` outside it.
    pub fn get(&self, x: usize, y: usize, z: usize) -> (r: Option<Block>)
        requires
            self.wf(),
        ensures
            r == (if in_chunk(x as int, y as int, z as int) {
                Some(self.block_at(x as int, y as int, z as int))
            } else {
                None
            }),
    {
        if x < CHUNK_W && y < CHUNK_H && z < CHUNK_D {
            Some(self.get_from_only_my(x, y, z))
        } else {
            None
        }
    }

    /// Writes a voxel given by signed coordinates; outside the chunk nothing changes.
    pub fn set_i32(&mut self, x: i32, y: i32, z: i32, block: Block)
        requires
            old(self).wf(),
        ensures
            final(self).wf(),
            in_chunk(x as int, y as int, z as int) ==> {
                &&& final(self).blocks@ == old(self).blocks@.update(
                    block_index(x as int, y as int, z as int),
                    block,
                )
                &&& !final(self).is_generated_mesh
                &&& final(self).same_frame(old(self))
            },
            !in_chunk(x as int, y as int, z as int) ==> *final(self) == *old(self),
    {
        if 0 <= x && x < CHUNK_W as i32 && 0 <= y && y < CHUNK_H as i32 && 0 <= z && z
            < CHUNK_D as i32 {
            self.set(x as usize, y as usize, z as usize, block);
        }
    }

    /// Reads a voxel given by signed coordinates, or `None` outside the chunk.
    pub fn get_i32(&self, x: i32, y: i32, z: i32) -> (r: Option<Block>)
        requires
            self.wf(),
        ensures
            r == (if in_chunk(x as int, y as int, z as int) {
                Some(self.block_at(x as int, y as int, z as int))
            } else {
                None
            }),
    {
        if 0 <= x && x < CHUNK_W as i32 && 0 <= y && y < CHUNK_H as i32 && 0 <= z && z
            < CHUNK_D as i32 {
            Some(self.get_from_only_my(x as usize, y as usize, z as usize))
        } else {
            None
        }
    }
}

} // verus!
