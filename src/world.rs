use vstd::prelude::*;
use vstd::arithmetic::div_mod::{
    lemma_div_pos_is_pos,
    lemma_fundamental_div_mod,
    lemma_fundamental_div_mod_converse_div,
    lemma_fundamental_div_mod_converse_mod,
    lemma_mod_bound,
};

use crate::block::Block;
use crate::chunk::{Chunk, CHUNK_D, CHUNK_H, CHUNK_W, in_chunk, block_index};

verus! {

/// Largest number of chunks an arena may hold, so that slot arithmetic on
/// signed 32-bit grid coordinates never overflows.
pub const MAX_CHUNKS: u32 = 0x7fff_ffff;

/// Slot number of grid position `(x, z)` in a window `w` wide.
pub open spec fn slot_index(x: int, z: int, w: int) -> int {
    x + z * w
}

/// Slot of grid position `(x, z)` in a window `size` wide and deep, if the
/// position lies inside the window.
pub open spec fn slot_of(x: int, z: int, size: (u32, u32)) -> Option<usize> {
    if 0 <= x < size.0 && 0 <= z < size.1 {
        Some(slot_index(x, z, size.0 as int) as usize)
    } else {
        None
    }
}

/// Neighbour slot lookup: `Some` slot exactly when `(x, z)` lies inside the
/// window and its slot is below `count`.
pub fn get_chunk_entity(x: i32, z: i32, size: (u32, u32), count: usize) -> (r: Option<usize>)
    ensures
        r == (if slot_of(x as int, z as int, size) is Some && slot_index(x as int, z as int, size.0 as int) < count {
            slot_of(x as int, z as int, size)
        } else {
            None
        }),
{
    if x >= 0 && z >= 0 && (x as u32) < size.0 && (z as u32) < size.1 {
        assert(0 <= z * size.0 <= 0x7fff_ffff * 0xffff_ffff) by (nonlinear_arith)
            requires
                0 <= z < 0x8000_0000,
                0 <= size.0 <= 0xffff_ffff,
        ;
        let i: i64 = x as i64 + z as i64 * size.0 as i64;
        assert(i == slot_index(x as int, z as int, size.0 as int));
        if (i as u64) < count as u64 {
            Some(i as usize)
        } else {
            None
        }
    } else {
        None
    }
}

/// Slot `i` of a window `sx` by `sz` lies at a grid position inside the window.
pub proof fn lemma_pos_of_in_window(i: int, sx: int, sz: int)
    requires
        0 <= i < sx * sz,
        sx > 0,
    ensures
        0 <= i % sx < sx,
        0 <= i / sx < sz,
        i == slot_index(i % sx, i / sx, sx),
{
    lemma_fundamental_div_mod(i, sx);
    lemma_mod_bound(i, sx);
    lemma_div_pos_is_pos(i, sx);
    let q = i / sx;
    let r = i % sx;
    assert(q < sz) by (nonlinear_arith)
        requires
            i == sx * q + r,
            0 <= r,
            i < sx * sz,
            sx > 0,
    ;
    assert(sx * q == q * sx) by (nonlinear_arith);
}

/// Slots of distinct positions of a window `sx` wide differ.
pub proof fn lemma_slot_index_injective(x1: int, z1: int, x2: int, z2: int, sx: int)
    requires
        0 <= x1 < sx,
        0 <= x2 < sx,
        0 <= z1,
        0 <= z2,
        slot_index(x1, z1, sx) == slot_index(x2, z2, sx),
    ensures
        x1 == x2 && z1 == z2,
{
    assert(z1 == z2) by (nonlinear_arith)
        requires
            0 <= x1 < sx,
            0 <= x2 < sx,
            0 <= z1,
            0 <= z2,
            x1 + z1 * sx == x2 + z2 * sx,
    ;
}

/// The arena of active chunks: a window of `size.0 * size.1` chunks, the
/// chunk at grid position `(x, z)` held in slot `x + z * size.0`.
pub struct UpdateChunks {
    pub chunks: Vec<Chunk>,
    pub size: (u32, u32),
}

impl UpdateChunks {
    /// Grid position of slot `i`.
    pub open spec fn pos_of(&self, i: int) -> (int, int) {
        (i % (self.size.0 as int), i / (self.size.0 as int))
    }

    /// Links of a chunk at grid position `p`, as the window lays them out.
    pub open spec fn links_ok(&self, c: Chunk, p: (int, int)) -> bool {
        &&& c.left_chunk == slot_of(p.0 - 1, p.1, self.size)
        &&& c.right_chunk == slot_of(p.0 + 1, p.1, self.size)
        &&& c.backward_chunk == slot_of(p.0, p.1 - 1, self.size)
        &&& c.forward_chunk == slot_of(p.0, p.1 + 1, self.size)
    }

    /// The arena is well formed: one well-formed chunk per slot, each at the
    /// grid position of its slot and linked to the slots around it.
    #[verifier::opaque]
    pub open spec fn wf(&self) -> bool {
        &&& self.chunks@.len() == self.size.0 * self.size.1
        &&& self.size.0 * self.size.1 <= MAX_CHUNKS
        &&& forall|i: int|
            0 <= i < self.chunks@.len() ==> {
                &&& (#[trigger] self.chunks@[i]).wf()
                &&& self.chunks@[i].pos == (self.pos_of(i).0 as i32, self.pos_of(i).1 as i32)
                &&& self.links_ok(self.chunks@[i], self.pos_of(i))
            }
    }

    /// The arena's links all name slots of the arena.
    pub open spec fn links_in_range(&self) -> bool {
        forall|i: int|
            0 <= i < self.chunks@.len() ==> {
                &&& (#[trigger] self.chunks@[i]).left_chunk matches Some(j) ==> j < self.chunks@.len()
                &&& self.chunks@[i].right_chunk matches Some(j) ==> j < self.chunks@.len()
                &&& self.chunks@[i].backward_chunk matches Some(j) ==> j < self.chunks@.len()
                &&& self.chunks@[i].forward_chunk matches Some(j) ==> j < self.chunks@.len()
            }
    }

    pub proof fn lemma_links_in_range(&self)
        requires
            self.wf(),
        ensures
            self.links_in_range(),
            self.chunks@.len() == self.size.0 * self.size.1,
            self.size.0 * self.size.1 <= MAX_CHUNKS,
            forall|i: int| 0 <= i < self.chunks@.len() ==> (#[trigger] self.chunks@[i]).wf(),
    {
        reveal(UpdateChunks::wf);
        assert forall|i: int| 0 <= i < self.chunks@.len() implies {
            &&& (#[trigger] self.chunks@[i]).left_chunk matches Some(j) ==> j < self.chunks@.len()
            &&& self.chunks@[i].right_chunk matches Some(j) ==> j < self.chunks@.len()
            &&& self.chunks@[i].backward_chunk matches Some(j) ==> j < self.chunks@.len()
            &&& self.chunks@[i].forward_chunk matches Some(j) ==> j < self.chunks@.len()
        } by {
            let sx = self.size.0 as int;
            let sz = self.size.1 as int;
            let p = self.pos_of(i);
            assert(sx > 0) by (nonlinear_arith)
                requires
                    0 <= i < sx * sz,
                    sx >= 0,
                    sz >= 0,
            ;
            lemma_pos_of_in_window(i, sx, sz);
            assert forall|x: int, z: int| 0 <= x < sx && 0 <= z < sz implies #[trigger] slot_index(x, z, sx) < sx * sz by {
                assert(x + z * sx < sx * sz) by (nonlinear_arith)
                    requires
                        0 <= x < sx,
                        0 <= z < sz,
                ;
            }
        }
    }

    /// Chunk `idx` read at `(x, y, z)`, where the coordinates may step one
    /// voxel past a vertical side of the chunk into the linked neighbour.
    /// Past the top or bottom, past a side with no neighbour, past two sides
    /// at once or further than one voxel, the answer is air.
    pub open spec fn block_around(&self, idx: int, x: int, y: int, z: int) -> Block {
        let c = self.chunks@[idx];
        if in_chunk(x, y, z) {
            c.block_at(x, y, z)
        } else if !(0 <= y < CHUNK_H) {
            Block::Air
        } else if x == -1 && 0 <= z < CHUNK_D {
            match c.left_chunk {
                Some(n) => self.chunks@[n as int].block_at(CHUNK_W - 1, y, z),
                None => Block::Air,
            }
        } else if x == CHUNK_W && 0 <= z < CHUNK_D {
            match c.right_chunk {
                Some(n) => self.chunks@[n as int].block_at(0, y, z),
                None => Block::Air,
            }
        } else if z == -1 && 0 <= x < CHUNK_W {
            match c.backward_chunk {
                Some(n) => self.chunks@[n as int].block_at(x, y, CHUNK_D - 1),
                None => Block::Air,
            }
        } else if z == CHUNK_D && 0 <= x < CHUNK_W {
            match c.forward_chunk {
                Some(n) => self.chunks@[n as int].block_at(x, y, 0),
                None => Block::Air,
            }
        } else {
            Block::Air
        }
    }

    /// A window of `size.0 * size.1` air chunks, each placed at its grid
    /// position (translation in half-voxel units) and linked to its neighbours.
    pub fn new_air_with_size(size: (u32, u32)) -> (r: UpdateChunks)
        requires
            size.0 * size.1 <= MAX_CHUNKS,
        ensures
            r.wf(),
            r.size == size,
            forall|i: int|
                0 <= i < r.chunks@.len() ==> {
                    &&& (#[trigger] r.chunks@[i]).blocks@ == crate::chunk::all_air()
                    &&& !r.chunks@[i].is_generated_mesh
                    &&& r.chunks@[i].translation == Some(
                        (
                            (2 * CHUNK_W * r.pos_of(i).0) as i64,
                            0i64,
                            (2 * CHUNK_D * r.pos_of(i).1) as i64,
                        ),
                    )
                },
    {
        let ghost sx = size.0 as int;
        let ghost sz = size.1 as int;
        let count: usize = (size.0 as u64 * size.1 as u64) as usize;
        let mut chunks: Vec<Chunk> = Vec::new();
        let mut z1: u32 = 0;
        while z1 < size.1
            invariant
                sx == size.0,
                sz == size.1,
                sx * sz <= MAX_CHUNKS,
                count == sx * sz,
                z1 <= sz,
                chunks@.len() == z1 * sx,
                forall|i: int|
                    0 <= i < chunks@.len() ==> {
                        &&& (#[trigger] chunks@[i]).wf()
                        &&& chunks@[i].pos == ((i % sx) as i32, (i / sx) as i32)
                        &&& chunks@[i].left_chunk == slot_of(i % sx - 1, i / sx, size)
                        &&& chunks@[i].right_chunk == slot_of(i % sx + 1, i / sx, size)
                        &&& chunks@[i].backward_chunk == slot_of(i % sx, i / sx - 1, size)
                        &&& chunks@[i].forward_chunk == slot_of(i % sx, i / sx + 1, size)
                        &&& chunks@[i].blocks@ == crate::chunk::all_air()
                        &&& !chunks@[i].is_generated_mesh
                        &&& chunks@[i].translation == Some(
                            ((2 * CHUNK_W * (i % sx)) as i64, 0i64, (2 * CHUNK_D * (i / sx)) as i64),
                        )
                    },
            decreases size.1 - z1,
        {
            let mut x1: u32 = 0;
            while x1 < size.0
                invariant
                    sx == size.0,
                    sz == size.1,
                    sx * sz <= MAX_CHUNKS,
                    count == sx * sz,
                    z1 < sz,
                    x1 <= sx,
                    chunks@.len() == z1 * sx + x1,
                    forall|i: int|
                        0 <= i < chunks@.len() ==> {
                            &&& (#[trigger] chunks@[i]).wf()
                            &&& chunks@[i].pos == ((i % sx) as i32, (i / sx) as i32)
                            &&& chunks@[i].left_chunk == slot_of(i % sx - 1, i / sx, size)
                            &&& chunks@[i].right_chunk == slot_of(i % sx + 1, i / sx, size)
                            &&& chunks@[i].backward_chunk == slot_of(i % sx, i / sx - 1, size)
                            &&& chunks@[i].forward_chunk == slot_of(i % sx, i / sx + 1, size)
                            &&& chunks@[i].blocks@ == crate::chunk::all_air()
                            &&& !chunks@[i].is_generated_mesh
                            &&& chunks@[i].translation == Some(
                                (
                                    (2 * CHUNK_W * (i % sx)) as i64,
                                    0i64,
                                    (2 * CHUNK_D * (i / sx)) as i64,
                                ),
                            )
                        },
                decreases size.0 - x1,
            {
                let ghost i = z1 * sx + x1;
                proof {
                    assert(z1 * sx + x1 < sx * sz) by (nonlinear_arith)
                        requires
                            0 <= x1 < sx,
                            0 <= z1 < sz,
                    ;
                    lemma_fundamental_div_mod_converse_div(i, sx, z1 as int, x1 as int);
                    lemma_fundamental_div_mod_converse_mod(i, sx, z1 as int, x1 as int);
                    assert(z1 * sx == sx * z1) by (nonlinear_arith);
                }
                let xi = x1 as i32;
                let zi = z1 as i32;
                let mut chunk = Chunk::new_air((xi, zi));
                chunk.with_translation(
                    (2 * (CHUNK_W as i64) * (x1 as i64), 0, 2 * (CHUNK_D as i64) * (z1 as i64)),
                );
                chunk.left_chunk = get_chunk_entity(xi - 1, zi, size, count);
                chunk.right_chunk = get_chunk_entity(xi + 1, zi, size, count);
                chunk.backward_chunk = get_chunk_entity(xi, zi - 1, size, count);
                chunk.forward_chunk = get_chunk_entity(xi, zi + 1, size, count);
                proof {
                    assert forall|x: int, z: int| 0 <= x < sx && 0 <= z < sz implies #[trigger] slot_index(x, z, sx)
                        < count by {
                        assert(x + z * sx < sx * sz) by (nonlinear_arith)
                            requires
                                0 <= x < sx,
                                0 <= z < sz,
                        ;
                    }
                }
                chunks.push(chunk);
                x1 = x1 + 1;
            }
            z1 = z1 + 1;
            assert((z1 - 1) * sx + sx == z1 * sx) by (nonlinear_arith);
        }
        assert(sz * sx == sx * sz) by (nonlinear_arith);
        let r = UpdateChunks { chunks, size };
        reveal(UpdateChunks::wf);
        assert forall|i: int| 0 <= i < r.chunks@.len() implies {
            &&& (#[trigger] r.chunks@[i]).wf()
            &&& r.chunks@[i].pos == (r.pos_of(i).0 as i32, r.pos_of(i).1 as i32)
            &&& r.links_ok(r.chunks@[i], r.pos_of(i))
        } by {}
        r
    }
}


/// Whether an edit at local `(x, _, z)` of chunk `c` lies on the side that
/// `c` shares with slot `j`.
pub open spec fn touches(c: Chunk, x: int, z: int, j: int) -> bool {
    ||| x == 0 && c.left_chunk == Some(j as usize)
    ||| x == CHUNK_W - 1 && c.right_chunk == Some(j as usize)
    ||| z == 0 && c.backward_chunk == Some(j as usize)
    ||| z == CHUNK_D - 1 && c.forward_chunk == Some(j as usize)
}

/// The arena `new` is `old` after writing `block` at local `(x, y, z)` of
/// chunk `idx`: that chunk holds the block and needs a new mesh, every
/// neighbour sharing the edited side needs a new mesh, nothing else changes.
pub open spec fn edited(
    old: &UpdateChunks,
    new: &UpdateChunks,
    idx: int,
    x: int,
    y: int,
    z: int,
    block: Block,
) -> bool {
    &&& new.size == old.size
    &&& new.chunks@.len() == old.chunks@.len()
    &&& new.chunks@[idx].blocks@ == old.chunks@[idx].blocks@.update(block_index(x, y, z), block)
    &&& !new.chunks@[idx].is_generated_mesh
    &&& forall|j: int|
        0 <= j < new.chunks@.len() ==> (#[trigger] new.chunks@[j]).same_frame(&old.chunks@[j])
    &&& forall|j: int|
        0 <= j < new.chunks@.len() && j != idx ==> {
            &&& (#[trigger] new.chunks@[j]).blocks@ == old.chunks@[j].blocks@
            &&& new.chunks@[j].is_generated_mesh == (old.chunks@[j].is_generated_mesh
                && !touches(old.chunks@[idx], x, z, j))
        }
}

/// Chunk `c` with its mesh marked out of date when `off` holds.
pub open spec fn marked(c: Chunk, off: bool) -> Chunk {
    Chunk { is_generated_mesh: c.is_generated_mesh && !off, ..c }
}

/// Whether world voxel `(x, y, z)` lies inside the window of chunks.
pub open spec fn in_world(size: (u32, u32), x: int, y: int, z: int) -> bool {
    0 <= x < size.0 * CHUNK_W && 0 <= y < CHUNK_H && 0 <= z < size.1 * CHUNK_D
}

impl UpdateChunks {
    /// Block at world voxel `(x, y, z)`: chunk `(x / W, z / D)`, local
    /// `(x % W, y, z % D)`.
    pub open spec fn world_block(&self, x: int, y: int, z: int) -> Option<Block> {
        if in_world(self.size, x, y, z) {
            Some(
                self.chunks@[slot_index(x / CHUNK_W as int, z / CHUNK_D as int, self.size.0 as int)].block_at(
                    x % CHUNK_W as int,
                    y,
                    z % CHUNK_D as int,
                ),
            )
        } else {
            None
        }
    }

    /// Slot of the chunk at grid position `(x, z)`, which must lie in the window.
    pub fn get_chunk_entity(&self, x: i32, z: i32) -> (r: usize)
        requires
            self.wf(),
            0 <= x < self.size.0,
            0 <= z < self.size.1,
        ensures
            r == slot_index(x as int, z as int, self.size.0 as int),
            r < self.chunks@.len(),
    {
        proof {
            self.lemma_links_in_range();
            let sx = self.size.0 as int;
            let sz = self.size.1 as int;
            assert(slot_index(x as int, z as int, sx) < sx * sz) by (nonlinear_arith)
                requires
                    0 <= x < sx,
                    0 <= z < sz,
            ;
        }
        (x as u64 + z as u64 * self.size.0 as u64) as usize
    }

    /// The chunk at grid position `(x, z)`, or `None` outside the window.
    pub fn get_chunk(&self, x: i32, z: i32) -> (r: Option<&Chunk>)
        requires
            self.wf(),
        ensures
            r == (if 0 <= x < self.size.0 && 0 <= z < self.size.1 {
                Some(&self.chunks@[slot_index(x as int, z as int, self.size.0 as int)])
            } else {
                None
            }),
    {
        if x >= 0 && z >= 0 && (x as u32) < self.size.0 && (z as u32) < self.size.1 {
            let i = self.get_chunk_entity(x, z);
            Some(&self.chunks[i])
        } else {
            None
        }
    }

    /// Chunk `idx` read at `(x, y, z)` as `block_around` describes, crossing
    /// into a linked neighbour one voxel past a vertical side.
    pub fn get_around(&self, idx: usize, x: i32, y: i32, z: i32) -> (r: Block)
        requires
            self.wf(),
            idx < self.chunks@.len(),
        ensures
            r == self.block_around(idx as int, x as int, y as int, z as int),
    {
        proof {
            self.lemma_links_in_range();
        }
        let c = &self.chunks[idx];
        let w = CHUNK_W as i32;
        let h = CHUNK_H as i32;
        let d = CHUNK_D as i32;
        if 0 <= x && x < w && 0 <= y && y < h && 0 <= z && z < d {
            c.get_from_only_my(x as usize, y as usize, z as usize)
        } else if y < 0 || y >= h {
            Block::Air
        } else if x == -1 && 0 <= z && z < d {
            match c.left_chunk {
                Some(n) => self.chunks[n].get_from_only_my(CHUNK_W - 1, y as usize, z as usize),
                None => Block::Air,
            }
        } else if x == w && 0 <= z && z < d {
            match c.right_chunk {
                Some(n) => self.chunks[n].get_from_only_my(0, y as usize, z as usize),
                None => Block::Air,
            }
        } else if z == -1 && 0 <= x && x < w {
            match c.backward_chunk {
                Some(n) => self.chunks[n].get_from_only_my(x as usize, y as usize, CHUNK_D - 1),
                None => Block::Air,
            }
        } else if z == d && 0 <= x && x < w {
            match c.forward_chunk {
                Some(n) => self.chunks[n].get_from_only_my(x as usize, y as usize, 0),
                None => Block::Air,
            }
        } else {
            Block::Air
        }
    }

    /// Writes `block` at local `(x, y, z)` of chunk `idx`, marks that chunk's
    /// mesh out of date, and also that of each neighbour whose shared side
    /// the voxel lies on.
    pub fn set_in_chunk(&mut self, idx: usize, x: usize, y: usize, z: usize, block: Block)
        requires
            old(self).wf(),
            idx < old(self).chunks@.len(),
            in_chunk(x as int, y as int, z as int),
        ensures
            final(self).wf(),
            edited(old(self), final(self), idx as int, x as int, y as int, z as int, block),
    {
        proof {
            self.lemma_links_in_range();
        }
        let ghost start = *self;
        let left = self.chunks[idx].left_chunk;
        let right = self.chunks[idx].right_chunk;
        let backward = self.chunks[idx].backward_chunk;
        let forward = self.chunks[idx].forward_chunk;
        self.write_in_chunk(idx, x, y, z, block);
        let ghost written = *self;
        let ghost c = start.chunks@[idx as int];
        let ghost n = self.chunks@.len();
        assert(forall|j: int| 0 <= j < n && j != idx ==> #[trigger] self.chunks@[j] == marked(start.chunks@[j], false));
        if x == 0 {
            if let Some(j) = left {
                self.mark_not_generated(j);
            }
        }
        assert(forall|j: int| 0 <= j < n && j != idx ==> #[trigger] self.chunks@[j] == marked(
            start.chunks@[j],
            x == 0 && c.left_chunk == Some(j as usize),
        ));
        if x == CHUNK_W - 1 {
            if let Some(j) = right {
                self.mark_not_generated(j);
            }
        }
        assert(forall|j: int| 0 <= j < n && j != idx ==> #[trigger] self.chunks@[j] == marked(
            start.chunks@[j],
            (x == 0 && c.left_chunk == Some(j as usize))
            || (x == CHUNK_W - 1 && c.right_chunk == Some(j as usize)),
        ));
        if z == 0 {
            if let Some(j) = backward {
                self.mark_not_generated(j);
            }
        }
        assert(forall|j: int| 0 <= j < n && j != idx ==> #[trigger] self.chunks@[j] == marked(
            start.chunks@[j],
            (x == 0 && c.left_chunk == Some(j as usize))
            || (x == CHUNK_W - 1 && c.right_chunk == Some(j as usize))
            || (z == 0 && c.backward_chunk == Some(j as usize)),
        ));
        if z == CHUNK_D - 1 {
            if let Some(j) = forward {
                self.mark_not_generated(j);
            }
        }
        assert(forall|j: int| 0 <= j < n && j != idx ==> #[trigger] self.chunks@[j] == marked(
            start.chunks@[j],
            touches(c, x as int, z as int, j),
        ));
        assert(self.chunks@[idx as int] == written.chunks@[idx as int]);
    }

    /// Writes one voxel of chunk `idx` and marks that chunk's mesh out of date.
    fn write_in_chunk(&mut self, idx: usize, x: usize, y: usize, z: usize, block: Block)
        requires
            old(self).wf(),
            idx < old(self).chunks@.len(),
            in_chunk(x as int, y as int, z as int),
        ensures
            final(self).wf(),
            final(self).size == old(self).size,
            final(self).chunks@.len() == old(self).chunks@.len(),
            final(self).chunks@[idx as int].blocks@ == old(self).chunks@[idx as int].blocks@.update(
                block_index(x as int, y as int, z as int),
                block,
            ),
            !final(self).chunks@[idx as int].is_generated_mesh,
            final(self).chunks@[idx as int].same_frame(&old(self).chunks@[idx as int]),
            forall|k: int|
                0 <= k < final(self).chunks@.len() && k != idx ==> #[trigger] final(self).chunks@[k]
                    == old(self).chunks@[k],
    {
        proof {
            reveal(UpdateChunks::wf);
        }
        self.chunks[idx].set(x, y, z, block);
        assert(self.wf()) by {
            assert forall|i: int| 0 <= i < self.chunks@.len() implies {
                &&& (#[trigger] self.chunks@[i]).wf()
                &&& self.chunks@[i].pos == (self.pos_of(i).0 as i32, self.pos_of(i).1 as i32)
                &&& self.links_ok(self.chunks@[i], self.pos_of(i))
            } by {
                if i != idx {
                    assert(self.chunks@[i] == old(self).chunks@[i]);
                }
            }
        }
    }

    /// Records that the mesh of chunk `j` is up to date.
    pub fn set_generated(&mut self, j: usize)
        requires
            old(self).wf(),
            j < old(self).chunks@.len(),
        ensures
            final(self).wf(),
            final(self).size == old(self).size,
            final(self).chunks@ == old(self).chunks@.update(
                j as int,
                Chunk { is_generated_mesh: true, ..old(self).chunks@[j as int] },
            ),
    {
        proof {
            reveal(UpdateChunks::wf);
        }
        self.chunks[j].set_as_generated();
        assert(self.chunks@ =~= old(self).chunks@.update(
            j as int,
            Chunk { is_generated_mesh: true, ..old(self).chunks@[j as int] },
        ));
        assert(self.wf()) by {
            assert forall|i: int| 0 <= i < self.chunks@.len() implies {
                &&& (#[trigger] self.chunks@[i]).wf()
                &&& self.chunks@[i].pos == (self.pos_of(i).0 as i32, self.pos_of(i).1 as i32)
                &&& self.links_ok(self.chunks@[i], self.pos_of(i))
            } by {
                if i != j {
                    assert(self.chunks@[i] == old(self).chunks@[i]);
                }
            }
        }
    }

    /// Marks the mesh of chunk `j` out of date.
    fn mark_not_generated(&mut self, j: usize)
        requires
            old(self).wf(),
            j < old(self).chunks@.len(),
        ensures
            final(self).wf(),
            final(self).size == old(self).size,
            final(self).chunks@ == old(self).chunks@.update(
                j as int,
                Chunk { is_generated_mesh: false, ..old(self).chunks@[j as int] },
            ),
    {
        proof {
            reveal(UpdateChunks::wf);
        }
        self.chunks[j].set_to_not_generated_mesh();
        assert(self.chunks@ =~= old(self).chunks@.update(
            j as int,
            Chunk { is_generated_mesh: false, ..old(self).chunks@[j as int] },
        ));
        assert(self.wf()) by {
            assert forall|i: int| 0 <= i < self.chunks@.len() implies {
                &&& (#[trigger] self.chunks@[i]).wf()
                &&& self.chunks@[i].pos == (self.pos_of(i).0 as i32, self.pos_of(i).1 as i32)
                &&& self.links_ok(self.chunks@[i], self.pos_of(i))
            } by {
                if i != j {
                    assert(self.chunks@[i] == old(self).chunks@[i]);
                }
            }
        }
    }

    /// Block at world voxel `(x, y, z)`, or `None` outside the window.
    pub fn get(&self, x: i32, y: i32, z: i32) -> (r: Option<Block>)
        requires
            self.wf(),
        ensures
            r == self.world_block(x as int, y as int, z as int),
    {
        proof {
            self.lemma_links_in_range();
        }
        let w = CHUNK_W as i64;
        let d = CHUNK_D as i64;
        if x >= 0 && y >= 0 && z >= 0 && (x as i64) < self.size.0 as i64 * w && y < CHUNK_H as i32
            && (z as i64) < self.size.1 as i64 * d {
            let cx = x / CHUNK_W as i32;
            let cz = z / CHUNK_D as i32;
            let i = self.get_chunk_entity(cx, cz);
            Some(
                self.chunks[i].get_from_only_my(
                    (x % CHUNK_W as i32) as usize,
                    y as usize,
                    (z % CHUNK_D as i32) as usize,
                ),
            )
        } else {
            None
        }
    }

    /// Writes `block` at world voxel `(x, y, z)` as `set_in_chunk` does;
    /// outside the window nothing changes.
    pub fn set(&mut self, x: i32, y: i32, z: i32, block: Block)
        requires
            old(self).wf(),
        ensures
            final(self).wf(),
            in_world(old(self).size, x as int, y as int, z as int) ==> edited(
                old(self),
                final(self),
                slot_index(x as int / CHUNK_W as int, z as int / CHUNK_D as int, old(self).size.0 as int),
                x as int % CHUNK_W as int,
                y as int,
                z as int % CHUNK_D as int,
                block,
            ),
            !in_world(old(self).size, x as int, y as int, z as int) ==> *final(self) == *old(self),
    {
        let w = CHUNK_W as i64;
        let d = CHUNK_D as i64;
        if x >= 0 && y >= 0 && z >= 0 && (x as i64) < self.size.0 as i64 * w && y < CHUNK_H as i32
            && (z as i64) < self.size.1 as i64 * d {
            let cx = x / CHUNK_W as i32;
            let cz = z / CHUNK_D as i32;
            let i = self.get_chunk_entity(cx, cz);
            self.set_in_chunk(
                i,
                (x % CHUNK_W as i32) as usize,
                y as usize,
                (z % CHUNK_D as i32) as usize,
                block,
            );
        }
    }
}


/// Whether grid position `q` is `p` or one of its four horizontal neighbours.
pub open spec fn adjacent_or_same(p: (i32, i32), q: (i32, i32)) -> bool {
    ||| p == q
    ||| p.0 == q.0 + 1 && p.1 == q.1
    ||| p.0 == q.0 - 1 && p.1 == q.1
    ||| p.0 == q.0 && p.1 == q.1 + 1
    ||| p.0 == q.0 && p.1 == q.1 - 1
}

impl UpdateChunks {
    /// The chunk in the slot of an in-window position sits at that position.
    pub proof fn lemma_slot_pos(&self, x: int, z: int)
        requires
            self.wf(),
            0 <= x < self.size.0,
            0 <= z < self.size.1,
        ensures
            0 <= slot_index(x, z, self.size.0 as int) < self.chunks@.len(),
            self.chunks@[slot_index(x, z, self.size.0 as int)].pos == (x as i32, z as i32),
    {
        reveal(UpdateChunks::wf);
        let sx = self.size.0 as int;
        let sz = self.size.1 as int;
        let i = slot_index(x, z, sx);
        assert(i < sx * sz) by (nonlinear_arith)
            requires
                0 <= x < sx,
                0 <= z < sz,
                i == x + z * sx,
        ;
        lemma_fundamental_div_mod_converse_div(i, sx, z, x);
        lemma_fundamental_div_mod_converse_mod(i, sx, z, x);
        assert(z * sx == sx * z) by (nonlinear_arith);
    }

    /// A chunk's links name exactly the slots of the chunks beside it.
    pub proof fn lemma_links_by_pos(&self, s: int, j: int)
        requires
            self.wf(),
            0 <= s < self.chunks@.len(),
            0 <= j < self.chunks@.len(),
        ensures
            (self.chunks@[s].left_chunk == Some(j as usize)) == (self.chunks@[j].pos.0 == self.chunks@[s].pos.0 - 1
                && self.chunks@[j].pos.1 == self.chunks@[s].pos.1),
            (self.chunks@[s].right_chunk == Some(j as usize)) == (self.chunks@[j].pos.0 == self.chunks@[s].pos.0 + 1
                && self.chunks@[j].pos.1 == self.chunks@[s].pos.1),
            (self.chunks@[s].backward_chunk == Some(j as usize)) == (self.chunks@[j].pos.0 == self.chunks@[s].pos.0
                && self.chunks@[j].pos.1 == self.chunks@[s].pos.1 - 1),
            (self.chunks@[s].forward_chunk == Some(j as usize)) == (self.chunks@[j].pos.0 == self.chunks@[s].pos.0
                && self.chunks@[j].pos.1 == self.chunks@[s].pos.1 + 1),
            self.chunks@[j].pos == self.chunks@[s].pos ==> j == s,
    {
        reveal(UpdateChunks::wf);
        let sx = self.size.0 as int;
        let sz = self.size.1 as int;
        assert(sx > 0) by (nonlinear_arith)
            requires
                0 <= s < sx * sz,
                sx >= 0,
                sz >= 0,
        ;
        lemma_pos_of_in_window(s, sx, sz);
        lemma_pos_of_in_window(j, sx, sz);
        assert(sx <= MAX_CHUNKS && sz <= MAX_CHUNKS) by (nonlinear_arith)
            requires
                sx * sz <= MAX_CHUNKS,
                sx >= 1,
                sz >= 1,
        ;
        let ps = self.pos_of(s);
        let pj = self.pos_of(j);
        assert(self.chunks@[s].pos.0 as int == ps.0 && self.chunks@[s].pos.1 as int == ps.1);
        assert(self.chunks@[j].pos.0 as int == pj.0 && self.chunks@[j].pos.1 as int == pj.1);
        assert(slot_index(ps.0, ps.1 - 1, sx) == s - sx) by (nonlinear_arith)
            requires
                s == slot_index(ps.0, ps.1, sx),
        ;
        assert(slot_index(ps.0, ps.1 + 1, sx) == s + sx) by (nonlinear_arith)
            requires
                s == slot_index(ps.0, ps.1, sx),
        ;
        if pj.0 == ps.0 && pj.1 == ps.1 - 1 {
            assert(slot_index(ps.0, ps.1 - 1, sx) == slot_index(pj.0, pj.1, sx));
        }
        if pj.0 == ps.0 && pj.1 == ps.1 + 1 {
            assert(slot_index(ps.0, ps.1 + 1, sx) == slot_index(pj.0, pj.1, sx));
        }
        if ps.1 >= 1 {
            if slot_index(ps.0, ps.1 - 1, sx) == j {
                lemma_slot_index_injective(ps.0, ps.1 - 1, pj.0, pj.1, sx);
            }
        }
        if ps.1 + 1 < sz {
            if slot_index(ps.0, ps.1 + 1, sx) == j {
                lemma_slot_index_injective(ps.0, ps.1 + 1, pj.0, pj.1, sx);
            }
        }
        if ps.0 >= 1 {
            if slot_index(ps.0 - 1, ps.1, sx) == j {
                lemma_slot_index_injective(ps.0 - 1, ps.1, pj.0, pj.1, sx);
            }
        }
        if ps.0 + 1 < sx {
            if slot_index(ps.0 + 1, ps.1, sx) == j {
                lemma_slot_index_injective(ps.0 + 1, ps.1, pj.0, pj.1, sx);
            }
        }
    }

    /// Replaces the blocks of chunk `idx` and marks its mesh out of date.
    fn write_blocks(&mut self, idx: usize, data: Vec<Block>)
        requires
            old(self).wf(),
            idx < old(self).chunks@.len(),
            data@.len() == crate::chunk::CHUNK_VOLUME,
        ensures
            final(self).wf(),
            final(self).size == old(self).size,
            final(self).chunks@.len() == old(self).chunks@.len(),
            final(self).chunks@[idx as int].blocks@ == data@,
            !final(self).chunks@[idx as int].is_generated_mesh,
            final(self).chunks@[idx as int].same_frame(&old(self).chunks@[idx as int]),
            forall|k: int|
                0 <= k < final(self).chunks@.len() && k != idx ==> #[trigger] final(self).chunks@[k]
                    == old(self).chunks@[k],
    {
        proof {
            reveal(UpdateChunks::wf);
        }
        self.chunks[idx].blocks = data;
        self.chunks[idx].is_generated_mesh = false;
        assert(self.wf()) by {
            assert forall|i: int| 0 <= i < self.chunks@.len() implies {
                &&& (#[trigger] self.chunks@[i]).wf()
                &&& self.chunks@[i].pos == (self.pos_of(i).0 as i32, self.pos_of(i).1 as i32)
                &&& self.links_ok(self.chunks@[i], self.pos_of(i))
            } by {
                if i != idx {
                    assert(self.chunks@[i] == old(self).chunks@[i]);
                }
            }
        }
    }

    /// Replaces the blocks of chunk `idx` and marks it and its four
    /// neighbours as needing a new mesh.
    pub fn replace_data(&mut self, idx: usize, data: Vec<Block>)
        requires
            old(self).wf(),
            idx < old(self).chunks@.len(),
            data@.len() == crate::chunk::CHUNK_VOLUME,
        ensures
            final(self).wf(),
            final(self).size == old(self).size,
            final(self).chunks@.len() == old(self).chunks@.len(),
            forall|j: int|
                0 <= j < final(self).chunks@.len() ==> {
                    &&& (#[trigger] final(self).chunks@[j]).same_frame(&old(self).chunks@[j])
                    &&& final(self).chunks@[j].blocks@ == (if j == idx {
                        data@
                    } else {
                        old(self).chunks@[j].blocks@
                    })
                    &&& final(self).chunks@[j].is_generated_mesh == (old(self).chunks@[j].is_generated_mesh
                        && !adjacent_or_same(old(self).chunks@[idx as int].pos, old(self).chunks@[j].pos))
                },
    {
        proof {
            self.lemma_links_in_range();
        }
        let ghost start = *self;
        let left = self.chunks[idx].left_chunk;
        let right = self.chunks[idx].right_chunk;
        let backward = self.chunks[idx].backward_chunk;
        let forward = self.chunks[idx].forward_chunk;
        self.write_blocks(idx, data);
        let ghost c = start.chunks@[idx as int];
        let ghost n = self.chunks@.len();
        let ghost mid = *self;
        assert(forall|j: int| 0 <= j < n && j != idx ==> #[trigger] self.chunks@[j] == marked(start.chunks@[j], false));
        if let Some(j) = left {
            self.mark_not_generated(j);
        }
        assert(forall|j: int| 0 <= j < n && j != idx ==> #[trigger] self.chunks@[j] == marked(
            start.chunks@[j],
            c.left_chunk == Some(j as usize),
        ));
        if let Some(j) = right {
            self.mark_not_generated(j);
        }
        assert(forall|j: int| 0 <= j < n && j != idx ==> #[trigger] self.chunks@[j] == marked(
            start.chunks@[j],
            c.left_chunk == Some(j as usize) || c.right_chunk == Some(j as usize),
        ));
        if let Some(j) = backward {
            self.mark_not_generated(j);
        }
        assert(forall|j: int| 0 <= j < n && j != idx ==> #[trigger] self.chunks@[j] == marked(
            start.chunks@[j],
            c.left_chunk == Some(j as usize) || c.right_chunk == Some(j as usize) || c.backward_chunk == Some(
                j as usize,
            ),
        ));
        if let Some(j) = forward {
            self.mark_not_generated(j);
        }
        assert(forall|j: int| 0 <= j < n && j != idx ==> #[trigger] self.chunks@[j] == marked(
            start.chunks@[j],
            c.left_chunk == Some(j as usize) || c.right_chunk == Some(j as usize) || c.backward_chunk == Some(
                j as usize,
            ) || c.forward_chunk == Some(j as usize),
        ));
        assert(self.chunks@[idx as int] == mid.chunks@[idx as int]);
        proof {
            assert forall|j: int| 0 <= j < self.chunks@.len() implies {
                &&& (#[trigger] self.chunks@[j]).same_frame(&start.chunks@[j])
                &&& self.chunks@[j].blocks@ == (if j == idx {
                    data@
                } else {
                    start.chunks@[j].blocks@
                })
                &&& self.chunks@[j].is_generated_mesh == (start.chunks@[j].is_generated_mesh
                    && !adjacent_or_same(start.chunks@[idx as int].pos, start.chunks@[j].pos))
            } by {
                start.lemma_links_by_pos(idx as int, j);
            }
        }
    }
}

/// An edit strictly inside a chunk (off its four vertical sides) marks only
/// that chunk as needing a new mesh.
pub proof fn lemma_interior_edit(
    old: &UpdateChunks,
    new: &UpdateChunks,
    idx: int,
    x: int,
    y: int,
    z: int,
    block: Block,
)
    requires
        edited(old, new, idx, x, y, z, block),
        0 < x < CHUNK_W - 1,
        0 < z < CHUNK_D - 1,
    ensures
        forall|j: int|
            0 <= j < new.chunks@.len() && j != idx ==> (#[trigger] new.chunks@[j]).is_generated_mesh
                == old.chunks@[j].is_generated_mesh,
{
}

/// An edit on a chunk's side marks each neighbour across an edited side as
/// needing a new mesh.
pub proof fn lemma_boundary_edit(
    old: &UpdateChunks,
    new: &UpdateChunks,
    idx: int,
    x: int,
    y: int,
    z: int,
    block: Block,
)
    requires
        edited(old, new, idx, x, y, z, block),
    ensures
        forall|j: int|
            0 <= j < new.chunks@.len() && j != idx && touches(old.chunks@[idx], x, z, j)
                ==> !(#[trigger] new.chunks@[j]).is_generated_mesh,
{
}
/// The window the game starts with: five by five air chunks.
pub fn spawn_chunks() -> (r: UpdateChunks)
    ensures
        r.wf(),
        r.size == (5u32, 5u32),
        forall|i: int| 0 <= i < r.chunks@.len() ==> (#[trigger] r.chunks@[i]).blocks@ == crate::chunk::all_air(),
{
    UpdateChunks::new_air_with_size((5, 5))
}

} // verus!
