use vstd::prelude::*;
use std::collections::HashMap;

use crate::block::{Block, BlockId};
use crate::catalog::{BlockStorage, make_unknown_name, unknown_name};
use crate::chunk::{CHUNK_VOLUME, block_index};
use crate::compressed::{CompressedChunk, decode_block, encodable_grid, lemma_round_trip};
use crate::mesher::{lemma_voxel_of, voxel_of};

verus! {

/// Name of the block type the generator lays down.
pub open spec fn grass_name() -> Seq<char> {
    seq!['g', 'r', 'a', 's', 's']
}

/// Block id the generator lays down: `"grass"`, or the fallback type when
/// the catalog has no grass.
pub open spec fn ground_id(cat: &BlockStorage) -> BlockId {
    match cat.id_of(grass_name()) {
        Some(id) => id,
        None => cat.unknown_id(),
    }
}

/// Height of the ground of a chunk whose grid row is `z`: the remainder of
/// `z` by 5, rounded towards zero as Rust's `%` does.
pub open spec fn ground_top(z: int) -> int {
    if z >= 0 {
        z % 5
    } else {
        -((-z) % 5)
    }
}

/// The grid the generator makes at `pos`: solid `id` up to and including
/// layer `ground_top(pos.1)`, air above.
pub open spec fn generated_grid(pos: (i32, i32), id: BlockId) -> Seq<Block> {
    Seq::new(
        CHUNK_VOLUME as nat,
        |i: int|
            if voxel_of(i).1 <= ground_top(pos.1 as int) {
                Block::Solid(id)
            } else {
                Block::Air
            },
    )
}

/// World generator: a pure function of the grid position and the catalog.
pub fn generate(pos: (i32, i32), storage: &BlockStorage) -> (r: Vec<Block>)
    requires
        storage.wf(),
    ensures
        r@ == generated_grid(pos, ground_id(storage)),
        encodable_grid(r@),
{
    proof {
        storage.lemma_id_of_registered(grass_name());
        storage.lemma_id_of_registered(unknown_name());
        reveal_strlit("grass");
    }
    let grass = "grass".to_owned();
    assert(grass@ =~= grass_name());
    let id = match storage.get_id_by_name(&grass) {
        Some(id) => id,
        None => {
            let unknown = make_unknown_name();
            match storage.get_id_by_name(&unknown) {
                Some(u) => u,
                None => {
                    assert(false);
                    BlockId(0)
                },
            }
        },
    };
    let top: i64 = if pos.1 >= 0 {
        pos.1 as i64 % 5
    } else {
        -((-(pos.1 as i64)) % 5)
    };
    assert(top == ground_top(pos.1 as int));
    let ghost g = generated_grid(pos, id);
    let mut blocks: Vec<Block> = Vec::new();
    let mut x: i32 = 0;
    let mut y: i32 = 0;
    let mut z: i32 = 0;
    let mut i: usize = 0;
    while i < CHUNK_VOLUME
        invariant
            g == generated_grid(pos, id),
            top == ground_top(pos.1 as int),
            0 <= x < 16,
            0 <= z < 16,
            0 <= y <= 16,
            y == 16 ==> x == 0 && z == 0,
            i == block_index(x as int, y as int, z as int),
            i <= CHUNK_VOLUME,
            blocks@ == g.subrange(0, i as int),
        decreases CHUNK_VOLUME - i,
    {
        proof {
            lemma_voxel_of(x as int, y as int, z as int);
        }
        if y as i64 <= top {
            blocks.push(Block::Solid(id));
        } else {
            blocks.push(Block::Air);
        }
        i = i + 1;
        assert(blocks@ =~= g.subrange(0, i as int));
        x = x + 1;
        if x == 16 {
            x = 0;
            z = z + 1;
            if z == 16 {
                z = 0;
                y = y + 1;
            }
        }
    }
    assert(g.subrange(0, i as int) =~= g);
    blocks
}

/// Archive key of grid position `pos`; distinct positions get distinct keys.
pub open spec fn pos_key(pos: (i32, i32)) -> u64 {
    ((pos.0 + 0x8000_0000) * 0x1_0000_0000 + (pos.1 + 0x8000_0000)) as u64
}

pub fn pos_key_of(pos: (i32, i32)) -> (r: u64)
    ensures
        r == pos_key(pos),
{
    let hi = (pos.0 as i64 + 0x8000_0000) as u64;
    let lo = (pos.1 as i64 + 0x8000_0000) as u64;
    assert(hi * 0x1_0000_0000 + lo <= u64::MAX) by (nonlinear_arith)
        requires
            hi < 0x1_0000_0000,
            lo < 0x1_0000_0000,
    ;
    hi * 0x1_0000_0000 + lo
}

pub proof fn lemma_pos_key_injective(p: (i32, i32), q: (i32, i32))
    requires
        pos_key(p) == pos_key(q),
    ensures
        p == q,
{
    let a = p.0 + 0x8000_0000;
    let b = p.1 + 0x8000_0000;
    let c = q.0 + 0x8000_0000;
    let d = q.1 + 0x8000_0000;
    assert(a == c && b == d) by (nonlinear_arith)
        requires
            0 <= a < 0x1_0000_0000,
            0 <= b < 0x1_0000_0000,
            0 <= c < 0x1_0000_0000,
            0 <= d < 0x1_0000_0000,
            a * 0x1_0000_0000 + b == c * 0x1_0000_0000 + d,
    ;
}

/// The archive of generated chunks, keyed by `pos_key` of their grid position.
pub struct ChunksStorage {
    pub chunks: HashMap<u64, CompressedChunk>,
}

impl ChunksStorage {
    pub open spec fn wf(&self) -> bool {
        forall|k: u64| #[trigger] self.chunks@.contains_key(k) ==> self.chunks@[k].wf()
    }

    pub open spec fn archived(&self, pos: (i32, i32)) -> bool {
        self.chunks@.contains_key(pos_key(pos))
    }

    /// The grid archived for `pos`, decompressed.
    pub open spec fn archived_grid(&self, pos: (i32, i32)) -> Seq<Block> {
        self.chunks@[pos_key(pos)].blocks@.map_values(|v: u32| decode_block(v))
    }

    /// The grid `get` returns for `pos`: the archived one, or else a fresh one
    /// from the generator.
    pub open spec fn grid_for(&self, pos: (i32, i32), cat: &BlockStorage) -> Seq<Block> {
        if self.archived(pos) {
            self.archived_grid(pos)
        } else {
            generated_grid(pos, ground_id(cat))
        }
    }

    /// An empty archive.
    pub fn new() -> (r: ChunksStorage)
        ensures
            r.wf(),
            r.chunks@ == Map::<u64, CompressedChunk>::empty(),
    {
        ChunksStorage { chunks: HashMap::new() }
    }

    /// Block grid of grid position `pos`. An archived position is decompressed
    /// and the archive left as it is; otherwise the generator runs once and its
    /// grid is archived, compressed, under `pos`.
    pub fn get(&mut self, pos: (i32, i32), block_storage: &BlockStorage) -> (r: Vec<Block>)
        requires
            old(self).wf(),
            block_storage.wf(),
        ensures
            final(self).wf(),
            r@ == old(self).grid_for(pos, block_storage),
            r@.len() == CHUNK_VOLUME,
            final(self).archived(pos),
            final(self).archived_grid(pos) == r@,
            old(self).archived(pos) ==> final(self).chunks@ == old(self).chunks@,
            !old(self).archived(pos) ==> final(self).chunks@.remove(pos_key(pos)) == old(self).chunks@,
    {
        let key = pos_key_of(pos);
        match self.chunks.get(&key) {
            Some(compressed_chk) => compressed_chk.decompress(),
            None => {
                let new = generate(pos, block_storage);
                let c = CompressedChunk::compress(&new);
                proof {
                    lemma_round_trip(new@);
                }
                self.chunks.insert(key, c);
                assert(self.chunks@.remove(key) =~= old(self).chunks@);
                new
            },
        }
    }
}


/// The generator is deterministic: at one position, two catalogs that bind
/// names to ids alike yield identical grids.
pub proof fn lemma_generate_deterministic(pos: (i32, i32), c1: &BlockStorage, c2: &BlockStorage)
    requires
        c1.name_binds@ == c2.name_binds@,
    ensures
        generated_grid(pos, ground_id(c1)) == generated_grid(pos, ground_id(c2)),
{
}

/// Once a position is archived, fetching it again answers from the archive
/// whatever the catalog holds, so the generator never runs twice for it.
pub proof fn lemma_fetch_again(s: &ChunksStorage, pos: (i32, i32), c1: &BlockStorage, c2: &BlockStorage)
    requires
        s.archived(pos),
    ensures
        s.grid_for(pos, c1) == s.archived_grid(pos),
        s.grid_for(pos, c2) == s.archived_grid(pos),
{
}
} // verus!
