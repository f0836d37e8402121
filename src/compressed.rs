use vstd::prelude::*;

use crate::block::{Block, BlockId};
use crate::chunk::CHUNK_VOLUME;

verus! {

/// Archive value of one block: `0` for air, `id + 1` for a solid block.
pub open spec fn encode_block(b: Block) -> u32 {
    match b {
        Block::Air => 0,
        Block::Solid(id) => (id.0 + 1) as u32,
    }
}

/// Block of one archive value: the inverse of `encode_block`.
pub open spec fn decode_block(v: u32) -> Block {
    if v == 0 {
        Block::Air
    } else {
        Block::Solid(BlockId((v - 1) as u32))
    }
}

/// A block can be archived unless its id is `u32::MAX`, whose `id + 1` would not fit.
pub open spec fn encodable_block(b: Block) -> bool {
    match b {
        Block::Air => true,
        Block::Solid(id) => id.0 < u32::MAX,
    }
}

/// A block grid that `compress` accepts: one block per voxel, each encodable.
pub open spec fn encodable_grid(g: Seq<Block>) -> bool {
    &&& g.len() == CHUNK_VOLUME
    &&& forall|i: int| 0 <= i < g.len() ==> encodable_block(#[trigger] g[i])
}

/// Archived form of a chunk's block grid: one `u32` per voxel.
pub struct CompressedChunk {
    pub blocks: Vec<u32>,
}

impl CompressedChunk {
    pub open spec fn wf(&self) -> bool {
        self.blocks@.len() == CHUNK_VOLUME
    }

    /// Encodes every voxel of `chunk` with `encode_block`.
    pub fn compress(chunk: &Vec<Block>) -> (r: CompressedChunk)
        requires
            encodable_grid(chunk@),
        ensures
            r.wf(),
            r.blocks@ == chunk@.map_values(|b: Block| encode_block(b)),
    {
        let mut blocks: Vec<u32> = Vec::new();
        let mut i: usize = 0;
        while i < chunk.len()
            invariant
                encodable_grid(chunk@),
                i <= chunk@.len(),
                blocks@ == chunk@.subrange(0, i as int).map_values(|b: Block| encode_block(b)),
            decreases chunk@.len() - i,
        {
            let v: u32 = match chunk[i] {
                Block::Solid(id) => id.0 + 1,
                Block::Air => 0,
            };
            blocks.push(v);
            i = i + 1;
            assert(blocks@ =~= chunk@.subrange(0, i as int).map_values(
                |b: Block| encode_block(b),
            ));
        }
        assert(chunk@.subrange(0, i as int) =~= chunk@);
        CompressedChunk { blocks }
    }

    /// Decodes every voxel with `decode_block`.
    pub fn decompress(&self) -> (r: Vec<Block>)
        requires
            self.wf(),
        ensures
            r@.len() == CHUNK_VOLUME,
            r@ == self.blocks@.map_values(|v: u32| decode_block(v)),
    {
        let mut blocks: Vec<Block> = Vec::new();
        let mut i: usize = 0;
        while i < self.blocks.len()
            invariant
                i <= self.blocks@.len(),
                blocks@ == self.blocks@.subrange(0, i as int).map_values(|v: u32| decode_block(v)),
            decreases self.blocks@.len() - i,
        {
            let v = self.blocks[i];
            let b = if v == 0 {
                Block::Air
            } else {
                Block::Solid(BlockId(v - 1))
            };
            blocks.push(b);
            i = i + 1;
            assert(blocks@ =~= self.blocks@.subrange(0, i as int).map_values(
                |v: u32| decode_block(v),
            ));
        }
        assert(self.blocks@.subrange(0, i as int) =~= self.blocks@);
        blocks
    }
}

/// Decoding an encoded block gives the block back.
pub proof fn lemma_decode_encode(b: Block)
    requires
        encodable_block(b),
    ensures
        decode_block(encode_block(b)) == b,
{
}

/// Round trip: decompressing the compression of an encodable grid gives the
/// same grid, voxel for voxel, air included.
pub proof fn lemma_round_trip(g: Seq<Block>)
    requires
        encodable_grid(g),
    ensures
        g.map_values(|b: Block| encode_block(b)).map_values(|v: u32| decode_block(v)) == g,
{
    assert forall|i: int| 0 <= i < g.len() implies g.map_values(
        |b: Block| encode_block(b),
    ).map_values(|v: u32| decode_block(v))[i] == g[i] by {
        lemma_decode_encode(g[i]);
    }
    assert(g.map_values(|b: Block| encode_block(b)).map_values(|v: u32| decode_block(v)) =~= g);
}

/// Encoding: air is stored as `0`, a solid block as its id plus one, so `0`
/// never stands for a solid block.
pub proof fn lemma_encoding(id: BlockId)
    requires
        id.0 < u32::MAX,
    ensures
        encode_block(Block::Air) == 0,
        encode_block(Block::Solid(id)) == id.0 + 1,
        encode_block(Block::Solid(id)) != 0,
{
}

} // verus!
