use vstd::prelude::*;

use crate::block::{Block, BlockId};
use crate::catalog::{BlockStorage, make_unknown_name};
use crate::chunk::{Chunk, block_index, in_chunk};

verus! {

/// What the player can ask for.
#[derive(Clone, Copy, PartialEq, Eq, Hash, Debug, Structural)]
pub enum PlayerActions {
    Move,
    Up,
    Down,
    GrabCursor,
    UnGrabCursor,
    ViewMotion,
    PlaceBlock,
    HurtBlock,
}

/// Name of the block type the player places.
pub struct SelectedBlock(pub String);

pub open spec fn grass() -> Seq<char> {
    seq!['g', 'r', 'a', 's', 's']
}

pub open spec fn dirt() -> Seq<char> {
    seq!['d', 'i', 'r', 't']
}

pub open spec fn cobblestone() -> Seq<char> {
    seq!['c', 'o', 'b', 'b', 'l', 'e', 's', 't', 'o', 'n', 'e']
}

impl SelectedBlock {
    /// Grass is selected at first.
    pub fn new() -> (r: SelectedBlock)
        ensures
            r.0@ == grass(),
    {
        proof {
            reveal_strlit("grass");
        }
        let s = "grass".to_owned();
        assert(s@ =~= grass());
        SelectedBlock(s)
    }

    /// Digit keys 1, 2 and 3 select grass, dirt and cobblestone; any other
    /// key keeps the selection.
    pub fn select(&mut self, digit: u8)
        ensures
            digit == 1 ==> final(self).0@ == grass(),
            digit == 2 ==> final(self).0@ == dirt(),
            digit == 3 ==> final(self).0@ == cobblestone(),
            !(1 <= digit <= 3) ==> final(self).0@ == old(self).0@,
    {
        if digit == 1 {
            proof {
                reveal_strlit("grass");
            }
            self.0 = "grass".to_owned();
            assert(self.0@ =~= grass());
        } else if digit == 2 {
            proof {
                reveal_strlit("dirt");
            }
            self.0 = "dirt".to_owned();
            assert(self.0@ =~= dirt());
        } else if digit == 3 {
            proof {
                reveal_strlit("cobblestone");
            }
            self.0 = "cobblestone".to_owned();
            assert(self.0@ =~= cobblestone());
        }
    }

    /// Id of the selected type, or of the fallback type when the catalog
    /// does not know the name.
    pub fn block_id(&self, storage: &BlockStorage) -> (r: BlockId)
        requires
            storage.wf(),
        ensures
            r == (match storage.id_of(self.0@) {
                Some(id) => id,
                None => storage.unknown_id(),
            }),
    {
        match storage.get_id_by_name(&self.0) {
            Some(id) => id,
            None => {
                let unknown = make_unknown_name();
                match storage.get_id_by_name(&unknown) {
                    Some(u) => u,
                    None => {
                        assert(false);
                        BlockId(0)
                    },
                }
            },
        }
    }
}

pub type Cell = (i32, i32, i32);

pub open spec fn solid_cell(c: &Chunk, p: Cell) -> bool {
    in_chunk(p.0 as int, p.1 as int, p.2 as int) && c.block_at(p.0 as int, p.1 as int, p.2 as int) is Solid
}

/// Along the cells a ray visits, in order, the first solid one and the cell
/// visited just before it (the first cell itself when it is solid).
pub fn pick_block(chunk: &Chunk, cells: &Vec<Cell>) -> (r: Option<(Cell, Cell)>)
    requires
        chunk.wf(),
    ensures
        match r {
            Some((hit, prev)) => exists|k: int|
                0 <= k < cells@.len() && #[trigger] cells@[k] == hit && solid_cell(chunk, hit)
                    && prev == (if k == 0 { cells@[0] } else { cells@[k - 1] })
                    && forall|i: int| 0 <= i < k ==> !solid_cell(chunk, #[trigger] cells@[i]),
            None => forall|i: int| 0 <= i < cells@.len() ==> !solid_cell(chunk, #[trigger] cells@[i]),
        },
{
    let mut k: usize = 0;
    while k < cells.len()
        invariant
            chunk.wf(),
            k <= cells@.len(),
            forall|i: int| 0 <= i < k ==> !solid_cell(chunk, #[trigger] cells@[i]),
        decreases cells@.len() - k,
    {
        let p = cells[k];
        if let Some(Block::Solid(_)) = chunk.get_i32(p.0, p.1, p.2) {
            let prev = if k == 0 {
                cells[0]
            } else {
                cells[k - 1]
            };
            assert(cells@[k as int] == p);
            return Some((p, prev));
        }
        k = k + 1;
    }
    None
}

/// `s` with `b` written at cell `p`, when `p` lies in the chunk.
pub open spec fn put(s: Seq<Block>, p: Cell, b: Block) -> Seq<Block> {
    if in_chunk(p.0 as int, p.1 as int, p.2 as int) {
        s.update(block_index(p.0 as int, p.1 as int, p.2 as int), b)
    } else {
        s
    }
}

/// Applies the player's edit: placing puts block `id` in the cell before the
/// hit one (unless that is the hit cell itself), hurting clears the hit cell.
/// Any edit marks the chunk's mesh out of date.
pub fn player_edit(chunk: &mut Chunk, hit: Cell, prev: Cell, place: bool, hurt: bool, id: BlockId)
    requires
        old(chunk).wf(),
    ensures
        final(chunk).wf(),
        final(chunk).same_frame(old(chunk)),
        ({
            let placed = if place && prev != hit {
                put(old(chunk).blocks@, prev, Block::Solid(id))
            } else {
                old(chunk).blocks@
            };
            final(chunk).blocks@ == (if hurt {
                put(placed, hit, Block::Air)
            } else {
                placed
            })
        }),
        final(chunk).is_generated_mesh == (old(chunk).is_generated_mesh && !(place && prev != hit) && !hurt),
{
    let same = prev.0 == hit.0 && prev.1 == hit.1 && prev.2 == hit.2;
    if place && !same {
        chunk.set_i32(prev.0, prev.1, prev.2, Block::Solid(id));
        chunk.set_to_not_generated_mesh();
    }
    if hurt {
        chunk.set_i32(hit.0, hit.1, hit.2, Block::Air);
        chunk.set_to_not_generated_mesh();
    }
}

} // verus!
