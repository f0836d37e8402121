use vstd::prelude::*;
use vstd::arithmetic::div_mod::{
    lemma_div_denominator,
    lemma_div_pos_is_pos,
    lemma_fundamental_div_mod,
    lemma_fundamental_div_mod_converse_div,
    lemma_fundamental_div_mod_converse_mod,
    lemma_mod_bound,
};

use crate::block::Block;
use crate::chunk::{CHUNK_D, CHUNK_H, CHUNK_VOLUME, CHUNK_W, block_index, in_chunk, lemma_block_index_bounds, lemma_block_index_injective};
use crate::catalog::{BlockStorage, BlockType};
use crate::chunk::Chunk;
use crate::mesh::{Mesh, MeshV, Pos, Side, quad, small_mesh, void_mesh};
use crate::wide::{bit256, get_bit_u256, set_bit_u256, u256_and, u256_not, u256_of_bool, u256_shl, u256_shr};
use crate::world::UpdateChunks;

verus! {

/// Whether the voxel at `(x, y, z)` around chunk `idx` is solid.
pub open spec fn solid_around(w: &UpdateChunks, idx: int, x: int, y: int, z: int) -> bool {
    w.block_around(idx, x, y, z) is Solid
}

/// Unit step from a voxel towards the neighbour that face `side` looks at.
pub open spec fn side_step(side: Side) -> (int, int, int) {
    match side {
        Side::Left => (-1, 0, 0),
        Side::Right => (1, 0, 0),
        Side::Bottom => (0, -1, 0),
        Side::Top => (0, 1, 0),
        Side::Forward => (0, 0, -1),
        Side::Back => (0, 0, 1),
    }
}

/// Face `side` of voxel `(x, y, z)` of chunk `idx` is drawn exactly when
/// the voxel is solid and the neighbour it looks at is not.
pub open spec fn face_visible(w: &UpdateChunks, idx: int, x: int, y: int, z: int, side: Side) -> bool {
    let d = side_step(side);
    solid_around(w, idx, x, y, z) && !solid_around(w, idx, x + d.0, y + d.1, z + d.2)
}

/// Bit `i` of a 32-bit mask.
pub open spec fn bit32(m: u32, i: u32) -> bool {
    (m >> i) & 1u32 == 1u32
}

proof fn lemma_bit32_set(m: u32, n: u32, i: u32)
    by (bit_vector)
    requires
        n < 32,
        i < 32,
    ensures
        bit32(m | (1u32 << n), i) == (bit32(m, i) || i == n),
{
}

proof fn lemma_bit32_zero(i: u32)
    by (bit_vector)
    requires
        i < 32,
    ensures
        !bit32(0u32, i),
{
}

/// Sets bit `n` of `num` when `x` holds; other bits are kept.
pub fn set_bit_u32(num: &mut u32, n: u32, x: bool)
    requires
        n < 32,
    ensures
        forall|i: u32| i < 32 ==> #[trigger] bit32(*final(num), i) == (bit32(*old(num), i) || (i == n && x)),
{
    let before = *num;
    if x {
        *num = *num | (1u32 << n);
    }
    assert forall|i: u32| i < 32 implies #[trigger] bit32(*num, i) == (bit32(before, i) || (i == n && x)) by {
        lemma_bit32_set(before, n, i);
    }
}

/// Whether bit `n` of `num` is set.
pub fn get_bit_u32(num: u32, n: u32) -> (r: bool)
    requires
        n < 32,
    ensures
        r == bit32(num, n),
{
    (num >> n) & 1u32 == 1u32
}

/// A bit of `!(m << 1) & m` is set where `m`'s bit is set and the one below is clear.
proof fn lemma_bit32_low_edge(m: u32, i: u32)
    by (bit_vector)
    requires
        1 <= i < 32,
    ensures
        bit32(!(m << 1u32) & m, i) == (bit32(m, i) && !bit32(m, (i - 1) as u32)),
{
}

/// A bit of `!(m >> 1) & m` is set where `m`'s bit is set and the one above is clear.
proof fn lemma_bit32_high_edge(m: u32, i: u32)
    by (bit_vector)
    requires
        i < 31,
    ensures
        bit32(!(m >> 1u32) & m, i) == (bit32(m, i) && !bit32(m, (i + 1) as u32)),
{
}

/// Slot of column `(a, b)` in a 16 by 16 table of columns.
pub open spec fn col(a: int, b: int) -> int {
    a * 16 + b
}

/// Occupancy of the row along x through `(y, z)`, one padding voxel on each
/// side: bit `j` tells whether x = j - 1 is solid.
fn x_column(w: &UpdateChunks, idx: usize, y: i32, z: i32) -> (m: u32)
    requires
        w.wf(),
        idx < w.chunks@.len(),
    ensures
        forall|j: u32| j < 18 ==> #[trigger] bit32(m, j) == solid_around(w, idx as int, j - 1, y as int, z as int),
{
    let mut m: u32 = 0;
    let mut j: u32 = 0;
    assert forall|k: u32| j <= k < 32 implies !#[trigger] bit32(m, k) by {
        lemma_bit32_zero(k);
    }
    while j < 18
        invariant
            w.wf(),
            idx < w.chunks@.len(),
            j <= 18,
            forall|k: u32| k < j ==> #[trigger] bit32(m, k) == solid_around(w, idx as int, k - 1, y as int, z as int),
            forall|k: u32| j <= k < 32 ==> !#[trigger] bit32(m, k),
        decreases 18 - j,
    {
        let b = w.get_around(idx, j as i32 - 1, y, z).is_solid();
        set_bit_u32(&mut m, j, b);
        j = j + 1;
    }
    m
}

/// Occupancy of the row along z through `(x, y)`: bit `j` tells whether z = j - 1 is solid.
fn z_column(w: &UpdateChunks, idx: usize, x: i32, y: i32) -> (m: u32)
    requires
        w.wf(),
        idx < w.chunks@.len(),
    ensures
        forall|j: u32| j < 18 ==> #[trigger] bit32(m, j) == solid_around(w, idx as int, x as int, y as int, j - 1),
{
    let mut m: u32 = 0;
    let mut j: u32 = 0;
    assert forall|k: u32| j <= k < 32 implies !#[trigger] bit32(m, k) by {
        lemma_bit32_zero(k);
    }
    while j < 18
        invariant
            w.wf(),
            idx < w.chunks@.len(),
            j <= 18,
            forall|k: u32| k < j ==> #[trigger] bit32(m, k) == solid_around(w, idx as int, x as int, y as int, k - 1),
            forall|k: u32| j <= k < 32 ==> !#[trigger] bit32(m, k),
        decreases 18 - j,
    {
        let b = w.get_around(idx, x, y, j as i32 - 1).is_solid();
        set_bit_u32(&mut m, j, b);
        j = j + 1;
    }
    m
}

/// Occupancy of the column along y through `(x, z)`, in a 256-bit mask:
/// bit `j` tells whether y = j - 1 is solid.
fn y_column(w: &UpdateChunks, idx: usize, x: i32, z: i32) -> (m: [u64; 4])
    requires
        w.wf(),
        idx < w.chunks@.len(),
    ensures
        forall|j: int| 0 <= j < 256 ==> #[trigger] bit256(m, j) == (j < 18 && solid_around(w, idx as int, x as int, j - 1, z as int)),
{
    let mut m: [u64; 4] = u256_of_bool(false);
    let mut j: u32 = 0;
    while j < 18
        invariant
            w.wf(),
            idx < w.chunks@.len(),
            j <= 18,
            forall|k: int| 0 <= k < 256 ==> #[trigger] bit256(m, k) == (k < j && solid_around(w, idx as int, x as int, k - 1, z as int)),
        decreases 18 - j,
    {
        let b = w.get_around(idx, x, j as i32 - 1, z).is_solid();
        m = set_bit_u256(m, j, b);
        j = j + 1;
    }
    m
}


/// `l` and `r` mark, at bit `x + 1`, the left and right faces of row `(y, z)`.
pub open spec fn x_edges_ok(l: u32, r: u32, w: &UpdateChunks, idx: int, y: int, z: int) -> bool {
    forall|x: int|
        0 <= x < 16 ==> {
            &&& bit32(l, (x + 1) as u32) == #[trigger] face_visible(w, idx, x, y, z, Side::Left)
            &&& bit32(r, (x + 1) as u32) == face_visible(w, idx, x, y, z, Side::Right)
        }
}

/// `f` and `b` mark, at bit `z + 1`, the forward and back faces of row `(x, y)`.
pub open spec fn z_edges_ok(f: u32, b: u32, w: &UpdateChunks, idx: int, y: int, x: int) -> bool {
    forall|z: int|
        0 <= z < 16 ==> {
            &&& bit32(f, (z + 1) as u32) == #[trigger] face_visible(w, idx, x, y, z, Side::Forward)
            &&& bit32(b, (z + 1) as u32) == face_visible(w, idx, x, y, z, Side::Back)
        }
}

/// `d` and `u` mark, at bit `y + 1`, the bottom and top faces of column `(x, z)`.
pub open spec fn y_edges_ok(d: [u64; 4], u: [u64; 4], w: &UpdateChunks, idx: int, z: int, x: int) -> bool {
    forall|y: int|
        0 <= y < 16 ==> {
            &&& bit256(d, y + 1) == #[trigger] face_visible(w, idx, x, y, z, Side::Bottom)
            &&& bit256(u, y + 1) == face_visible(w, idx, x, y, z, Side::Top)
        }
}

/// Left and right face masks of every row along x, row `(y, z)` in slot `col(y, z)`.
fn x_edges(w: &UpdateChunks, idx: usize) -> (r: (Vec<u32>, Vec<u32>))
    requires
        w.wf(),
        idx < w.chunks@.len(),
    ensures
        r.0@.len() == 256,
        r.1@.len() == 256,
        forall|a: int, b: int|
            0 <= a < 16 && 0 <= b < 16 ==> #[trigger] x_edges_ok(r.0@[col(a, b)], r.1@[col(a, b)], w, idx as int, a, b),
{
    let mut ls: Vec<u32> = Vec::new();
    let mut rs: Vec<u32> = Vec::new();
    let mut a: i32 = 0;
    let mut b: i32 = 0;
    while a < 16
        invariant
            w.wf(),
            idx < w.chunks@.len(),
            0 <= a <= 16,
            0 <= b < 16,
            a == 16 ==> b == 0,
            ls@.len() == col(a as int, b as int),
            rs@.len() == ls@.len(),
            forall|a2: int, b2: int|
                0 <= a2 < 16 && 0 <= b2 < 16 && col(a2, b2) < ls@.len() ==> #[trigger] x_edges_ok(
                    ls@[col(a2, b2)],
                    rs@[col(a2, b2)],
                    w,
                    idx as int,
                    a2,
                    b2,
                ),
        decreases 256 - col(a as int, b as int),
    {
        let m = x_column(w, idx, a, b);
        let l = !(m << 1u32) & m;
        let r = !(m >> 1u32) & m;
        assert forall|x: int| 0 <= x < 16 implies {
            &&& bit32(l, (x + 1) as u32) == #[trigger] face_visible(w, idx as int, x, a as int, b as int, Side::Left)
            &&& bit32(r, (x + 1) as u32) == face_visible(w, idx as int, x, a as int, b as int, Side::Right)
        } by {
            lemma_bit32_low_edge(m, (x + 1) as u32);
            lemma_bit32_high_edge(m, (x + 1) as u32);
            assert(bit32(m, (x + 1) as u32) == solid_around(w, idx as int, x, a as int, b as int));
            assert(bit32(m, x as u32) == solid_around(w, idx as int, x - 1, a as int, b as int));
            assert(bit32(m, (x + 2) as u32) == solid_around(w, idx as int, x + 1, a as int, b as int));
        }
        let ghost before_a = ls@;
        let ghost before_b = rs@;
        ls.push(l);
        rs.push(r);
        proof {
            let n = col(a as int, b as int);
            assert forall|a2: int, b2: int|
                0 <= a2 < 16 && 0 <= b2 < 16 && col(a2, b2) < ls@.len() implies #[trigger] x_edges_ok(
                    ls@[col(a2, b2)],
                    rs@[col(a2, b2)],
                    w,
                    idx as int,
                    a2,
                    b2,
                ) by {
                if col(a2, b2) == n {
                    assert(a2 == a && b2 == b);
                } else {
                    assert(ls@[col(a2, b2)] == before_a[col(a2, b2)]);
                    assert(rs@[col(a2, b2)] == before_b[col(a2, b2)]);
                }
            }
        }
        b = b + 1;
        if b == 16 {
            b = 0;
            a = a + 1;
        }
    }
    (ls, rs)
}

/// Forward and back face masks of every row along z, row `(x, y)` in slot `col(y, x)`.
fn z_edges(w: &UpdateChunks, idx: usize) -> (r: (Vec<u32>, Vec<u32>))
    requires
        w.wf(),
        idx < w.chunks@.len(),
    ensures
        r.0@.len() == 256,
        r.1@.len() == 256,
        forall|a: int, b: int|
            0 <= a < 16 && 0 <= b < 16 ==> #[trigger] z_edges_ok(r.0@[col(a, b)], r.1@[col(a, b)], w, idx as int, a, b),
{
    let mut fs: Vec<u32> = Vec::new();
    let mut bs: Vec<u32> = Vec::new();
    let mut a: i32 = 0;
    let mut b: i32 = 0;
    while a < 16
        invariant
            w.wf(),
            idx < w.chunks@.len(),
            0 <= a <= 16,
            0 <= b < 16,
            a == 16 ==> b == 0,
            fs@.len() == col(a as int, b as int),
            bs@.len() == fs@.len(),
            forall|a2: int, b2: int|
                0 <= a2 < 16 && 0 <= b2 < 16 && col(a2, b2) < fs@.len() ==> #[trigger] z_edges_ok(
                    fs@[col(a2, b2)],
                    bs@[col(a2, b2)],
                    w,
                    idx as int,
                    a2,
                    b2,
                ),
        decreases 256 - col(a as int, b as int),
    {
        let m = z_column(w, idx, b, a);
        let f = !(m << 1u32) & m;
        let k = !(m >> 1u32) & m;
        assert forall|z: int| 0 <= z < 16 implies {
            &&& bit32(f, (z + 1) as u32) == #[trigger] face_visible(w, idx as int, b as int, a as int, z, Side::Forward)
            &&& bit32(k, (z + 1) as u32) == face_visible(w, idx as int, b as int, a as int, z, Side::Back)
        } by {
            lemma_bit32_low_edge(m, (z + 1) as u32);
            lemma_bit32_high_edge(m, (z + 1) as u32);
            assert(bit32(m, (z + 1) as u32) == solid_around(w, idx as int, b as int, a as int, z));
            assert(bit32(m, z as u32) == solid_around(w, idx as int, b as int, a as int, z - 1));
            assert(bit32(m, (z + 2) as u32) == solid_around(w, idx as int, b as int, a as int, z + 1));
        }
        let ghost before_a = fs@;
        let ghost before_b = bs@;
        fs.push(f);
        bs.push(k);
        proof {
            let n = col(a as int, b as int);
            assert forall|a2: int, b2: int|
                0 <= a2 < 16 && 0 <= b2 < 16 && col(a2, b2) < fs@.len() implies #[trigger] z_edges_ok(
                    fs@[col(a2, b2)],
                    bs@[col(a2, b2)],
                    w,
                    idx as int,
                    a2,
                    b2,
                ) by {
                if col(a2, b2) == n {
                    assert(a2 == a && b2 == b);
                } else {
                    assert(fs@[col(a2, b2)] == before_a[col(a2, b2)]);
                    assert(bs@[col(a2, b2)] == before_b[col(a2, b2)]);
                }
            }
        }
        b = b + 1;
        if b == 16 {
            b = 0;
            a = a + 1;
        }
    }
    (fs, bs)
}

/// Bottom and top face masks of every column along y, column `(x, z)` in slot `col(z, x)`.
fn y_edges(w: &UpdateChunks, idx: usize) -> (r: (Vec<[u64; 4]>, Vec<[u64; 4]>))
    requires
        w.wf(),
        idx < w.chunks@.len(),
    ensures
        r.0@.len() == 256,
        r.1@.len() == 256,
        forall|a: int, b: int|
            0 <= a < 16 && 0 <= b < 16 ==> #[trigger] y_edges_ok(r.0@[col(a, b)], r.1@[col(a, b)], w, idx as int, a, b),
{
    let mut ds: Vec<[u64; 4]> = Vec::new();
    let mut us: Vec<[u64; 4]> = Vec::new();
    let mut a: i32 = 0;
    let mut b: i32 = 0;
    while a < 16
        invariant
            w.wf(),
            idx < w.chunks@.len(),
            0 <= a <= 16,
            0 <= b < 16,
            a == 16 ==> b == 0,
            ds@.len() == col(a as int, b as int),
            us@.len() == ds@.len(),
            forall|a2: int, b2: int|
                0 <= a2 < 16 && 0 <= b2 < 16 && col(a2, b2) < ds@.len() ==> #[trigger] y_edges_ok(
                    ds@[col(a2, b2)],
                    us@[col(a2, b2)],
                    w,
                    idx as int,
                    a2,
                    b2,
                ),
        decreases 256 - col(a as int, b as int),
    {
        let m = y_column(w, idx, b, a);
        let d = u256_and(u256_not(u256_shl(m, 1)), m);
        let u = u256_and(u256_not(u256_shr(m, 1)), m);
        assert forall|y: int| 0 <= y < 16 implies {
            &&& bit256(d, y + 1) == #[trigger] face_visible(w, idx as int, b as int, y, a as int, Side::Bottom)
            &&& bit256(u, y + 1) == face_visible(w, idx as int, b as int, y, a as int, Side::Top)
        } by {
            assert(bit256(m, y + 1) == solid_around(w, idx as int, b as int, y, a as int));
            assert(bit256(m, y) == solid_around(w, idx as int, b as int, y - 1, a as int));
            assert(bit256(m, y + 2) == solid_around(w, idx as int, b as int, y + 1, a as int));
        }
        let ghost before_a = ds@;
        let ghost before_b = us@;
        ds.push(d);
        us.push(u);
        proof {
            let n = col(a as int, b as int);
            assert forall|a2: int, b2: int|
                0 <= a2 < 16 && 0 <= b2 < 16 && col(a2, b2) < ds@.len() implies #[trigger] y_edges_ok(
                    ds@[col(a2, b2)],
                    us@[col(a2, b2)],
                    w,
                    idx as int,
                    a2,
                    b2,
                ) by {
                if col(a2, b2) == n {
                    assert(a2 == a && b2 == b);
                } else {
                    assert(ds@[col(a2, b2)] == before_a[col(a2, b2)]);
                    assert(us@[col(a2, b2)] == before_b[col(a2, b2)]);
                }
            }
        }
        b = b + 1;
        if b == 16 {
            b = 0;
            a = a + 1;
        }
    }
    (ds, us)
}

/// Which faces of a chunk's voxels are drawn, one flag per voxel and face,
/// each list indexed like the block grid.
pub struct VisibleFaces {
    pub left: Vec<bool>,
    pub right: Vec<bool>,
    pub top: Vec<bool>,
    pub bottom: Vec<bool>,
    pub forward: Vec<bool>,
    pub back: Vec<bool>,
}

impl VisibleFaces {
    pub open spec fn of(&self, side: Side) -> Seq<bool> {
        match side {
            Side::Left => self.left@,
            Side::Right => self.right@,
            Side::Top => self.top@,
            Side::Bottom => self.bottom@,
            Side::Forward => self.forward@,
            Side::Back => self.back@,
        }
    }

    /// The flags of the first `n` voxels, in grid order, say exactly which
    /// faces of chunk `idx` are drawn.
    pub open spec fn correct_upto(&self, w: &UpdateChunks, idx: int, n: int) -> bool {
        &&& forall|side: Side| (#[trigger] self.of(side)).len() == n
        &&& forall|side: Side, x: int, y: int, z: int|
            in_chunk(x, y, z) && block_index(x, y, z) < n ==> (#[trigger] self.of(side)[block_index(x, y, z)]
                == face_visible(w, idx, x, y, z, side))
    }

    pub open spec fn correct(&self, w: &UpdateChunks, idx: int) -> bool {
        self.correct_upto(w, idx, CHUNK_VOLUME as int)
    }
}

/// Visible faces of chunk `idx`, found with per-row occupancy bitmasks: a
/// face shows where a voxel's bit is set and its neighbour's bit, one shift
/// away, is clear. Rows along x and z use 32-bit masks, columns along y a
/// 256-bit one; each row carries one padding bit per end, read across the
/// chunk's side from its neighbour.
pub fn visible_faces(w: &UpdateChunks, idx: usize) -> (r: VisibleFaces)
    requires
        w.wf(),
        idx < w.chunks@.len(),
    ensures
        r.correct(w, idx as int),
{
    let (xl, xr) = x_edges(w, idx);
    let (zf, zb) = z_edges(w, idx);
    let (yd, yu) = y_edges(w, idx);
    let mut r = VisibleFaces {
        left: Vec::new(),
        right: Vec::new(),
        top: Vec::new(),
        bottom: Vec::new(),
        forward: Vec::new(),
        back: Vec::new(),
    };
    let mut x: i32 = 0;
    let mut y: i32 = 0;
    let mut z: i32 = 0;
    let mut i: usize = 0;
    while i < CHUNK_VOLUME
        invariant
            w.wf(),
            idx < w.chunks@.len(),
            xl@.len() == 256 && xr@.len() == 256 && zf@.len() == 256 && zb@.len() == 256,
            yd@.len() == 256 && yu@.len() == 256,
            forall|a: int, b: int|
                0 <= a < 16 && 0 <= b < 16 ==> #[trigger] x_edges_ok(xl@[col(a, b)], xr@[col(a, b)], w, idx as int, a, b),
            forall|a: int, b: int|
                0 <= a < 16 && 0 <= b < 16 ==> #[trigger] z_edges_ok(zf@[col(a, b)], zb@[col(a, b)], w, idx as int, a, b),
            forall|a: int, b: int|
                0 <= a < 16 && 0 <= b < 16 ==> #[trigger] y_edges_ok(yd@[col(a, b)], yu@[col(a, b)], w, idx as int, a, b),
            0 <= x < 16,
            0 <= z < 16,
            0 <= y <= 16,
            y == 16 ==> x == 0 && z == 0,
            i == block_index(x as int, y as int, z as int),
            i <= CHUNK_VOLUME,
            r.correct_upto(w, idx as int, i as int),
        decreases CHUNK_VOLUME - i,
    {
        let cyz = (y * 16 + z) as usize;
        let cyx = (y * 16 + x) as usize;
        let czx = (z * 16 + x) as usize;
        let xb = (x + 1) as u32;
        let zbit = (z + 1) as u32;
        assert(x_edges_ok(xl@[col(y as int, z as int)], xr@[col(y as int, z as int)], w, idx as int, y as int, z as int));
        assert(z_edges_ok(zf@[col(y as int, x as int)], zb@[col(y as int, x as int)], w, idx as int, y as int, x as int));
        assert(y_edges_ok(yd@[col(z as int, x as int)], yu@[col(z as int, x as int)], w, idx as int, z as int, x as int));
        let vl = get_bit_u32(xl[cyz], xb);
        let vr = get_bit_u32(xr[cyz], xb);
        let vf = get_bit_u32(zf[cyx], zbit);
        let vb = get_bit_u32(zb[cyx], zbit);
        let vd = get_bit_u256(yd[czx], (y + 1) as u32);
        let vu = get_bit_u256(yu[czx], (y + 1) as u32);
        assert(vl == face_visible(w, idx as int, x as int, y as int, z as int, Side::Left));
        assert(vr == face_visible(w, idx as int, x as int, y as int, z as int, Side::Right));
        assert(vf == face_visible(w, idx as int, x as int, y as int, z as int, Side::Forward));
        assert(vb == face_visible(w, idx as int, x as int, y as int, z as int, Side::Back));
        assert(vd == face_visible(w, idx as int, x as int, y as int, z as int, Side::Bottom));
        assert(vu == face_visible(w, idx as int, x as int, y as int, z as int, Side::Top));
        let ghost before = r;
        r.left.push(vl);
        r.right.push(vr);
        r.forward.push(vf);
        r.back.push(vb);
        r.bottom.push(vd);
        r.top.push(vu);
        proof {
            let n = i as int;
            assert forall|side: Side| (#[trigger] r.of(side)).len() == n + 1 by {
                assert(before.of(side).len() == n);
                match side {
                    Side::Left => {},
                    Side::Right => {},
                    Side::Top => {},
                    Side::Bottom => {},
                    Side::Forward => {},
                    Side::Back => {},
                }
            }
            assert forall|side: Side, x2: int, y2: int, z2: int|
                in_chunk(x2, y2, z2) && block_index(x2, y2, z2) < n + 1 implies (#[trigger] r.of(side)[block_index(x2, y2, z2)]
                    == face_visible(w, idx as int, x2, y2, z2, side)) by {
                if block_index(x2, y2, z2) == n {
                    lemma_block_index_injective(x2, y2, z2, x as int, y as int, z as int);
                } else {
                    assert(r.of(side)[block_index(x2, y2, z2)] == before.of(side)[block_index(x2, y2, z2)]);
                }
                match side {
                    Side::Left => {},
                    Side::Right => {},
                    Side::Top => {},
                    Side::Bottom => {},
                    Side::Forward => {},
                    Side::Back => {},
                }
            }
        }
        i = i + 1;
        x = x + 1;
        if x == 16 {
            x = 0;
            z = z + 1;
            if z == 16 {
                z = 0;
                y = y + 1;
            }
        }
    }
    r
}

/// Face drawn `k`-th for each voxel: left, right, forward, back, bottom, top.
pub open spec fn side_at(k: int) -> Side {
    if k == 0 {
        Side::Left
    } else if k == 1 {
        Side::Right
    } else if k == 2 {
        Side::Forward
    } else if k == 3 {
        Side::Back
    } else if k == 4 {
        Side::Bottom
    } else {
        Side::Top
    }
}

/// The quads of the first `k` faces of type `t` whose flag in `v` is set.
pub open spec fn faces_fold(t: BlockType, v: Seq<bool>, k: int) -> MeshV
    decreases k,
{
    if k <= 0 {
        MeshV::empty()
    } else {
        let prev = faces_fold(t, v, k - 1);
        if v[k - 1] {
            prev.merged(t.side_mesh(side_at(k - 1)))
        } else {
            prev
        }
    }
}

/// Visibility of the six faces of voxel `(x, y, z)`, in drawing order.
pub open spec fn face_flags(w: &UpdateChunks, idx: int, x: int, y: int, z: int) -> Seq<bool> {
    Seq::new(6, |k: int| face_visible(w, idx, x, y, z, side_at(k)))
}

/// Offset of voxel `(x, y, z)`'s centre in half-voxel units.
pub open spec fn voxel_offset(x: int, y: int, z: int) -> Pos {
    ((2 * x) as i64, (2 * y) as i64, (2 * z) as i64)
}

/// Mesh of one voxel: nothing for air; for a solid block, the quads of its
/// type (or the fallback type) on each visible face, moved to the voxel.
pub open spec fn voxel_mesh(w: &UpdateChunks, idx: int, cat: &BlockStorage, x: int, y: int, z: int) -> MeshV {
    match w.chunks@[idx].block_at(x, y, z) {
        Block::Solid(id) => faces_fold(cat.type_or_default(id), face_flags(w, idx, x, y, z), 6).translated(
            voxel_offset(x, y, z),
        ),
        Block::Air => MeshV::empty(),
    }
}

/// Voxel at place `i` of the block grid.
pub open spec fn voxel_of(i: int) -> (int, int, int) {
    (i % 16, i / 256, (i / 16) % 16)
}

/// Mesh of the first `n` voxels of chunk `idx`, in grid order.
pub open spec fn chunk_mesh(w: &UpdateChunks, idx: int, cat: &BlockStorage, n: int) -> MeshV
    decreases n,
{
    if n <= 0 {
        MeshV::empty()
    } else {
        let v = voxel_of(n - 1);
        chunk_mesh(w, idx, cat, n - 1).merged(voxel_mesh(w, idx, cat, v.0, v.1, v.2))
    }
}

/// Render translation of a chunk, in half-voxel units: the one it was given,
/// or else the corner of its grid position.
pub open spec fn chunk_translation(c: Chunk) -> Pos {
    match c.translation {
        Some(t) => t,
        None => ((2 * CHUNK_W * c.pos.0) as i64, 0i64, (2 * CHUNK_D * c.pos.1) as i64),
    }
}

/// Every coordinate of `m` is at most `b` away from zero.
pub open spec fn coords_within(m: MeshV, b: int) -> bool {
    forall|k: int|
        0 <= k < m.positions.len() ==> {
            &&& -b <= (#[trigger] m.positions[k]).0 <= b
            &&& -b <= m.positions[k].1 <= b
            &&& -b <= m.positions[k].2 <= b
        }
}

pub proof fn lemma_voxel_of(x: int, y: int, z: int)
    requires
        in_chunk(x, y, z),
    ensures
        voxel_of(block_index(x, y, z)) == (x, y, z),
{
    let i = block_index(x, y, z);
    assert(i == (y * 16 + z) * 16 + x);
    assert(i == y * 256 + (z * 16 + x));
    lemma_fundamental_div_mod_converse_mod(i, 16, y * 16 + z, x);
    lemma_fundamental_div_mod_converse_div(i, 16, y * 16 + z, x);
    lemma_fundamental_div_mod_converse_div(i, 256, y, z * 16 + x);
    lemma_fundamental_div_mod_converse_mod(y * 16 + z, 16, y, z);
}

/// Merges a copy of `q` into `m`.
fn merge_copy(m: &mut Mesh, q: &Mesh)
    requires
        old(m).view().wf(),
        small_mesh(q.view()),
        old(m).positions@.len() <= 120,
        coords_within(old(m).view(), 0x100_0000_0000),
    ensures
        final(m).view() == old(m).view().merged(q.view()),
        final(m).view().wf(),
        final(m).positions@.len() <= old(m).positions@.len() + 24,
        coords_within(final(m).view(), 0x100_0000_0000),
{
    let c = q.copy();
    m.merge(&c);
    assert forall|k: int| 0 <= k < m.view().positions.len() implies {
        &&& -0x100_0000_0000 <= (#[trigger] m.view().positions[k]).0 <= 0x100_0000_0000
        &&& -0x100_0000_0000 <= m.view().positions[k].1 <= 0x100_0000_0000
        &&& -0x100_0000_0000 <= m.view().positions[k].2 <= 0x100_0000_0000
    } by {
        if k >= old(m).positions@.len() {
            assert(m.view().positions[k] == q.view().positions[k - old(m).positions@.len()]);
        } else {
            assert(m.view().positions[k] == old(m).view().positions[k]);
        }
    }
}

/// The quads of `t`'s faces whose flag in `v` is set, in drawing order.
fn faces_of_type(t: &BlockType, v: &Vec<bool>) -> (r: Mesh)
    requires
        t.wf(),
        v@.len() == 6,
    ensures
        r.view() == faces_fold(*t, v@, 6),
        r.view().wf(),
        r.positions@.len() <= 144,
        coords_within(r.view(), 0x100_0000_0000),
{
    let mut m = void_mesh();
    assert(small_mesh(t.side_mesh(Side::Left)));
    assert(small_mesh(t.side_mesh(Side::Right)));
    assert(small_mesh(t.side_mesh(Side::Forward)));
    assert(small_mesh(t.side_mesh(Side::Back)));
    assert(small_mesh(t.side_mesh(Side::Bottom)));
    assert(small_mesh(t.side_mesh(Side::Top)));
    assert(m.view() == faces_fold(*t, v@, 0));
    if v[0] {
        merge_copy(&mut m, &t.sides.left.0);
    }
    assert(m.view() == faces_fold(*t, v@, 1));
    if v[1] {
        merge_copy(&mut m, &t.sides.right.0);
    }
    assert(m.view() == faces_fold(*t, v@, 2));
    if v[2] {
        merge_copy(&mut m, &t.sides.forward.0);
    }
    assert(m.view() == faces_fold(*t, v@, 3));
    if v[3] {
        merge_copy(&mut m, &t.sides.back.0);
    }
    assert(m.view() == faces_fold(*t, v@, 4));
    if v[4] {
        merge_copy(&mut m, &t.sides.bottom.0);
    }
    assert(m.view() == faces_fold(*t, v@, 5));
    if v[5] {
        merge_copy(&mut m, &t.sides.top.0);
    }
    m
}

/// `m` moved to voxel `(x, y, z)`.
fn move_to_voxel(m: &mut Mesh, x: i32, y: i32, z: i32)
    requires
        in_chunk(x as int, y as int, z as int),
        coords_within(old(m).view(), 0x100_0000_0000),
    ensures
        final(m).view() == old(m).view().translated(voxel_offset(x as int, y as int, z as int)),
{
    m.translate_by((2 * x as i64, 2 * y as i64, 2 * z as i64));
}

/// Mesh of one voxel of chunk `idx`, testing each of its six neighbours
/// one by one, across the chunk's sides where needed.
pub fn generate_sides_mesh(
    w: &UpdateChunks,
    idx: usize,
    x: i32,
    y: i32,
    z: i32,
    storage: &BlockStorage,
) -> (r: Mesh)
    requires
        w.wf(),
        idx < w.chunks@.len(),
        in_chunk(x as int, y as int, z as int),
        storage.wf(),
    ensures
        r.view() == voxel_mesh(w, idx as int, storage, x as int, y as int, z as int),
        r.view().wf(),
        r.positions@.len() <= 144,
{
    proof {
        w.lemma_links_in_range();
    }
    match w.chunks[idx].get_from_only_my(x as usize, y as usize, z as usize) {
        Block::Air => void_mesh(),
        Block::Solid(id) => {
            let t = storage.get_or_default(id);
            let mut v: Vec<bool> = Vec::new();
            v.push(!w.get_around(idx, x - 1, y, z).is_solid());
            v.push(!w.get_around(idx, x + 1, y, z).is_solid());
            v.push(!w.get_around(idx, x, y, z - 1).is_solid());
            v.push(!w.get_around(idx, x, y, z + 1).is_solid());
            v.push(!w.get_around(idx, x, y - 1, z).is_solid());
            v.push(!w.get_around(idx, x, y + 1, z).is_solid());
            assert(v@ =~= face_flags(w, idx as int, x as int, y as int, z as int));
            let mut m = faces_of_type(t, &v);
            move_to_voxel(&mut m, x, y, z);
            m
        },
    }
}

/// Mesh of chunk `idx` and its render translation. Visibility comes from
/// `visible_faces`; each solid voxel contributes the quads of its type (the
/// fallback type for an unknown id) on its visible faces.
pub fn create_chunk_mesh(w: &UpdateChunks, idx: usize, storage: &BlockStorage) -> (r: (Mesh, Pos))
    requires
        w.wf(),
        idx < w.chunks@.len(),
        storage.wf(),
    ensures
        r.0.view() == chunk_mesh(w, idx as int, storage, CHUNK_VOLUME as int),
        r.0.view().wf(),
        r.1 == chunk_translation(w.chunks@[idx as int]),
{
    proof {
        w.lemma_links_in_range();
    }
    let vis = visible_faces(w, idx);
    let chunk = &w.chunks[idx];
    let mut mesh = void_mesh();
    let mut x: i32 = 0;
    let mut y: i32 = 0;
    let mut z: i32 = 0;
    let mut i: usize = 0;
    while i < CHUNK_VOLUME
        invariant
            w.wf(),
            idx < w.chunks@.len(),
            storage.wf(),
            *chunk == w.chunks@[idx as int],
            chunk.wf(),
            vis.correct(w, idx as int),
            0 <= x < 16,
            0 <= z < 16,
            0 <= y <= 16,
            y == 16 ==> x == 0 && z == 0,
            i == block_index(x as int, y as int, z as int),
            i <= CHUNK_VOLUME,
            mesh.view() == chunk_mesh(w, idx as int, storage, i as int),
            mesh.view().wf(),
            mesh.positions@.len() <= 144 * i,
        decreases CHUNK_VOLUME - i,
    {
        proof {
            lemma_voxel_of(x as int, y as int, z as int);
        }
        let part = match chunk.get_from_only_my(x as usize, y as usize, z as usize) {
            Block::Air => void_mesh(),
            Block::Solid(id) => {
                let t = storage.get_or_default(id);
                assert(vis.of(Side::Left).len() == CHUNK_VOLUME);
                assert(vis.of(Side::Right).len() == CHUNK_VOLUME);
                assert(vis.of(Side::Forward).len() == CHUNK_VOLUME);
                assert(vis.of(Side::Back).len() == CHUNK_VOLUME);
                assert(vis.of(Side::Bottom).len() == CHUNK_VOLUME);
                assert(vis.of(Side::Top).len() == CHUNK_VOLUME);
                let mut v: Vec<bool> = Vec::new();
                v.push(vis.left[i]);
                v.push(vis.right[i]);
                v.push(vis.forward[i]);
                v.push(vis.back[i]);
                v.push(vis.bottom[i]);
                v.push(vis.top[i]);
                proof {
                    let (xi, yi, zi) = (x as int, y as int, z as int);
                    assert(vis.of(Side::Left)[block_index(xi, yi, zi)] == face_visible(w, idx as int, xi, yi, zi, Side::Left));
                    assert(vis.of(Side::Right)[block_index(xi, yi, zi)] == face_visible(w, idx as int, xi, yi, zi, Side::Right));
                    assert(vis.of(Side::Forward)[block_index(xi, yi, zi)] == face_visible(w, idx as int, xi, yi, zi, Side::Forward));
                    assert(vis.of(Side::Back)[block_index(xi, yi, zi)] == face_visible(w, idx as int, xi, yi, zi, Side::Back));
                    assert(vis.of(Side::Bottom)[block_index(xi, yi, zi)] == face_visible(w, idx as int, xi, yi, zi, Side::Bottom));
                    assert(vis.of(Side::Top)[block_index(xi, yi, zi)] == face_visible(w, idx as int, xi, yi, zi, Side::Top));
                    assert(v@ =~= face_flags(w, idx as int, xi, yi, zi));
                }
                let mut m = faces_of_type(t, &v);
                move_to_voxel(&mut m, x, y, z);
                m
            },
        };
        assert(part.view() == voxel_mesh(w, idx as int, storage, x as int, y as int, z as int));
        assert(part.view().wf());
        mesh.merge(&part);
        i = i + 1;
        x = x + 1;
        if x == 16 {
            x = 0;
            z = z + 1;
            if z == 16 {
                z = 0;
                y = y + 1;
            }
        }
    }
    let t = match chunk.translation {
        Some(t) => t,
        None => (2 * CHUNK_W as i64 * chunk.pos.0 as i64, 0i64, 2 * CHUNK_D as i64 * chunk.pos.1 as i64),
    };
    (mesh, t)
}

/// Every block of chunk `c` is solid.
pub open spec fn all_solid(c: Chunk) -> bool {
    forall|i: int| 0 <= i < CHUNK_VOLUME ==> (#[trigger] c.blocks@[i]) is Solid
}

/// A chunk solid throughout, with all four neighbours present and solid
/// throughout, draws no face but the top faces of its highest layer and the
/// bottom faces of its lowest: the world has no chunks above or below.
pub proof fn lemma_buried_chunk_faces(w: &UpdateChunks, idx: int, x: int, y: int, z: int, side: Side)
    requires
        w.wf(),
        0 <= idx < w.chunks@.len(),
        in_chunk(x, y, z),
        all_solid(w.chunks@[idx]),
        w.chunks@[idx].left_chunk matches Some(n) && all_solid(w.chunks@[n as int]),
        w.chunks@[idx].right_chunk matches Some(n) && all_solid(w.chunks@[n as int]),
        w.chunks@[idx].backward_chunk matches Some(n) && all_solid(w.chunks@[n as int]),
        w.chunks@[idx].forward_chunk matches Some(n) && all_solid(w.chunks@[n as int]),
    ensures
        face_visible(w, idx, x, y, z, side) == ((side is Top && y == CHUNK_H - 1) || (side is Bottom && y == 0)),
{
    w.lemma_links_in_range();
    let d = side_step(side);
    let (x2, y2, z2) = (x + d.0, y + d.1, z + d.2);
    lemma_block_index_bounds(x, y, z);
    if in_chunk(x2, y2, z2) {
        lemma_block_index_bounds(x2, y2, z2);
    }
    if 0 <= y2 < CHUNK_H {
        if x2 == -1 {
            lemma_block_index_bounds(CHUNK_W - 1, y2, z2);
        } else if x2 == CHUNK_W {
            lemma_block_index_bounds(0, y2, z2);
        } else if z2 == -1 {
            lemma_block_index_bounds(x2, y2, CHUNK_D - 1);
        } else if z2 == CHUNK_D {
            lemma_block_index_bounds(x2, y2, 0);
        }
    }
}

/// Place `i` of the grid holds the voxel `voxel_of(i)`.
pub proof fn lemma_voxel_of_inverse(i: int)
    requires
        0 <= i < CHUNK_VOLUME,
    ensures
        in_chunk(voxel_of(i).0, voxel_of(i).1, voxel_of(i).2),
        block_index(voxel_of(i).0, voxel_of(i).1, voxel_of(i).2) == i,
{
    lemma_fundamental_div_mod(i, 16);
    lemma_fundamental_div_mod(i / 16, 16);
    lemma_div_denominator(i, 16, 16);
    lemma_mod_bound(i, 16);
    lemma_mod_bound(i / 16, 16);
    lemma_div_pos_is_pos(i, 16);
    lemma_div_pos_is_pos(i, 256);
    assert(i / 256 < 16) by {
        lemma_fundamental_div_mod(i, 256);
        lemma_mod_bound(i, 256);
    }
}

/// The block type a solid id draws with is one of the catalog's meshed types.
proof fn lemma_type_or_default_quads(cat: &BlockStorage, id: crate::block::BlockId, side: Side)
    requires
        cat.wf(),
        cat.meshes_current(),
    ensures
        cat.type_or_default(id).side_mesh(side).positions.len() == 4,
{
    cat.lemma_id_of_registered(crate::catalog::unknown_name());
    let k = if cat.registered(id) {
        id.0 - 1
    } else {
        cat.unknown_id().0 - 1
    };
    let t = cat.storage@[k as int];
    assert(t.meshes(&cat.imgs, &cat.un_meshed_storage@[k as int]));
    match cat.un_meshed_storage@[k as int] {
        crate::catalog::UnMeshedBlockType::Block { faces } => {
            assert(t.side_mesh(side) == quad(side, cat.imgs.texture_rect(crate::catalog::face_name(faces, side))));
        },
    }
}

/// A voxel with all six faces drawn contributes six quads.
proof fn lemma_six_quads(t: BlockType, v: Seq<bool>)
    requires
        v.len() == 6,
        forall|k: int| 0 <= k < 6 ==> #[trigger] v[k],
        forall|side: Side| (#[trigger] t.side_mesh(side)).positions.len() == 4,
    ensures
        faces_fold(t, v, 6).positions.len() == 24,
{
    assert(v[0] && v[1] && v[2] && v[3] && v[4] && v[5]);
    assert(t.side_mesh(side_at(0)).positions.len() == 4);
    assert(t.side_mesh(side_at(1)).positions.len() == 4);
    assert(t.side_mesh(side_at(2)).positions.len() == 4);
    assert(t.side_mesh(side_at(3)).positions.len() == 4);
    assert(t.side_mesh(side_at(4)).positions.len() == 4);
    assert(t.side_mesh(side_at(5)).positions.len() == 4);
    reveal_with_fuel(faces_fold, 7);
}

/// A chunk whose only solid voxel has no solid neighbour on any of its six
/// sides, within the chunk or across its sides, is meshed as exactly six faces.
pub proof fn lemma_lone_voxel_six_faces(w: &UpdateChunks, idx: int, cat: &BlockStorage, x: int, y: int, z: int)
    requires
        w.wf(),
        0 <= idx < w.chunks@.len(),
        cat.wf(),
        cat.meshes_current(),
        in_chunk(x, y, z),
        w.chunks@[idx].block_at(x, y, z) is Solid,
        forall|i: int|
            0 <= i < CHUNK_VOLUME && i != block_index(x, y, z) ==> (#[trigger] w.chunks@[idx].blocks@[i]) is Air,
        forall|side: Side| !solid_around(w, idx, x + (#[trigger] side_step(side)).0, y + side_step(side).1, z + side_step(side).2),
    ensures
        chunk_mesh(w, idx, cat, CHUNK_VOLUME as int).face_count() == 6,
{
    let b = block_index(x, y, z);
    lemma_block_index_bounds(x, y, z);
    lemma_voxel_of(x, y, z);
    let id = w.chunks@[idx].block_at(x, y, z)->Solid_0;
    let t = cat.type_or_default(id);
    assert forall|side: Side| (#[trigger] t.side_mesh(side)).positions.len() == 4 by {
        lemma_type_or_default_quads(cat, id, side);
    }
    let v = face_flags(w, idx, x, y, z);
    assert forall|k: int| 0 <= k < 6 implies #[trigger] v[k] by {
        let side = side_at(k);
        assert(!solid_around(w, idx, x + side_step(side).0, y + side_step(side).1, z + side_step(side).2));
    }
    lemma_six_quads(t, v);
    assert(voxel_mesh(w, idx, cat, x, y, z).positions.len() == 24);
    lemma_lone_voxel_count(w, idx, cat, x, y, z, CHUNK_VOLUME as int);
}

proof fn lemma_lone_voxel_count(w: &UpdateChunks, idx: int, cat: &BlockStorage, x: int, y: int, z: int, n: int)
    requires
        w.wf(),
        0 <= idx < w.chunks@.len(),
        in_chunk(x, y, z),
        0 <= n <= CHUNK_VOLUME,
        forall|i: int|
            0 <= i < CHUNK_VOLUME && i != block_index(x, y, z) ==> (#[trigger] w.chunks@[idx].blocks@[i]) is Air,
        voxel_mesh(w, idx, cat, x, y, z).positions.len() == 24,
    ensures
        chunk_mesh(w, idx, cat, n).positions.len() == (if block_index(x, y, z) < n { 24int } else { 0int }),
    decreases n,
{
    if n > 0 {
        lemma_lone_voxel_count(w, idx, cat, x, y, z, n - 1);
        let v = voxel_of(n - 1);
        lemma_voxel_of_inverse(n - 1);
        if n - 1 == block_index(x, y, z) {
            lemma_voxel_of(x, y, z);
        } else {
            assert(w.chunks@[idx].blocks@[n - 1] is Air);
        }
    }
}

/// Link of chunk `c` towards the neighbour that face `side` looks at; the
/// top and bottom faces have none.
pub open spec fn link_towards(c: Chunk, side: Side) -> Option<usize> {
    match side {
        Side::Left => c.left_chunk,
        Side::Right => c.right_chunk,
        Side::Forward => c.backward_chunk,
        Side::Back => c.forward_chunk,
        _ => None,
    }
}

/// Coordinate `v` stepped past a side of an axis `n` voxels long, wrapped
/// onto the neighbour's facing layer.
pub open spec fn wrap(v: int, n: int) -> int {
    if v < 0 {
        n - 1
    } else if v >= n {
        0
    } else {
        v
    }
}

/// A solid voxel on a vertical side of its chunk shows the face on that side
/// while no neighbour is linked there; once a neighbour is linked whose
/// facing voxel is solid, that face is hidden.
pub proof fn lemma_boundary_exposure(w: &UpdateChunks, idx: int, x: int, y: int, z: int, side: Side)
    requires
        w.wf(),
        0 <= idx < w.chunks@.len(),
        in_chunk(x, y, z),
        w.chunks@[idx].block_at(x, y, z) is Solid,
        !(side is Top || side is Bottom),
        !in_chunk(x + side_step(side).0, y, z + side_step(side).2),
    ensures
        link_towards(w.chunks@[idx], side) is None ==> face_visible(w, idx, x, y, z, side),
        link_towards(w.chunks@[idx], side) matches Some(n) && w.chunks@[n as int].block_at(
            wrap(x + side_step(side).0, CHUNK_W as int),
            y,
            wrap(z + side_step(side).2, CHUNK_D as int),
        ) is Solid ==> !face_visible(w, idx, x, y, z, side),
{
}

/// Meshes every chunk whose mesh is out of date, in slot order, then records
/// every chunk's mesh as up to date. Each entry of the result holds a slot,
/// its new mesh and its render translation.
pub fn make_meshes(w: &mut UpdateChunks, storage: &BlockStorage) -> (r: Vec<(usize, Mesh, Pos)>)
    requires
        old(w).wf(),
        storage.wf(),
    ensures
        final(w).wf(),
        final(w).size == old(w).size,
        final(w).chunks@.len() == old(w).chunks@.len(),
        forall|j: int|
            0 <= j < final(w).chunks@.len() ==> #[trigger] final(w).chunks@[j] == (Chunk {
                is_generated_mesh: true,
                ..old(w).chunks@[j]
            }),
        forall|k: int|
            0 <= k < r@.len() ==> {
                &&& (#[trigger] r@[k]).0 < old(w).chunks@.len()
                &&& !old(w).chunks@[r@[k].0 as int].is_generated_mesh
                &&& r@[k].1.view() == chunk_mesh(old(w), r@[k].0 as int, storage, CHUNK_VOLUME as int)
                &&& r@[k].2 == chunk_translation(old(w).chunks@[r@[k].0 as int])
            },
        forall|k1: int, k2: int| 0 <= k1 < k2 < r@.len() ==> (#[trigger] r@[k1]).0 < (#[trigger] r@[k2]).0,
        forall|j: int|
            0 <= j < old(w).chunks@.len() && !(#[trigger] old(w).chunks@[j]).is_generated_mesh ==> exists|k: int|
                0 <= k < r@.len() && r@[k].0 == j,
{
    let mut r: Vec<(usize, Mesh, Pos)> = Vec::new();
    let n = w.chunks.len();
    let mut j: usize = 0;
    while j < n
        invariant
            n == w.chunks@.len(),
            j <= n,
            w.wf(),
            storage.wf(),
            *w == *old(w),
            forall|k: int|
                0 <= k < r@.len() ==> {
                    &&& (#[trigger] r@[k]).0 < j
                    &&& !w.chunks@[r@[k].0 as int].is_generated_mesh
                    &&& r@[k].1.view() == chunk_mesh(w, r@[k].0 as int, storage, CHUNK_VOLUME as int)
                    &&& r@[k].2 == chunk_translation(w.chunks@[r@[k].0 as int])
                },
            forall|k1: int, k2: int| 0 <= k1 < k2 < r@.len() ==> (#[trigger] r@[k1]).0 < (#[trigger] r@[k2]).0,
            forall|i: int|
                0 <= i < j && !(#[trigger] w.chunks@[i]).is_generated_mesh ==> exists|k: int|
                    0 <= k < r@.len() && r@[k].0 == i,
        decreases n - j,
    {
        if !w.chunks[j].is_generated_mesh() {
            let (mesh, t) = create_chunk_mesh(w, j, storage);
            let ghost before = r@;
            r.push((j, mesh, t));
            proof {
                assert forall|i: int|
                    0 <= i < j + 1 && !(#[trigger] w.chunks@[i]).is_generated_mesh implies exists|k: int|
                        0 <= k < r@.len() && r@[k].0 == i by {
                    if i == j {
                        assert(r@[before.len() as int].0 == i);
                    } else {
                        let k = choose|k: int| 0 <= k < before.len() && before[k].0 == i;
                        assert(r@[k].0 == i);
                    }
                }
            }
        }
        j = j + 1;
    }
    let ghost start = *w;
    let mut j: usize = 0;
    while j < n
        invariant
            n == w.chunks@.len(),
            j <= n,
            w.wf(),
            w.size == start.size,
            start == *old(w),
            forall|i: int|
                0 <= i < n ==> #[trigger] w.chunks@[i] == (if i < j {
                    Chunk { is_generated_mesh: true, ..start.chunks@[i] }
                } else {
                    start.chunks@[i]
                }),
        decreases n - j,
    {
        w.set_generated(j);
        j = j + 1;
    }
    r
}
} // verus!
