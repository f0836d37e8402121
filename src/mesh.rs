use vstd::prelude::*;

verus! {

/// A vertex position in half-voxel units.
pub type Pos = (i64, i64, i64);

/// A texture coordinate in atlas pixels.
pub type Uv = (u32, u32);

/// A rectangle of the texture atlas, in pixels.
#[derive(Clone, Copy, PartialEq, Eq, Debug, Structural)]
pub struct Rect {
    pub min_x: u32,
    pub min_y: u32,
    pub max_x: u32,
    pub max_y: u32,
}

/// A triangle mesh: per-vertex positions (half-voxel units) and texture
/// coordinates (atlas pixels), and three vertex indices per triangle.
pub struct Mesh {
    pub positions: Vec<Pos>,
    pub uvs: Vec<Uv>,
    pub indices: Vec<u32>,
}

/// Mathematical form of a mesh.
pub struct MeshV {
    pub positions: Seq<Pos>,
    pub uvs: Seq<Uv>,
    pub indices: Seq<u32>,
}

impl MeshV {
    pub open spec fn empty() -> MeshV {
        MeshV { positions: Seq::empty(), uvs: Seq::empty(), indices: Seq::empty() }
    }

    /// Well formed: one texture coordinate per vertex, every index names a
    /// vertex, and vertex numbers fit in `u32`.
    pub open spec fn wf(self) -> bool {
        &&& self.positions.len() == self.uvs.len()
        &&& self.positions.len() <= u32::MAX
        &&& forall|k: int| 0 <= k < self.indices.len() ==> #[trigger] self.indices[k] < self.positions.len()
    }

    /// `self` followed by `other`, whose indices move past `self`'s vertices.
    pub open spec fn merged(self, other: MeshV) -> MeshV {
        MeshV {
            positions: self.positions + other.positions,
            uvs: self.uvs + other.uvs,
            indices: self.indices + other.indices.map_values(
                |i: u32| (i + self.positions.len()) as u32,
            ),
        }
    }

    /// `self` moved by `t`.
    pub open spec fn translated(self, t: Pos) -> MeshV {
        MeshV {
            positions: self.positions.map_values(|p: Pos| shift(p, t)),
            uvs: self.uvs,
            indices: self.indices,
        }
    }

    /// Every coordinate of `self` moved by `t` fits in `i64`.
    pub open spec fn can_translate(self, t: Pos) -> bool {
        forall|k: int| 0 <= k < self.positions.len() ==> fits_shift(#[trigger] self.positions[k], t)
    }

    /// Number of whole quads (faces) in the mesh.
    pub open spec fn face_count(self) -> nat {
        self.positions.len() / 4
    }
}

pub open spec fn shift(p: Pos, t: Pos) -> Pos {
    ((p.0 + t.0) as i64, (p.1 + t.1) as i64, (p.2 + t.2) as i64)
}

pub open spec fn fits_i64(v: int) -> bool {
    i64::MIN <= v <= i64::MAX
}

pub open spec fn fits_shift(p: Pos, t: Pos) -> bool {
    fits_i64(p.0 + t.0) && fits_i64(p.1 + t.1) && fits_i64(p.2 + t.2)
}

impl Mesh {
    pub open spec fn view(&self) -> MeshV {
        MeshV { positions: self.positions@, uvs: self.uvs@, indices: self.indices@ }
    }
}

/// A mesh with no vertices and no triangles.
pub fn void_mesh() -> (r: Mesh)
    ensures
        r.view() == MeshV::empty(),
        r.view().wf(),
{
    Mesh { positions: Vec::new(), uvs: Vec::new(), indices: Vec::new() }
}

impl Mesh {
    /// Appends `other`, moving its indices past this mesh's vertices.
    pub fn merge(&mut self, other: &Mesh)
        requires
            old(self).view().wf(),
            other.view().wf(),
            old(self).positions@.len() + other.positions@.len() <= u32::MAX,
        ensures
            final(self).view() == old(self).view().merged(other.view()),
            final(self).view().wf(),
    {
        let ghost start = self.view();
        let base = self.positions.len() as u32;
        let mut k: usize = 0;
        while k < other.positions.len()
            invariant
                k <= other.positions@.len(),
                self.positions@ == start.positions + other.positions@.subrange(0, k as int),
                self.uvs@ == start.uvs + other.uvs@.subrange(0, k as int),
                self.indices@ == start.indices,
                other.view().wf(),
            decreases other.positions@.len() - k,
        {
            self.positions.push(other.positions[k]);
            self.uvs.push(other.uvs[k]);
            k = k + 1;
            assert(self.positions@ =~= start.positions + other.positions@.subrange(0, k as int));
            assert(self.uvs@ =~= start.uvs + other.uvs@.subrange(0, k as int));
        }
        assert(other.positions@.subrange(0, k as int) =~= other.positions@);
        assert(other.uvs@.subrange(0, k as int) =~= other.uvs@);
        let mut k: usize = 0;
        while k < other.indices.len()
            invariant
                k <= other.indices@.len(),
                base == start.positions.len(),
                base + other.positions@.len() <= u32::MAX,
                other.view().wf(),
                self.positions@ == start.positions + other.positions@,
                self.uvs@ == start.uvs + other.uvs@,
                self.indices@ == start.indices + other.indices@.subrange(0, k as int).map_values(
                    |i: u32| (i + base) as u32,
                ),
            decreases other.indices@.len() - k,
        {
            let i = other.indices[k];
            assert(other.view().indices[k as int] < other.view().positions.len());
            self.indices.push(i + base);
            k = k + 1;
            assert(self.indices@ =~= start.indices + other.indices@.subrange(0, k as int).map_values(
                |i: u32| (i + base) as u32,
            ));
        }
        assert(other.indices@.subrange(0, k as int) =~= other.indices@);
        assert(self.view() =~= start.merged(other.view()));
    }

    /// A mesh with the same vertices and triangles.
    pub fn copy(&self) -> (r: Mesh)
        ensures
            r.view() == self.view(),
    {
        let mut r = void_mesh();
        let mut k: usize = 0;
        while k < self.positions.len()
            invariant
                k <= self.positions@.len(),
                r.positions@ == self.positions@.subrange(0, k as int),
                r.uvs@.len() == 0,
                r.indices@.len() == 0,
            decreases self.positions@.len() - k,
        {
            r.positions.push(self.positions[k]);
            k = k + 1;
            assert(r.positions@ =~= self.positions@.subrange(0, k as int));
        }
        let mut k: usize = 0;
        while k < self.uvs.len()
            invariant
                k <= self.uvs@.len(),
                r.positions@ == self.positions@,
                r.uvs@ == self.uvs@.subrange(0, k as int),
                r.indices@.len() == 0,
            decreases self.uvs@.len() - k,
        {
            r.uvs.push(self.uvs[k]);
            k = k + 1;
            assert(r.uvs@ =~= self.uvs@.subrange(0, k as int));
        }
        let mut k: usize = 0;
        while k < self.indices.len()
            invariant
                k <= self.indices@.len(),
                r.positions@ == self.positions@,
                r.uvs@ == self.uvs@,
                r.indices@ == self.indices@.subrange(0, k as int),
            decreases self.indices@.len() - k,
        {
            r.indices.push(self.indices[k]);
            k = k + 1;
            assert(r.indices@ =~= self.indices@.subrange(0, k as int));
        }
        assert(self.positions@.subrange(0, self.positions@.len() as int) =~= self.positions@);
        assert(self.uvs@.subrange(0, self.uvs@.len() as int) =~= self.uvs@);
        assert(self.indices@.subrange(0, self.indices@.len() as int) =~= self.indices@);
        r
    }

    /// Moves every vertex by `t`.
    pub fn translate_by(&mut self, t: Pos)
        requires
            old(self).view().can_translate(t),
        ensures
            final(self).view() == old(self).view().translated(t),
    {
        let ghost start = self.view();
        let mut k: usize = 0;
        while k < self.positions.len()
            invariant
                start.can_translate(t),
                k <= self.positions@.len(),
                self.positions@.len() == start.positions.len(),
                self.uvs@ == start.uvs,
                self.indices@ == start.indices,
                forall|j: int| 0 <= j < k ==> #[trigger] self.positions@[j] == shift(start.positions[j], t),
                forall|j: int| k <= j < self.positions@.len() ==> #[trigger] self.positions@[j] == start.positions[j],
            decreases self.positions@.len() - k,
        {
            let p = self.positions[k];
            assert(fits_shift(start.positions[k as int], t));
            self.positions.set(k, (p.0 + t.0, p.1 + t.1, p.2 + t.2));
            k = k + 1;
        }
        assert(self.positions@ =~= start.translated(t).positions);
    }
}

/// Moves `mesh2` by `mesh_move`, then appends it to `mesh`.
pub fn merge_attrs(mesh_move: Pos, mesh2: &mut Mesh, mesh: &mut Mesh)
    requires
        old(mesh2).view().can_translate(mesh_move),
        old(mesh2).view().wf(),
        old(mesh).view().wf(),
        old(mesh).positions@.len() + old(mesh2).positions@.len() <= u32::MAX,
    ensures
        final(mesh2).view() == old(mesh2).view().translated(mesh_move),
        final(mesh).view() == old(mesh).view().merged(old(mesh2).view().translated(mesh_move)),
        final(mesh).view().wf(),
{
    mesh2.translate_by(mesh_move);
    mesh.merge(mesh2);
}

/// A mesh of at most 24 vertices whose coordinates are at most `2^40` away from zero.
pub open spec fn small_mesh(m: MeshV) -> bool {
    &&& m.wf()
    &&& m.positions.len() <= 24
    &&& forall|k: int|
        0 <= k < m.positions.len() ==> {
            &&& -0x100_0000_0000 <= (#[trigger] m.positions[k]).0 <= 0x100_0000_0000
            &&& -0x100_0000_0000 <= m.positions[k].1 <= 0x100_0000_0000
            &&& -0x100_0000_0000 <= m.positions[k].2 <= 0x100_0000_0000
        }
}

/// Appends every mesh of `meshes`, the `i`-th moved by `i` times `mesh_move`.
pub fn merge_mesh(mesh: &mut Mesh, meshes: &Vec<Mesh>, mesh_move: Pos)
    requires
        old(mesh).view().wf(),
        old(mesh).positions@.len() + meshes@.len() * 24 <= u32::MAX,
        -0x1_0000 <= mesh_move.0 <= 0x1_0000,
        -0x1_0000 <= mesh_move.1 <= 0x1_0000,
        -0x1_0000 <= mesh_move.2 <= 0x1_0000,
        forall|i: int| 0 <= i < meshes@.len() ==> small_mesh(#[trigger] meshes@[i].view()),
    ensures
        final(mesh).view().wf(),
        final(mesh).view() == merged_all(
            old(mesh).view(),
            meshes@.map_values(|m: Mesh| m.view()),
            mesh_move,
            meshes@.len() as int,
        ),
{
    let ghost start = mesh.view();
    let n = meshes.len();
    let mut i: usize = 0;
    while i < n
        invariant
            n == meshes@.len(),
            i <= n,
            mesh.view().wf(),
            mesh.positions@.len() <= start.positions.len() + 24 * i,
            start.positions.len() + meshes@.len() * 24 <= u32::MAX,
            mesh.view() == merged_all(start, meshes@.map_values(|m: Mesh| m.view()), mesh_move, i as int),
            -0x1_0000 <= mesh_move.0 <= 0x1_0000,
            -0x1_0000 <= mesh_move.1 <= 0x1_0000,
            -0x1_0000 <= mesh_move.2 <= 0x1_0000,
            forall|i: int| 0 <= i < meshes@.len() ==> small_mesh(#[trigger] meshes@[i].view()),
        decreases n - i,
    {
        let f = i as i64;
        assert(0 <= f < 0x1_0000_0000);
        assert(-0x1_0000_0000_0000 <= f * mesh_move.0 <= 0x1_0000_0000_0000) by (nonlinear_arith)
            requires
                0 <= f < 0x1_0000_0000,
                -0x1_0000 <= mesh_move.0 <= 0x1_0000,
        ;
        assert(-0x1_0000_0000_0000 <= f * mesh_move.1 <= 0x1_0000_0000_0000) by (nonlinear_arith)
            requires
                0 <= f < 0x1_0000_0000,
                -0x1_0000 <= mesh_move.1 <= 0x1_0000,
        ;
        assert(-0x1_0000_0000_0000 <= f * mesh_move.2 <= 0x1_0000_0000_0000) by (nonlinear_arith)
            requires
                0 <= f < 0x1_0000_0000,
                -0x1_0000 <= mesh_move.2 <= 0x1_0000,
        ;
        let t = (f * mesh_move.0, f * mesh_move.1, f * mesh_move.2);
        let mut moved = meshes[i].copy();
        assert(small_mesh(meshes@[i as int].view()));
        moved.translate_by(t);
        mesh.merge(&moved);
        i = i + 1;
    }
}

/// `start` followed by the first `n` meshes of `meshes`, the `i`-th moved
/// by `i` times `mesh_move`.
pub open spec fn merged_all(start: MeshV, meshes: Seq<MeshV>, mesh_move: Pos, n: int) -> MeshV
    decreases n,
{
    if n <= 0 {
        start
    } else {
        let i = n - 1;
        merged_all(start, meshes, mesh_move, i).merged(
            meshes[i].translated(((i * mesh_move.0) as i64, (i * mesh_move.1) as i64, (i * mesh_move.2) as i64)),
        )
    }
}


/// The six faces of a voxel. `Left` faces negative x, `Right` positive x,
/// `Bottom` negative y, `Top` positive y, `Forward` negative z and `Back`
/// positive z.
#[derive(Clone, Copy, PartialEq, Eq, Debug, Structural)]
pub enum Side {
    Left,
    Right,
    Top,
    Bottom,
    Forward,
    Back,
}

/// Whether the face looks towards the negative end of its axis.
pub open spec fn faces_negative(side: Side) -> bool {
    side is Left || side is Bottom || side is Forward
}

/// Corners of the unit quad of `side`, around the voxel centre, in half-voxel units.
pub open spec fn quad_positions(side: Side) -> Seq<Pos> {
    match side {
        Side::Left => seq![(-1i64, -1i64, -1i64), (-1i64, -1i64, 1i64), (-1i64, 1i64, 1i64), (-1i64, 1i64, -1i64)],
        Side::Right => seq![(1i64, -1i64, -1i64), (1i64, -1i64, 1i64), (1i64, 1i64, 1i64), (1i64, 1i64, -1i64)],
        Side::Top => seq![(-1i64, 1i64, -1i64), (1i64, 1i64, -1i64), (1i64, 1i64, 1i64), (-1i64, 1i64, 1i64)],
        Side::Bottom => seq![(-1i64, -1i64, -1i64), (1i64, -1i64, -1i64), (1i64, -1i64, 1i64), (-1i64, -1i64, 1i64)],
        Side::Forward => seq![(-1i64, -1i64, -1i64), (-1i64, 1i64, -1i64), (1i64, 1i64, -1i64), (1i64, -1i64, -1i64)],
        Side::Back => seq![(-1i64, -1i64, 1i64), (-1i64, 1i64, 1i64), (1i64, 1i64, 1i64), (1i64, -1i64, 1i64)],
    }
}

/// Texture corners of the quad of `side`, cut from atlas rectangle `r`.
pub open spec fn quad_uvs(side: Side, r: Rect) -> Seq<Uv> {
    match side {
        Side::Forward | Side::Back => seq![
            (r.max_x, r.max_y),
            (r.max_x, r.min_y),
            (r.min_x, r.min_y),
            (r.min_x, r.max_y),
        ],
        _ => seq![(r.max_x, r.max_y), (r.min_x, r.max_y), (r.min_x, r.min_y), (r.max_x, r.min_y)],
    }
}

/// The two triangles of a quad, wound so that the face looks outwards.
pub open spec fn quad_indices(side: Side) -> Seq<u32> {
    if faces_negative(side) {
        seq![0u32, 1, 3, 1, 2, 3]
    } else {
        seq![0u32, 3, 1, 1, 3, 2]
    }
}

pub open spec fn quad(side: Side, r: Rect) -> MeshV {
    MeshV { positions: quad_positions(side), uvs: quad_uvs(side, r), indices: quad_indices(side) }
}

/// The textured unit quad of one face of a voxel.
pub fn square_mesh(side: Side, rect: Rect) -> (r: Mesh)
    ensures
        r.view() == quad(side, rect),
        small_mesh(r.view()),
{
    let positions: Vec<Pos> = match side {
        Side::Left => vec![(-1, -1, -1), (-1, -1, 1), (-1, 1, 1), (-1, 1, -1)],
        Side::Right => vec![(1, -1, -1), (1, -1, 1), (1, 1, 1), (1, 1, -1)],
        Side::Top => vec![(-1, 1, -1), (1, 1, -1), (1, 1, 1), (-1, 1, 1)],
        Side::Bottom => vec![(-1, -1, -1), (1, -1, -1), (1, -1, 1), (-1, -1, 1)],
        Side::Forward => vec![(-1, -1, -1), (-1, 1, -1), (1, 1, -1), (1, -1, -1)],
        Side::Back => vec![(-1, -1, 1), (-1, 1, 1), (1, 1, 1), (1, -1, 1)],
    };
    let uvs: Vec<Uv> = match side {
        Side::Forward | Side::Back => vec![
            (rect.max_x, rect.max_y),
            (rect.max_x, rect.min_y),
            (rect.min_x, rect.min_y),
            (rect.min_x, rect.max_y),
        ],
        _ => vec![
            (rect.max_x, rect.max_y),
            (rect.min_x, rect.max_y),
            (rect.min_x, rect.min_y),
            (rect.max_x, rect.min_y),
        ],
    };
    let indices: Vec<u32> = match side {
        Side::Left | Side::Bottom | Side::Forward => vec![0, 1, 3, 1, 2, 3],
        _ => vec![0, 3, 1, 1, 3, 2],
    };
    let r = Mesh { positions, uvs, indices };
    assert(r.positions@ =~= quad_positions(side));
    assert(r.uvs@ =~= quad_uvs(side, rect));
    assert(r.indices@ =~= quad_indices(side));
    r
}


/// The six sides of a cube, in the order top, bottom, left, right, forward, back.
pub open spec fn cube_sides() -> Seq<Side> {
    seq![Side::Top, Side::Bottom, Side::Left, Side::Right, Side::Forward, Side::Back]
}

/// A unit cube: the quads of all six faces, each textured with `rect`.
pub fn create_cube_mesh(rect: Rect) -> (r: Mesh)
    ensures
        r.view().wf(),
        r.view() == merged_all(
            MeshV::empty(),
            cube_sides().map_values(|side: Side| quad(side, rect)),
            (0, 0, 0),
            6,
        ),
{
    let mut main = void_mesh();
    let mut faces: Vec<Mesh> = Vec::new();
    faces.push(square_mesh(Side::Top, rect));
    faces.push(square_mesh(Side::Bottom, rect));
    faces.push(square_mesh(Side::Left, rect));
    faces.push(square_mesh(Side::Right, rect));
    faces.push(square_mesh(Side::Forward, rect));
    faces.push(square_mesh(Side::Back, rect));
    assert(faces@.map_values(|m: Mesh| m.view()) =~= cube_sides().map_values(|side: Side| quad(side, rect)));
    merge_mesh(&mut main, &faces, (0, 0, 0));
    main
}
} // verus!
