use vstd::prelude::*;

use crate::block::BlockId;
use crate::mesh::{Mesh, MeshV, Rect, Side, quad, small_mesh, square_mesh};

verus! {

/// Texture names of the six faces of a block type.
pub struct BlockFaces {
    pub top: String,
    pub bottom: String,
    pub left: String,
    pub right: String,
    pub forward: String,
    pub backward: String,
}

/// A block type as its definition gives it: texture names, not yet meshed.
pub enum UnMeshedBlockType {
    Block { faces: BlockFaces },
}

/// The render-ready quad of one face of a block type.
pub struct BlockSideInfo(pub Mesh);

/// One quad per face; `forward` faces negative z and `back` positive z.
pub struct BlockSides {
    pub left: BlockSideInfo,
    pub right: BlockSideInfo,
    pub top: BlockSideInfo,
    pub bottom: BlockSideInfo,
    pub forward: BlockSideInfo,
    pub back: BlockSideInfo,
}

/// A meshed block type.
pub struct BlockType {
    pub sides: BlockSides,
}

impl BlockType {
    /// The quad drawn for face `side`.
    pub open spec fn side_mesh(&self, side: Side) -> MeshV {
        match side {
            Side::Left => self.sides.left.0.view(),
            Side::Right => self.sides.right.0.view(),
            Side::Top => self.sides.top.0.view(),
            Side::Bottom => self.sides.bottom.0.view(),
            Side::Forward => self.sides.forward.0.view(),
            Side::Back => self.sides.back.0.view(),
        }
    }

    /// Every face quad is small enough to move and merge freely.
    pub open spec fn wf(&self) -> bool {
        forall|side: Side| small_mesh(#[trigger] self.side_mesh(side))
    }
}

/// Texture name of face `side` in `faces`.
pub open spec fn face_name(faces: BlockFaces, side: Side) -> Seq<char> {
    match side {
        Side::Left => faces.left@,
        Side::Right => faces.right@,
        Side::Top => faces.top@,
        Side::Bottom => faces.bottom@,
        Side::Forward => faces.forward@,
        Side::Back => faces.backward@,
    }
}

/// Value bound to `name` by the last entry of `b` that names it.
pub open spec fn lookup_last<V>(b: Seq<(String, V)>, name: Seq<char>) -> Option<V>
    decreases b.len(),
{
    if b.len() == 0 {
        None
    } else if b.last().0@ == name {
        Some(b.last().1)
    } else {
        lookup_last(b.drop_last(), name)
    }
}

/// Looks `name` up in `b`; a later entry hides an earlier one of the same name.
pub fn find_last<V: Copy>(b: &Vec<(String, V)>, name: &String) -> (r: Option<V>)
    ensures
        r == lookup_last(b@, name@),
{
    let mut k: usize = b.len();
    assert(b@.subrange(0, k as int) =~= b@);
    while k > 0
        invariant
            k <= b@.len(),
            lookup_last(b@, name@) == lookup_last(b@.subrange(0, k as int), name@),
        decreases k,
    {
        let ghost pre = b@.subrange(0, k as int);
        assert(pre.drop_last() =~= b@.subrange(0, k - 1));
        if b[k - 1].0 == *name {
            return Some(b[k - 1].1);
        }
        k = k - 1;
    }
    assert(b@.subrange(0, 0).len() == 0);
    None
}

/// Name under which the fallback block type and the fallback texture are registered.
pub open spec fn unknown_name() -> Seq<char> {
    seq!['u', 'n', 'k', 'n', 'o', 'w', 'n']
}

pub fn make_unknown_name() -> (r: String)
    ensures
        r@ == unknown_name(),
{
    proof {
        reveal_strlit("unknown");
    }
    let r = "unknown".to_owned();
    assert(r@ =~= unknown_name());
    r
}

/// The texture atlas: its pixel size, the rectangle of each texture, and
/// the texture names bound to rectangle numbers.
pub struct BlockImageStorage {
    pub texture_size: (u32, u32),
    pub rects: Vec<Rect>,
    pub binds: Vec<(String, usize)>,
}

/// `r` moved by `o`.
pub open spec fn shift_rect(r: Rect, o: (u32, u32)) -> Rect {
    Rect {
        min_x: (r.min_x + o.0) as u32,
        min_y: (r.min_y + o.1) as u32,
        max_x: (r.max_x + o.0) as u32,
        max_y: (r.max_y + o.1) as u32,
    }
}

pub open spec fn can_shift_rect(r: Rect, o: (u32, u32)) -> bool {
    r.max_x + o.0 <= u32::MAX && r.max_y + o.1 <= u32::MAX && r.min_x <= r.max_x && r.min_y <= r.max_y
}

impl BlockImageStorage {
    /// The atlas always holds the fallback texture in slot 0.
    pub open spec fn wf(&self) -> bool {
        self.rects@.len() >= 1
    }

    /// Rectangle of texture `name`: its bound slot, or slot 0 when the name is
    /// unbound or bound past the end of the atlas.
    pub open spec fn texture_rect(&self, name: Seq<char>) -> Rect {
        match lookup_last(self.binds@, name) {
            Some(i) => if i < self.rects@.len() {
                self.rects@[i as int]
            } else {
                self.rects@[0]
            },
            None => self.rects@[0],
        }
    }

    /// An atlas holding only the 16 by 16 fallback texture, bound as `"unknown"`.
    pub fn empty() -> (r: BlockImageStorage)
        ensures
            r.wf(),
            r.texture_size == (16u32, 16u32),
            r.rects@ == seq![Rect { min_x: 0, min_y: 0, max_x: 16, max_y: 16 }],
            r.binds@.len() == 1,
            r.binds@[0].0@ == unknown_name(),
            r.binds@[0].1 == 0,
    {
        let mut binds: Vec<(String, usize)> = Vec::new();
        binds.push((make_unknown_name(), 0));
        let mut rects: Vec<Rect> = Vec::new();
        rects.push(Rect { min_x: 0, min_y: 0, max_x: 16, max_y: 16 });
        assert(rects@ =~= seq![Rect { min_x: 0, min_y: 0, max_x: 16, max_y: 16 }]);
        BlockImageStorage { texture_size: (16, 16), rects, binds }
    }

    /// Rectangle of the texture named `name`, falling back to slot 0.
    pub fn get_texture_rect(&self, name: &String) -> (r: Rect)
        requires
            self.wf(),
        ensures
            r == self.texture_rect(name@),
    {
        match find_last(&self.binds, name) {
            Some(i) => if i < self.rects.len() {
                self.rects[i]
            } else {
                self.rects[0]
            },
            None => self.rects[0],
        }
    }

    /// Packs `another` into this atlas. The packer placed this atlas's old
    /// texture at `self_offset` and `another`'s at `another_offset` in a new
    /// texture of `texture_size` pixels: every rectangle moves by its offset,
    /// `another`'s rectangles follow this atlas's, and its names are bound to
    /// their moved slots, hiding same-named old bindings.
    pub fn merge(
        &mut self,
        another: &BlockImageStorage,
        self_offset: (u32, u32),
        another_offset: (u32, u32),
        texture_size: (u32, u32),
    )
        requires
            old(self).wf(),
            forall|k: int| 0 <= k < old(self).rects@.len() ==> can_shift_rect(#[trigger] old(self).rects@[k], self_offset),
            forall|k: int| 0 <= k < another.rects@.len() ==> can_shift_rect(#[trigger] another.rects@[k], another_offset),
            old(self).rects@.len() + another.rects@.len() <= usize::MAX,
            forall|k: int| 0 <= k < another.binds@.len() ==> (#[trigger] another.binds@[k]).1 + old(self).rects@.len() <= usize::MAX,
        ensures
            final(self).wf(),
            final(self).texture_size == texture_size,
            final(self).rects@ == old(self).rects@.map_values(|r: Rect| shift_rect(r, self_offset))
                + another.rects@.map_values(|r: Rect| shift_rect(r, another_offset)),
            final(self).binds@.len() == old(self).binds@.len() + another.binds@.len(),
            forall|k: int| 0 <= k < old(self).binds@.len() ==> #[trigger] final(self).binds@[k] == old(self).binds@[k],
            forall|k: int|
                0 <= k < another.binds@.len() ==> {
                    &&& (#[trigger] final(self).binds@[old(self).binds@.len() + k]).0 == another.binds@[k].0
                    &&& final(self).binds@[old(self).binds@.len() + k].1 == another.binds@[k].1 + old(self).rects@.len()
                },
    {
        let ghost start = *self;
        let n_old = self.rects.len();
        let mut rects: Vec<Rect> = Vec::new();
        let mut k: usize = 0;
        while k < self.rects.len()
            invariant
                *self == start,
                k <= start.rects@.len(),
                forall|j: int| 0 <= j < start.rects@.len() ==> can_shift_rect(#[trigger] start.rects@[j], self_offset),
                rects@ == start.rects@.subrange(0, k as int).map_values(|r: Rect| shift_rect(r, self_offset)),
            decreases start.rects@.len() - k,
        {
            let r = self.rects[k];
            assert(can_shift_rect(start.rects@[k as int], self_offset));
            rects.push(Rect {
                min_x: r.min_x + self_offset.0,
                min_y: r.min_y + self_offset.1,
                max_x: r.max_x + self_offset.0,
                max_y: r.max_y + self_offset.1,
            });
            k = k + 1;
            assert(rects@ =~= start.rects@.subrange(0, k as int).map_values(|r: Rect| shift_rect(r, self_offset)));
        }
        assert(start.rects@.subrange(0, k as int) =~= start.rects@);
        let mut k: usize = 0;
        while k < another.rects.len()
            invariant
                k <= another.rects@.len(),
                forall|j: int| 0 <= j < another.rects@.len() ==> can_shift_rect(#[trigger] another.rects@[j], another_offset),
                rects@ == start.rects@.map_values(|r: Rect| shift_rect(r, self_offset))
                    + another.rects@.subrange(0, k as int).map_values(|r: Rect| shift_rect(r, another_offset)),
            decreases another.rects@.len() - k,
        {
            let r = another.rects[k];
            assert(can_shift_rect(another.rects@[k as int], another_offset));
            rects.push(Rect {
                min_x: r.min_x + another_offset.0,
                min_y: r.min_y + another_offset.1,
                max_x: r.max_x + another_offset.0,
                max_y: r.max_y + another_offset.1,
            });
            k = k + 1;
            assert(rects@ =~= start.rects@.map_values(|r: Rect| shift_rect(r, self_offset))
                + another.rects@.subrange(0, k as int).map_values(|r: Rect| shift_rect(r, another_offset)));
        }
        assert(another.rects@.subrange(0, k as int) =~= another.rects@);
        let mut k: usize = 0;
        while k < another.binds.len()
            invariant
                k <= another.binds@.len(),
                n_old == start.rects@.len(),
                self.binds@.len() == start.binds@.len() + k,
                forall|j: int| 0 <= j < another.binds@.len() ==> (#[trigger] another.binds@[j]).1 + start.rects@.len() <= usize::MAX,
                forall|j: int| 0 <= j < start.binds@.len() ==> #[trigger] self.binds@[j] == start.binds@[j],
                forall|j: int|
                    0 <= j < k ==> {
                        &&& (#[trigger] self.binds@[start.binds@.len() + j]).0 == another.binds@[j].0
                        &&& self.binds@[start.binds@.len() + j].1 == another.binds@[j].1 + start.rects@.len()
                    },
            decreases another.binds@.len() - k,
        {
            let name = another.binds[k].0.clone();
            let i = another.binds[k].1;
            assert(another.binds@[k as int].1 + start.rects@.len() <= usize::MAX);
            self.binds.push((name, i + n_old));
            k = k + 1;
        }
        self.rects = rects;
        self.texture_size = texture_size;
    }
}

/// Builds the meshed form of a block type: each face is the unit quad
/// textured with the atlas rectangle of its texture name.
pub fn meshing_block_type(imgs: &BlockImageStorage, type_: &UnMeshedBlockType) -> (r: BlockType)
    requires
        imgs.wf(),
    ensures
        r.meshes(imgs, type_),
        r.wf(),
{
    match type_ {
        UnMeshedBlockType::Block { faces } => {
            let left_rect = imgs.get_texture_rect(&faces.left);
            let right_rect = imgs.get_texture_rect(&faces.right);
            let top_rect = imgs.get_texture_rect(&faces.top);
            let bottom_rect = imgs.get_texture_rect(&faces.bottom);
            let forward_rect = imgs.get_texture_rect(&faces.forward);
            let back_rect = imgs.get_texture_rect(&faces.backward);
            let r = BlockType {
                sides: BlockSides {
                    left: BlockSideInfo(square_mesh(Side::Left, left_rect)),
                    right: BlockSideInfo(square_mesh(Side::Right, right_rect)),
                    top: BlockSideInfo(square_mesh(Side::Top, top_rect)),
                    bottom: BlockSideInfo(square_mesh(Side::Bottom, bottom_rect)),
                    forward: BlockSideInfo(square_mesh(Side::Forward, forward_rect)),
                    back: BlockSideInfo(square_mesh(Side::Back, back_rect)),
                },
            };
            assert forall|side: Side| small_mesh(#[trigger] r.side_mesh(side)) by {
                match side {
                    Side::Left => {},
                    Side::Right => {},
                    Side::Top => {},
                    Side::Bottom => {},
                    Side::Forward => {},
                    Side::Back => {},
                }
            }
            r
        },
    }
}

impl BlockType {
    /// `self` is the meshed form of `t` under atlas `imgs`.
    pub open spec fn meshes(&self, imgs: &BlockImageStorage, t: &UnMeshedBlockType) -> bool {
        match *t {
            UnMeshedBlockType::Block { faces } => forall|side: Side|
                #[trigger] self.side_mesh(side) == quad(side, imgs.texture_rect(face_name(faces, side))),
        }
    }
}


/// A value that `lookup_last` finds is the value of some entry.
pub proof fn lemma_lookup_last_found<V>(b: Seq<(String, V)>, name: Seq<char>)
    ensures
        lookup_last(b, name) matches Some(v) ==> exists|k: int| 0 <= k < b.len() && (#[trigger] b[k]).1 == v,
    decreases b.len(),
{
    if b.len() > 0 && b.last().0@ != name {
        lemma_lookup_last_found(b.drop_last(), name);
        if lookup_last(b, name) is Some {
            let v = lookup_last(b, name).unwrap();
            let k = choose|k: int| 0 <= k < b.drop_last().len() && (#[trigger] b.drop_last()[k]).1 == v;
            assert(b[k] == b.drop_last()[k]);
        }
    } else if b.len() > 0 {
        assert(b[b.len() - 1] == b.last());
    }
}

/// The block catalog: meshed and un-meshed block types by id, names bound
/// to ids, the next id to hand out, and the texture atlas. The type of id
/// `k` sits in slot `k - 1` of both type lists.
pub struct BlockStorage {
    pub un_meshed_storage: Vec<UnMeshedBlockType>,
    pub storage: Vec<BlockType>,
    pub name_binds: Vec<(String, BlockId)>,
    pub last_id: BlockId,
    pub imgs: BlockImageStorage,
}

impl BlockStorage {
    /// Shape of the catalog, whether or not the fallback type is registered yet.
    pub open spec fn wf_base(&self) -> bool {
        &&& 1 <= self.last_id.0
        &&& self.storage@.len() == self.last_id.0 - 1
        &&& self.un_meshed_storage@.len() == self.storage@.len()
        &&& forall|k: int|
            0 <= k < self.name_binds@.len() ==> 1 <= (#[trigger] self.name_binds@[k]).1.0 < self.last_id.0
        &&& forall|k: int| 0 <= k < self.storage@.len() ==> (#[trigger] self.storage@[k]).wf()
        &&& self.imgs.wf()
    }

    /// A well-formed catalog also has the fallback type `"unknown"` registered.
    pub open spec fn wf(&self) -> bool {
        &&& self.wf_base()
        &&& self.id_of(unknown_name()) is Some
    }

    pub open spec fn registered(&self, id: BlockId) -> bool {
        1 <= id.0 < self.last_id.0
    }

    pub open spec fn type_of(&self, id: BlockId) -> BlockType {
        self.storage@[id.0 - 1]
    }

    /// Id bound to `name`, the latest registration winning.
    pub open spec fn id_of(&self, name: Seq<char>) -> Option<BlockId> {
        lookup_last(self.name_binds@, name)
    }

    pub open spec fn unknown_id(&self) -> BlockId {
        self.id_of(unknown_name()).unwrap()
    }

    /// Type of `id`, or the fallback type when `id` is not registered.
    pub open spec fn type_or_default(&self, id: BlockId) -> BlockType {
        if self.registered(id) {
            self.type_of(id)
        } else {
            self.type_of(self.unknown_id())
        }
    }

    /// Every meshed type is the meshing of its definition under the current atlas.
    pub open spec fn meshes_current(&self) -> bool {
        forall|k: int|
            0 <= k < self.storage@.len() ==> (#[trigger] self.storage@[k]).meshes(
                &self.imgs,
                &self.un_meshed_storage@[k],
            )
    }

    /// Ids bound to names are registered.
    pub proof fn lemma_id_of_registered(&self, name: Seq<char>)
        requires
            self.wf_base(),
        ensures
            self.id_of(name) matches Some(id) ==> self.registered(id),
    {
        lemma_lookup_last_found(self.name_binds@, name);
    }

    /// A catalog with the fallback atlas and the fallback type `"unknown"`,
    /// all of whose faces use the fallback texture, registered as id 1.
    pub fn new() -> (r: BlockStorage)
        ensures
            r.wf(),
            r.meshes_current(),
            r.last_id.0 == 2,
            r.id_of(unknown_name()) == Some(BlockId(1)),
    {
        let mut r = BlockStorage {
            un_meshed_storage: Vec::new(),
            storage: Vec::new(),
            name_binds: Vec::new(),
            last_id: BlockId(1),
            imgs: BlockImageStorage::empty(),
        };
        let faces = BlockFaces {
            top: make_unknown_name(),
            bottom: make_unknown_name(),
            left: make_unknown_name(),
            right: make_unknown_name(),
            forward: make_unknown_name(),
            backward: make_unknown_name(),
        };
        r.add(make_unknown_name(), UnMeshedBlockType::Block { faces });
        assert(r.name_binds@.last() == r.name_binds@[0]);
        r
    }

    /// Meshes `type_` under the current atlas and registers it under the next
    /// id, binding `name` to that id.
    pub fn add(&mut self, name: String, type_: UnMeshedBlockType)
        requires
            old(self).wf_base(),
            old(self).last_id.0 < u32::MAX,
        ensures
            final(self).wf_base(),
            old(self).wf() ==> final(self).wf(),
            old(self).meshes_current() ==> final(self).meshes_current(),
            final(self).last_id.0 == old(self).last_id.0 + 1,
            final(self).imgs == old(self).imgs,
            final(self).name_binds@ == old(self).name_binds@.push((name, old(self).last_id)),
            final(self).un_meshed_storage@ == old(self).un_meshed_storage@.push(type_),
            final(self).storage@.len() == old(self).storage@.len() + 1,
            forall|k: int| 0 <= k < old(self).storage@.len() ==> #[trigger] final(self).storage@[k] == old(self).storage@[k],
            final(self).type_of(old(self).last_id).meshes(&old(self).imgs, &type_),
    {
        let t = meshing_block_type(&self.imgs, &type_);
        let id = self.last_id;
        self.storage.push(t);
        self.un_meshed_storage.push(type_);
        self.name_binds.push((name, id));
        self.last_id = BlockId(id.0 + 1);
        proof {
            assert(self.name_binds@.drop_last() =~= old(self).name_binds@);
            assert(forall|k: int| 0 <= k < old(self).storage@.len() ==> #[trigger] self.storage@[k] == old(self).storage@[k]);
            assert(self.storage@[old(self).storage@.len() as int] == t);
        }
    }

    /// Meshes every registered type again from its definition under the current atlas.
    pub fn update_meshes(&mut self)
        requires
            old(self).wf_base(),
        ensures
            final(self).wf_base(),
            old(self).wf() ==> final(self).wf(),
            final(self).meshes_current(),
            final(self).storage@.len() == old(self).storage@.len(),
            final(self).un_meshed_storage@ == old(self).un_meshed_storage@,
            final(self).name_binds@ == old(self).name_binds@,
            final(self).last_id == old(self).last_id,
            final(self).imgs == old(self).imgs,
    {
        let mut k: usize = 0;
        while k < self.storage.len()
            invariant
                self.wf_base(),
                k <= self.storage@.len(),
                self.storage@.len() == old(self).storage@.len(),
                self.un_meshed_storage@ == old(self).un_meshed_storage@,
                self.name_binds@ == old(self).name_binds@,
                self.last_id == old(self).last_id,
                self.imgs == old(self).imgs,
                forall|j: int|
                    0 <= j < k ==> (#[trigger] self.storage@[j]).meshes(
                        &self.imgs,
                        &self.un_meshed_storage@[j],
                    ),
            decreases self.storage@.len() - k,
        {
            let t = meshing_block_type(&self.imgs, &self.un_meshed_storage[k]);
            self.storage.set(k, t);
            k = k + 1;
        }
    }

    /// Id bound to `name`, if any.
    pub fn get_id_by_name(&self, name: &String) -> (r: Option<BlockId>)
        ensures
            r == self.id_of(name@),
    {
        find_last(&self.name_binds, name)
    }

    /// Meshed type of `id`, or `None` when `id` is not registered.
    pub fn get(&self, id: BlockId) -> (r: Option<&BlockType>)
        requires
            self.wf_base(),
        ensures
            r == (if self.registered(id) {
                Some(&self.type_of(id))
            } else {
                None
            }),
    {
        if 1 <= id.0 && id.0 < self.last_id.0 {
            Some(&self.storage[(id.0 - 1) as usize])
        } else {
            None
        }
    }

    /// Meshed type of `id`, or of the fallback type `"unknown"` when `id` is
    /// not registered, so meshing never fails on a stale id.
    pub fn get_or_default(&self, id: BlockId) -> (r: &BlockType)
        requires
            self.wf(),
        ensures
            *r == self.type_or_default(id),
            r.wf(),
    {
        proof {
            self.lemma_id_of_registered(unknown_name());
        }
        match self.get(id) {
            Some(t) => t,
            None => {
                let unknown = make_unknown_name();
                let uid = self.get_id_by_name(&unknown);
                match uid {
                    Some(u) => match self.get(u) {
                        Some(t) => t,
                        None => {
                            assert(false);
                            &self.storage[0]
                        },
                    },
                    None => {
                        assert(false);
                        &self.storage[0]
                    },
                }
            },
        }
    }

    /// Packs newly loaded textures into the atlas (see `BlockImageStorage::merge`),
    /// meshes every registered type again against the new atlas, then registers
    /// `types` in order under consecutive ids.
    pub fn add_block_types(
        &mut self,
        new_imgs: &BlockImageStorage,
        self_offset: (u32, u32),
        new_offset: (u32, u32),
        texture_size: (u32, u32),
        types: Vec<(String, UnMeshedBlockType)>,
    )
        requires
            old(self).wf(),
            old(self).last_id.0 + types@.len() < u32::MAX,
            forall|k: int| 0 <= k < old(self).imgs.rects@.len() ==> can_shift_rect(#[trigger] old(self).imgs.rects@[k], self_offset),
            forall|k: int| 0 <= k < new_imgs.rects@.len() ==> can_shift_rect(#[trigger] new_imgs.rects@[k], new_offset),
            old(self).imgs.rects@.len() + new_imgs.rects@.len() <= usize::MAX,
            forall|k: int| 0 <= k < new_imgs.binds@.len() ==> (#[trigger] new_imgs.binds@[k]).1 + old(self).imgs.rects@.len() <= usize::MAX,
        ensures
            final(self).wf(),
            final(self).meshes_current(),
            final(self).last_id.0 == old(self).last_id.0 + types@.len(),
            final(self).imgs.texture_size == texture_size,
            final(self).imgs.rects@ == old(self).imgs.rects@.map_values(|r: Rect| shift_rect(r, self_offset))
                + new_imgs.rects@.map_values(|r: Rect| shift_rect(r, new_offset)),
            final(self).un_meshed_storage@ == old(self).un_meshed_storage@ + types@.map_values(
                |t: (String, UnMeshedBlockType)| t.1,
            ),
            final(self).name_binds@ == old(self).name_binds@ + Seq::new(
                types@.len(),
                |k: int| (types@[k].0, BlockId((old(self).last_id.0 + k) as u32)),
            ),
    {
        self.imgs.merge(new_imgs, self_offset, new_offset, texture_size);
        self.update_meshes();
        let ghost mid = *self;
        let mut types = types;
        let ghost all = types@;
        let mut k: usize = 0;
        while types.len() > 0
            invariant
                self.wf(),
                self.meshes_current(),
                k <= all.len(),
                types@ == all.subrange(k as int, all.len() as int),
                self.last_id.0 == mid.last_id.0 + k,
                mid.last_id.0 + all.len() < u32::MAX,
                self.imgs == mid.imgs,
                self.un_meshed_storage@ == mid.un_meshed_storage@ + all.subrange(0, k as int).map_values(
                    |t: (String, UnMeshedBlockType)| t.1,
                ),
                self.name_binds@ == mid.name_binds@ + Seq::new(
                    k as nat,
                    |j: int| (all[j].0, BlockId((mid.last_id.0 + j) as u32)),
                ),
            decreases types@.len(),
        {
            let (name, t) = types.remove(0);
            self.add(name, t);
            k = k + 1;
            assert(all.subrange(0, k as int) =~= all.subrange(0, k - 1).push(all[k - 1]));
            assert(self.un_meshed_storage@ =~= mid.un_meshed_storage@ + all.subrange(0, k as int).map_values(
                |t: (String, UnMeshedBlockType)| t.1,
            ));
            assert(self.name_binds@ =~= mid.name_binds@ + Seq::new(
                k as nat,
                |j: int| (all[j].0, BlockId((mid.last_id.0 + j) as u32)),
            ));
            assert(types@ =~= all.subrange(k as int, all.len() as int));
        }
        assert(all.subrange(0, k as int) =~= all);
    }
}

/// The catalog that the game starts with: the fallback atlas and type only.
pub fn create_blocks_storage() -> (r: BlockStorage)
    ensures
        r.wf(),
        r.meshes_current(),
        r.last_id.0 == 2,
        r.id_of(unknown_name()) == Some(BlockId(1)),
{
    BlockStorage::new()
}

/// Fallback: an id that is not registered gets the same block type as the
/// id bound to `"unknown"`.
pub proof fn lemma_get_or_default_fallback(s: &BlockStorage, id: BlockId)
    requires
        s.wf(),
        !s.registered(id),
    ensures
        s.type_or_default(id) == s.type_or_default(s.unknown_id()),
{
    s.lemma_id_of_registered(unknown_name());
}
} // verus!
