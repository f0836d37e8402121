use vstd::prelude::*;
use vstd::arithmetic::div_mod::{lemma_basic_div, lemma_div_plus_one};

use crate::catalog::BlockStorage;
use crate::store::{ChunksStorage, lemma_pos_key_injective, pos_key};
use crate::world::{MAX_CHUNKS, UpdateChunks, adjacent_or_same};

verus! {

/// Which slots of the active window are loaded, by `[x][y]`.
pub struct LoadedChunksInPipeline {
    pub chunks: Vec<Vec<bool>>,
}

/// Slots waiting to be loaded, nearest first, and how many beyond the first
/// are taken per tick.
pub struct LoadChunksPipeLine {
    pub pipeline: Vec<(i32, i32)>,
    pub speed: usize,
}

pub open spec fn in_window(size: (u32, u32), p: (i32, i32)) -> bool {
    0 <= p.0 < size.0 && 0 <= p.1 < size.1
}

pub open spec fn abs(v: int) -> int {
    if v < 0 {
        -v
    } else {
        v
    }
}

/// Square ring of slot `(x, y)` around the window's centre `(size.0 / 2, size.1 / 2)`.
pub open spec fn ring(size: (u32, u32), x: int, y: int) -> int {
    let dx = abs(x - size.0 / 2);
    let dy = abs(y - size.1 / 2);
    if dx < dy {
        dy
    } else {
        dx
    }
}

/// Loading order of slot `p`: by ring, then by x, then by y.
pub open spec fn load_key(size: (u32, u32), p: (i32, i32)) -> (int, int, int) {
    (ring(size, p.0 as int, p.1 as int), p.0 as int, p.1 as int)
}

pub open spec fn lex_lt(a: (int, int, int), b: (int, int, int)) -> bool {
    ||| a.0 < b.0
    ||| a.0 == b.0 && a.1 < b.1
    ||| a.0 == b.0 && a.1 == b.1 && a.2 < b.2
}

impl LoadedChunksInPipeline {
    /// The grid has one row per x and one flag per y.
    pub open spec fn shaped(&self, size: (u32, u32)) -> bool {
        &&& self.chunks@.len() == size.0
        &&& forall|x: int| 0 <= x < size.0 ==> (#[trigger] self.chunks@[x])@.len() == size.1
    }

    /// Whether slot `p` counts as loaded for a window of `size`; a grid of
    /// another shape counts as nothing loaded.
    pub open spec fn is_loaded(&self, size: (u32, u32), p: (i32, i32)) -> bool {
        self.shaped(size) && self.chunks@[p.0 as int]@[p.1 as int]
    }

    /// A grid of `size` with nothing loaded.
    pub fn reset(&mut self, size: (u32, u32))
        ensures
            final(self).shaped(size),
            forall|p: (i32, i32)| in_window(size, p) ==> !#[trigger] final(self).is_loaded(size, p),
    {
        self.chunks = Vec::new();
        let mut x: u32 = 0;
        while x < size.0
            invariant
                x <= size.0,
                self.chunks@.len() == x,
                forall|i: int| 0 <= i < x ==> (#[trigger] self.chunks@[i])@ == Seq::new(size.1 as nat, |j: int| false),
            decreases size.0 - x,
        {
            let mut row: Vec<bool> = Vec::new();
            let mut y: u32 = 0;
            while y < size.1
                invariant
                    y <= size.1,
                    row@ == Seq::new(y as nat, |j: int| false),
                decreases size.1 - y,
            {
                row.push(false);
                y = y + 1;
                assert(row@ =~= Seq::new(y as nat, |j: int| false));
            }
            self.chunks.push(row);
            x = x + 1;
        }
    }
}

/// Schedules every slot of the window that is not loaded yet: they join the
/// end of the queue ordered ring by ring outwards from the window's centre
/// (within a ring by x, then y) and count as loaded from then on. Slots
/// already loaded stay loaded and are not queued again. A loaded grid of
/// another shape than `size` is first reset to nothing loaded.
pub fn create_load_pipeline(
    loaded: &mut LoadedChunksInPipeline,
    pipeline: &mut LoadChunksPipeLine,
    size: (u32, u32),
)
    requires
        size.0 * size.1 <= MAX_CHUNKS,
    ensures
        final(loaded).shaped(size),
        forall|p: (i32, i32)| in_window(size, p) ==> #[trigger] final(loaded).is_loaded(size, p),
        final(pipeline).speed == old(pipeline).speed,
        final(pipeline).pipeline@.len() >= old(pipeline).pipeline@.len(),
        final(pipeline).pipeline@.subrange(0, old(pipeline).pipeline@.len() as int) == old(pipeline).pipeline@,
        forall|k: int|
            old(pipeline).pipeline@.len() <= k < final(pipeline).pipeline@.len() ==> {
                &&& in_window(size, #[trigger] final(pipeline).pipeline@[k])
                &&& !old(loaded).is_loaded(size, final(pipeline).pipeline@[k])
            },
        forall|p: (i32, i32)|
            in_window(size, p) && !#[trigger] old(loaded).is_loaded(size, p) ==> exists|k: int|
                old(pipeline).pipeline@.len() <= k < final(pipeline).pipeline@.len()
                    && final(pipeline).pipeline@[k] == p,
        forall|i: int, j: int|
            old(pipeline).pipeline@.len() <= i < j < final(pipeline).pipeline@.len() ==> lex_lt(
                load_key(size, #[trigger] final(pipeline).pipeline@[i]),
                load_key(size, #[trigger] final(pipeline).pipeline@[j]),
            ),
{
    let ghost was = *loaded;
    let ghost n0 = pipeline.pipeline@.len();
    if !loaded_shaped(loaded, size) {
        loaded.reset(size);
    }
    assert forall|p: (i32, i32)| in_window(size, p) implies #[trigger] loaded.is_loaded(size, p) == was.is_loaded(size, p) by {}
    if size.0 == 0 || size.1 == 0 {
        return;
    }
    let sx = size.0;
    let sz = size.1;
    let rings: u32 = if sx < sz {
        sz
    } else {
        sx
    };
    let cx = (sx / 2) as i64;
    let cz = (sz / 2) as i64;
    assert(sx <= MAX_CHUNKS && sz <= MAX_CHUNKS) by (nonlinear_arith)
        requires
            sx * sz <= MAX_CHUNKS,
            sx >= 1,
            sz >= 1,
    ;
    let mut d: u32 = 0;
    let mut x2: u32 = 0;
    let mut y2: u32 = 0;
    while d < rings
        invariant
            sx == size.0,
            sz == size.1,
            sx > 0 && sz > 0,
            size.0 * size.1 <= MAX_CHUNKS,
            sx <= MAX_CHUNKS && sz <= MAX_CHUNKS,
            rings == (if sx < sz { sz } else { sx }),
            cx == sx / 2,
            cz == sz / 2,
            d <= rings,
            d < rings ==> x2 < sx && y2 < sz,
            d == rings ==> x2 == 0 && y2 == 0,
            loaded.shaped(size),
            pipeline.speed == old(pipeline).speed,
            pipeline.pipeline@.len() >= n0,
            n0 == old(pipeline).pipeline@.len(),
            pipeline.pipeline@.subrange(0, n0 as int) == old(pipeline).pipeline@,
            forall|p: (i32, i32)|
                in_window(size, p) ==> #[trigger] loaded.is_loaded(size, p) == (was.is_loaded(size, p)
                    || lex_lt(load_key(size, p), (d as int, x2 as int, y2 as int))),
            forall|k: int|
                n0 <= k < pipeline.pipeline@.len() ==> {
                    &&& in_window(size, #[trigger] pipeline.pipeline@[k])
                    &&& !was.is_loaded(size, pipeline.pipeline@[k])
                    &&& lex_lt(load_key(size, pipeline.pipeline@[k]), (d as int, x2 as int, y2 as int))
                },
            forall|p: (i32, i32)|
                in_window(size, p) && !#[trigger] was.is_loaded(size, p) && lex_lt(
                    load_key(size, p),
                    (d as int, x2 as int, y2 as int),
                ) ==> exists|k: int| n0 <= k < pipeline.pipeline@.len() && pipeline.pipeline@[k] == p,
            forall|i: int, j: int|
                n0 <= i < j < pipeline.pipeline@.len() ==> lex_lt(
                    load_key(size, #[trigger] pipeline.pipeline@[i]),
                    load_key(size, #[trigger] pipeline.pipeline@[j]),
                ),
        decreases rings - d, sx - x2, sz - y2,
    {
        let p: (i32, i32) = (x2 as i32, y2 as i32);
        let ax = if x2 as i64 >= cx { x2 as i64 - cx } else { cx - x2 as i64 };
        let ay = if y2 as i64 >= cz { y2 as i64 - cz } else { cz - y2 as i64 };
        let dd = d as i64;
        let on_ring = (ax == dd && ay <= dd) || (ay == dd && ax <= dd);
        assert(on_ring == (ring(size, p.0 as int, p.1 as int) == d));
        let ghost before = pipeline.pipeline@;
        let ghost before_loaded = *loaded;
        if on_ring {
            if !loaded.chunks[x2 as usize][y2 as usize] {
                pipeline.pipeline.push(p);
                loaded.chunks[x2 as usize].set(y2 as usize, true);
            }
        }
        let ghost cur = (d as int, x2 as int, y2 as int);
        y2 = y2 + 1;
        if y2 == sz {
            y2 = 0;
            x2 = x2 + 1;
            if x2 == sx {
                x2 = 0;
                d = d + 1;
            }
        }
        proof {
            let next = (d as int, x2 as int, y2 as int);
            assert forall|q: (i32, i32)| in_window(size, q) implies lex_lt(load_key(size, q), next) == (lex_lt(
                load_key(size, q),
                cur,
            ) || load_key(size, q) == cur) by {}
            assert(loaded.shaped(size)) by {
                assert forall|x: int| 0 <= x < size.0 implies (#[trigger] loaded.chunks@[x])@.len() == size.1 by {
                    assert(before_loaded.chunks@[x]@.len() == size.1);
                }
            }
            assert forall|q: (i32, i32)| in_window(size, q) implies #[trigger] loaded.is_loaded(size, q) == (
            was.is_loaded(size, q) || lex_lt(load_key(size, q), next)) by {
                assert(before_loaded.is_loaded(size, q) == (was.is_loaded(size, q) || lex_lt(load_key(size, q), cur)));
                if q != p {
                    assert(loaded.chunks@[q.0 as int]@[q.1 as int] == before_loaded.chunks@[q.0 as int]@[q.1 as int]);
                }
            }
            assert forall|q: (i32, i32)|
                in_window(size, q) && !#[trigger] was.is_loaded(size, q) && lex_lt(load_key(size, q), next)
                implies exists|k: int| n0 <= k < pipeline.pipeline@.len() && pipeline.pipeline@[k] == q by {
                if q == p && load_key(size, q) == cur && !before_loaded.is_loaded(size, q) {
                    assert(pipeline.pipeline@[before.len() as int] == q);
                } else {
                    assert(lex_lt(load_key(size, q), cur) || load_key(size, q) == cur);
                    if load_key(size, q) == cur {
                        assert(q == p);
                        assert(before_loaded.is_loaded(size, q));
                        assert(lex_lt(load_key(size, q), cur));
                    }
                    let k = choose|k: int| n0 <= k < before.len() && before[k] == q;
                    assert(pipeline.pipeline@[k] == q);
                }
            }
            assert forall|k: int| n0 <= k < pipeline.pipeline@.len() implies {
                &&& in_window(size, #[trigger] pipeline.pipeline@[k])
                &&& !was.is_loaded(size, pipeline.pipeline@[k])
                &&& lex_lt(load_key(size, pipeline.pipeline@[k]), next)
            } by {
                if k < before.len() {
                    assert(pipeline.pipeline@[k] == before[k]);
                    assert(lex_lt(load_key(size, before[k]), cur));
                } else {
                    assert(pipeline.pipeline@[k] == p);
                    assert(in_window(size, p));
                    assert(load_key(size, p) == cur);
                    assert(before_loaded.is_loaded(size, p) == (was.is_loaded(size, p) || lex_lt(load_key(size, p), cur)));
                    assert(!before_loaded.is_loaded(size, p));
                    assert(lex_lt(load_key(size, p), next) == (lex_lt(load_key(size, p), cur) || load_key(size, p) == cur));
                }
            }
            assert(pipeline.pipeline@.subrange(0, n0 as int) =~= old(pipeline).pipeline@) by {
                assert(pipeline.pipeline@.subrange(0, n0 as int) =~= before.subrange(0, n0 as int));
            }
        }
    }
    proof {
        assert forall|q: (i32, i32)| in_window(size, q) implies ring(size, q.0 as int, q.1 as int) < rings by {}
    }
}

/// Whether `loaded` has exactly the shape of a window of `size`.
fn loaded_shaped(loaded: &LoadedChunksInPipeline, size: (u32, u32)) -> (r: bool)
    ensures
        r == loaded.shaped(size),
{
    if loaded.chunks.len() != size.0 as usize {
        return false;
    }
    let mut x: usize = 0;
    while x < loaded.chunks.len()
        invariant
            loaded.chunks@.len() == size.0,
            x <= loaded.chunks@.len(),
            forall|i: int| 0 <= i < x ==> (#[trigger] loaded.chunks@[i])@.len() == size.1,
        decreases loaded.chunks@.len() - x,
    {
        if loaded.chunks[x].len() != size.1 as usize {
            return false;
        }
        x = x + 1;
    }
    true
}


/// Number of queue entries one tick handles: `speed + 1`, or all when fewer remain.
pub open spec fn taken(len: int, speed: int) -> int {
    if len < speed + 1 {
        len
    } else {
        speed + 1
    }
}

/// Whether `p` is among the first `n` entries of `q`.
pub open spec fn prefix_has(q: Seq<(i32, i32)>, n: int, p: (i32, i32)) -> bool {
    exists|k: int| 0 <= k < n && #[trigger] q[k] == p
}

/// Whether `p` is, or lies beside, one of the first `n` entries of `q`.
pub open spec fn prefix_near(q: Seq<(i32, i32)>, n: int, p: (i32, i32)) -> bool {
    exists|k: int| 0 <= k < n && adjacent_or_same(#[trigger] q[k], p)
}

/// One tick of the pipeline: takes `taken(len, speed)` positions off the
/// front of the queue; for each, in order, fetches its grid from the store
/// (generating and archiving it the first time), puts it in the chunk at
/// that position, and marks that chunk and its four neighbours as needing
/// a new mesh. The rest of the queue waits for the next tick.
pub fn load(
    pipeline: &mut LoadChunksPipeLine,
    update_chunks: &mut UpdateChunks,
    chunk_storage: &mut ChunksStorage,
    block_storage: &BlockStorage,
)
    requires
        old(update_chunks).wf(),
        old(chunk_storage).wf(),
        block_storage.wf(),
        forall|k: int|
            0 <= k < old(pipeline).pipeline@.len() ==> in_window(
                old(update_chunks).size,
                #[trigger] old(pipeline).pipeline@[k],
            ),
    ensures
        ({
            let q = old(pipeline).pipeline@;
            let n = taken(q.len() as int, old(pipeline).speed as int);
            &&& final(pipeline).pipeline@ == q.subrange(n, q.len() as int)
            &&& final(pipeline).speed == old(pipeline).speed
            &&& final(update_chunks).wf()
            &&& final(update_chunks).size == old(update_chunks).size
            &&& final(update_chunks).chunks@.len() == old(update_chunks).chunks@.len()
            &&& final(chunk_storage).wf()
            &&& forall|k: int|
                0 <= k < n ==> #[trigger] final(chunk_storage).archived(q[k])
                    && final(chunk_storage).archived_grid(q[k]) == old(chunk_storage).grid_for(q[k], block_storage)
            &&& forall|key: u64|
                #[trigger] old(chunk_storage).chunks@.contains_key(key) ==> final(chunk_storage).chunks@.contains_key(key)
                    && final(chunk_storage).chunks@[key] == old(chunk_storage).chunks@[key]
            &&& forall|j: int|
                0 <= j < final(update_chunks).chunks@.len() ==> {
                    let c = old(update_chunks).chunks@[j];
                    &&& (#[trigger] final(update_chunks).chunks@[j]).same_frame(&c)
                    &&& final(update_chunks).chunks@[j].blocks@ == (if prefix_has(q, n, c.pos) {
                        old(chunk_storage).grid_for(c.pos, block_storage)
                    } else {
                        c.blocks@
                    })
                    &&& final(update_chunks).chunks@[j].is_generated_mesh == (c.is_generated_mesh
                        && !prefix_near(q, n, c.pos))
                }
        }),
{
    let ghost q = pipeline.pipeline@;
    let ghost w0 = *update_chunks;
    let ghost st0 = *chunk_storage;
    let len = pipeline.pipeline.len();
    let n: usize = if len <= pipeline.speed {
        len
    } else {
        pipeline.speed + 1
    };
    let mut i: usize = 0;
    while i < n
        invariant
            pipeline.pipeline@ == q,
            pipeline.speed == old(pipeline).speed,
            n == taken(q.len() as int, pipeline.speed as int),
            n <= q.len(),
            i <= n,
            block_storage.wf(),
            forall|k: int| 0 <= k < q.len() ==> in_window(w0.size, #[trigger] q[k]),
            update_chunks.wf(),
            update_chunks.size == w0.size,
            update_chunks.chunks@.len() == w0.chunks@.len(),
            chunk_storage.wf(),
            forall|k: int|
                0 <= k < i ==> #[trigger] chunk_storage.archived(q[k]) && chunk_storage.archived_grid(q[k])
                    == st0.grid_for(q[k], block_storage),
            forall|key: u64|
                #[trigger] st0.chunks@.contains_key(key) ==> chunk_storage.chunks@.contains_key(key)
                    && chunk_storage.chunks@[key] == st0.chunks@[key],
            forall|key: u64|
                #[trigger] chunk_storage.chunks@.contains_key(key) ==> st0.chunks@.contains_key(key)
                    || exists|k: int| 0 <= k < i && pos_key(#[trigger] q[k]) == key,
            forall|j: int|
                0 <= j < update_chunks.chunks@.len() ==> {
                    let c = w0.chunks@[j];
                    &&& (#[trigger] update_chunks.chunks@[j]).same_frame(&c)
                    &&& update_chunks.chunks@[j].blocks@ == (if prefix_has(q, i as int, c.pos) {
                        st0.grid_for(c.pos, block_storage)
                    } else {
                        c.blocks@
                    })
                    &&& update_chunks.chunks@[j].is_generated_mesh == (c.is_generated_mesh && !prefix_near(
                        q,
                        i as int,
                        c.pos,
                    ))
                },
        decreases n - i,
    {
        let p = pipeline.pipeline[i];
        assert(in_window(w0.size, q[i as int]));
        let s = update_chunks.get_chunk_entity(p.0, p.1);
        proof {
            update_chunks.lemma_slot_pos(p.0 as int, p.1 as int);
        }
        let ghost st_i = *chunk_storage;
        let ghost w_i = *update_chunks;
        proof {
            // What the store hands back for `p` is what the store held before this tick would.
            if prefix_has(q, i as int, p) {
                let k = choose|k: int| 0 <= k < i && #[trigger] q[k] == p;
                assert(chunk_storage.archived(q[k]));
            } else if st0.archived(p) {
                assert(st0.chunks@.contains_key(pos_key(p)));
            } else {
                if chunk_storage.archived(p) {
                    assert(chunk_storage.chunks@.contains_key(pos_key(p)));
                    let k = choose|k: int| 0 <= k < i && pos_key(#[trigger] q[k]) == pos_key(p);
                    lemma_pos_key_injective(q[k], p);
                    assert(prefix_has(q, i as int, p));
                }
            }
            assert(st_i.grid_for(p, block_storage) == st0.grid_for(p, block_storage));
        }
        let data = chunk_storage.get(p, block_storage);
        update_chunks.replace_data(s, data);
        proof {
            let ni = (i + 1) as int;
            assert forall|k: int|
                0 <= k < ni implies #[trigger] chunk_storage.archived(q[k]) && chunk_storage.archived_grid(q[k])
                    == st0.grid_for(q[k], block_storage) by {
                if k < i {
                    assert(st_i.archived(q[k]));
                    if pos_key(q[k]) != pos_key(p) {
                        assert(chunk_storage.chunks@[pos_key(q[k])] == st_i.chunks@[pos_key(q[k])]) by {
                            if !st_i.archived(p) {
                                assert(chunk_storage.chunks@.remove(pos_key(p)).contains_key(pos_key(q[k])));
                            }
                        }
                    } else {
                        lemma_pos_key_injective(q[k], p);
                    }
                } else {
                    assert(q[k] == p);
                    assert(chunk_storage.archived_grid(p) == data@);
                }
            }
            assert forall|key: u64|
                #[trigger] st0.chunks@.contains_key(key) implies chunk_storage.chunks@.contains_key(key)
                    && chunk_storage.chunks@[key] == st0.chunks@[key] by {
                assert(st_i.chunks@.contains_key(key));
                if key != pos_key(p) && !st_i.archived(p) {
                    assert(chunk_storage.chunks@.remove(pos_key(p)).contains_key(key));
                }
            }
            assert forall|key: u64|
                #[trigger] chunk_storage.chunks@.contains_key(key) implies st0.chunks@.contains_key(key)
                    || exists|k: int| 0 <= k < ni && pos_key(#[trigger] q[k]) == key by {
                if key == pos_key(p) {
                    assert(pos_key(q[i as int]) == key);
                } else if !st_i.archived(p) {
                    assert(chunk_storage.chunks@.remove(pos_key(p)).contains_key(key));
                    assert(st_i.chunks@.contains_key(key));
                } else {
                    assert(st_i.chunks@.contains_key(key));
                }
            }
            assert forall|j: int| 0 <= j < update_chunks.chunks@.len() implies {
                let c = w0.chunks@[j];
                &&& (#[trigger] update_chunks.chunks@[j]).same_frame(&c)
                &&& update_chunks.chunks@[j].blocks@ == (if prefix_has(q, ni, c.pos) {
                    st0.grid_for(c.pos, block_storage)
                } else {
                    c.blocks@
                })
                &&& update_chunks.chunks@[j].is_generated_mesh == (c.is_generated_mesh && !prefix_near(q, ni, c.pos))
            } by {
                let c = w0.chunks@[j];
                assert(w_i.chunks@[j].same_frame(&c));
                assert(w_i.chunks@[s as int].pos == p);
                w_i.lemma_links_by_pos(s as int, j);
                assert(prefix_has(q, ni, c.pos) == (prefix_has(q, i as int, c.pos) || c.pos == p)) by {
                    if c.pos == p {
                        assert(q[i as int] == c.pos);
                    }
                    if prefix_has(q, ni, c.pos) && !prefix_has(q, i as int, c.pos) {
                        let k = choose|k: int| 0 <= k < ni && #[trigger] q[k] == c.pos;
                        assert(k == i);
                    }
                }
                assert(prefix_near(q, ni, c.pos) == (prefix_near(q, i as int, c.pos) || adjacent_or_same(p, c.pos))) by {
                    if adjacent_or_same(p, c.pos) {
                        assert(adjacent_or_same(q[i as int], c.pos));
                    }
                    if prefix_near(q, ni, c.pos) && !prefix_near(q, i as int, c.pos) {
                        let k = choose|k: int| 0 <= k < ni && adjacent_or_same(#[trigger] q[k], c.pos);
                        assert(k == i);
                    }
                }
                if c.pos == p {
                    assert(j == s);
                }
            }
        }
        i = i + 1;
    }
    let rest = pipeline.pipeline.split_off(n);
    pipeline.pipeline = rest;
}

/// Ticks needed to empty a queue of `len` entries at `speed`.
pub open spec fn drain_ticks(len: nat, speed: nat) -> nat
    decreases len,
{
    if len == 0 {
        0
    } else {
        1 + drain_ticks((len - taken(len as int, speed as int)) as nat, speed)
    }
}

/// Fairness: each tick handles `min(speed + 1, len)` entries (see `load`),
/// so a queue of `len` entries empties in `ceil(len / (speed + 1))` ticks.
pub proof fn lemma_drain_ticks(len: nat, speed: nat)
    ensures
        drain_ticks(len, speed) == (len + speed) / (speed + 1),
    decreases len,
{
    let d = (speed + 1) as int;
    if len == 0 {
        lemma_basic_div(speed as int, d);
    } else if len < speed + 1 {
        assert(drain_ticks(0, speed) == 0);
        assert((len + speed) as int / d == 1) by {
            lemma_div_plus_one((len as int) - 1, d);
            lemma_basic_div((len as int) - 1, d);
        }
    } else {
        let rest = (len - d) as nat;
        lemma_drain_ticks(rest, speed);
        lemma_div_plus_one((rest + speed) as int, d);
        assert(d + (rest + speed) == len + speed);
    }
}
} // verus!
