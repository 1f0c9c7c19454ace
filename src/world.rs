use vstd::prelude::*;

use crate::block::{block_is_solid, BlockType};
use crate::chunk::{cell_index, clamped_levels, in_chunk, Chunk, CHUNK_HEIGHT, CHUNK_VOLUME, MAX_FLUID_LEVEL};

verus! {

/// Position of a chunk on the chunk grid.
#[derive(Clone, Copy, Debug, PartialEq, Eq, Structural, Hash)]
pub struct ChunkPos {
    pub x: i32,
    pub z: i32,
}

/// The chunk that holds world column `(x, z)`.
pub open spec fn chunk_of(x: int, z: int) -> ChunkPos {
    ChunkPos { x: (x / 16) as i32, z: (z / 16) as i32 }
}

/// Whether `q` is one of the four lateral neighbours of `p`.
pub open spec fn is_lateral_neighbor(p: ChunkPos, q: ChunkPos) -> bool {
    ||| (q.z == p.z && (q.x == p.x + 1 || q.x == p.x - 1))
    ||| (q.x == p.x && (q.z == p.z + 1 || q.z == p.z - 1))
}

/// The loaded lateral neighbours of `p`.
pub open spec fn loaded_neighbors(m: Map<ChunkPos, Chunk>, p: ChunkPos) -> Set<ChunkPos> {
    Set::new(|q: ChunkPos| m.contains_key(q) && is_lateral_neighbor(p, q))
}

/// Whether any cell of a chunk holds fluid.
pub open spec fn chunk_has_fluid(c: Chunk) -> bool {
    exists|i: int| 0 <= i < CHUNK_VOLUME && #[trigger] c.fluid_seq()[i] > 0
}

/// Whether any entry of `levels` is above zero.
pub fn any_fluid(levels: &[u8]) -> (r: bool)
    ensures
        r == exists|i: int| 0 <= i < levels@.len() && #[trigger] levels@[i] > 0,
{
    let mut i: usize = 0;
    while i < levels.len()
        invariant
            i <= levels@.len(),
            forall|j: int| 0 <= j < i ==> levels@[j] == 0,
        decreases levels@.len() - i,
    {
        if levels[i] > 0 {
            return true;
        }
        i = i + 1;
    }
    false
}

/// Position, inside its chunk, of world cell `(x, y, z)`.
pub open spec fn local_of(x: int, y: int, z: int) -> int {
    cell_index(x % 16, y, z % 16)
}

/// Whether world cell `(x, y, z)` lies in a loaded chunk.
pub open spec fn view_loaded(fv: Map<ChunkPos, Seq<u8>>, x: int, y: int, z: int) -> bool {
    0 <= y < 256 && fv.contains_key(chunk_of(x, z))
}

/// Fluid level of world cell `(x, y, z)`; 0 outside loaded chunks.
pub open spec fn view_fluid(fv: Map<ChunkPos, Seq<u8>>, x: int, y: int, z: int) -> u8 {
    if view_loaded(fv, x, y, z) {
        fv[chunk_of(x, z)][local_of(x, y, z)]
    } else {
        0
    }
}

/// Block of world cell `(x, y, z)`; air outside loaded chunks.
pub open spec fn view_block(
    fv: Map<ChunkPos, Seq<u8>>,
    bv: Map<ChunkPos, Seq<BlockType>>,
    x: int,
    y: int,
    z: int,
) -> BlockType {
    if view_loaded(fv, x, y, z) {
        bv[chunk_of(x, z)][local_of(x, y, z)]
    } else {
        BlockType::Air
    }
}

/// Fluid levels after setting world cell `(x, y, z)` to `amount`.
pub open spec fn view_set_fluid(fv: Map<ChunkPos, Seq<u8>>, x: int, y: int, z: int, amount: u8) -> Map<ChunkPos, Seq<u8>> {
    if view_loaded(fv, x, y, z) {
        fv.insert(chunk_of(x, z), fv[chunk_of(x, z)].update(local_of(x, y, z), amount))
    } else {
        fv
    }
}

/// Blocks after setting world cell `(x, y, z)` to fluid level `amount`: fluid turns it to air.
pub open spec fn view_set_fluid_blocks(
    fv: Map<ChunkPos, Seq<u8>>,
    bv: Map<ChunkPos, Seq<BlockType>>,
    x: int,
    y: int,
    z: int,
    amount: u8,
) -> Map<ChunkPos, Seq<BlockType>> {
    if view_loaded(fv, x, y, z) && amount > 0 {
        bv.insert(chunk_of(x, z), bv[chunk_of(x, z)].update(local_of(x, y, z), BlockType::Air))
    } else {
        bv
    }
}

/// Splits a world coordinate into its chunk coordinate and its offset inside the chunk.
pub fn split_coord(v: i32) -> (r: (i32, usize))
    ensures
        r.0 == v as int / 16,
        r.1 == v as int % 16,
        r.1 < 16,
{
    if v >= 0 {
        ((v / 16) as i32, (v % 16) as usize)
    } else {
        let u: u32 = (-(v as i64) - 1) as u32;
        let q: i32 = -((u / 16) as i32) - 1;
        let rem: usize = (15 - u % 16) as usize;
        proof {
            assert(v as int == q * 16 + rem) by (nonlinear_arith)
                requires u == -(v as int) - 1, q == -((u / 16) as int) - 1, rem == 15 - (u % 16),
                    u % 16 == u - 16 * (u / 16);
        }
        (q, rem)
    }
}

/// The fluid-relevant part of the world: loaded chunks, the chunks whose fluid is still
/// settling, and whether chunk meshes need rebuilding.
pub struct World {
    positions: Vec<ChunkPos>,
    chunks: Vec<Chunk>,
    active: Vec<ChunkPos>,
    mesh_dirty: bool,
}

impl World {
    /// Loaded chunks by position.
    pub closed spec fn chunk_map(&self) -> Map<ChunkPos, Chunk> {
        Map::new(
            |p: ChunkPos| self.positions@.contains(p),
            |p: ChunkPos|
                self.chunks@[choose|i: int| 0 <= i < self.positions@.len() && self.positions@[i] == p],
        )
    }

    /// Chunks whose fluid is not yet known to be settled.
    pub closed spec fn active_set(&self) -> Set<ChunkPos> {
        Set::new(|p: ChunkPos| self.active@.contains(p))
    }

    /// Fluid levels of every loaded chunk.
    pub open spec fn fluid_view(&self) -> Map<ChunkPos, Seq<u8>> {
        self.chunk_map().map_values(|c: Chunk| c.fluid_seq())
    }

    /// Blocks of every loaded chunk.
    pub open spec fn block_view(&self) -> Map<ChunkPos, Seq<BlockType>> {
        self.chunk_map().map_values(|c: Chunk| c.block_seq())
    }

    /// The settling chunks in the order a snapshot lists them.
    pub closed spec fn active_seq(&self) -> Seq<ChunkPos> {
        self.active@
    }

    /// Whether a change to the world asks for chunk meshes to be rebuilt.
    pub closed spec fn dirty(&self) -> bool {
        self.mesh_dirty
    }

    pub closed spec fn inv(&self) -> bool {
        &&& self.positions@.len() == self.chunks@.len()
        &&& self.positions@.no_duplicates()
        &&& self.active@.no_duplicates()
        &&& forall|i: int| 0 <= i < self.chunks@.len() ==> (#[trigger] self.chunks@[i]).wf()
    }

    /// The world is consistent and every loaded chunk is well formed.
    pub open spec fn wf(&self) -> bool {
        &&& self.inv()
        &&& forall|p: ChunkPos| #[trigger] self.chunk_map().contains_key(p) ==> self.chunk_map()[p].wf()
    }

    proof fn lemma_map_at(&self, i: int)
        requires
            self.inv(),
            0 <= i < self.positions@.len(),
        ensures
            self.chunk_map().contains_key(self.positions@[i]),
            self.chunk_map()[self.positions@[i]] == self.chunks@[i],
    {
        let p = self.positions@[i];
        assert(self.positions@.contains(p));
        let j = choose|j: int| 0 <= j < self.positions@.len() && self.positions@[j] == p;
        assert(0 <= j < self.positions@.len() && self.positions@[j] == p);
    }

    proof fn lemma_inv_wf(&self)
        requires
            self.inv(),
        ensures
            self.wf(),
    {
        assert forall|p: ChunkPos| #[trigger] self.chunk_map().contains_key(p) implies self.chunk_map()[p].wf() by {
            let i = choose|i: int| 0 <= i < self.positions@.len() && self.positions@[i] == p;
            self.lemma_map_at(i);
        }
    }

    /// A world without chunks.
    pub fn new() -> (r: World)
        ensures
            r.wf(),
            r.chunk_map() == Map::<ChunkPos, Chunk>::empty(),
            r.active_set() == Set::<ChunkPos>::empty(),
            !r.dirty(),
    {
        let r = World { positions: Vec::new(), chunks: Vec::new(), active: Vec::new(), mesh_dirty: false };
        proof {
            assert(r.chunk_map() =~= Map::<ChunkPos, Chunk>::empty());
            assert(r.active_set() =~= Set::<ChunkPos>::empty());
            r.lemma_inv_wf();
        }
        r
    }

    fn find_chunk(&self, pos: ChunkPos) -> (r: Option<usize>)
        requires
            self.inv(),
        ensures
            r is None <==> !self.chunk_map().contains_key(pos),
            r matches Some(i) ==> i < self.positions@.len() && self.positions@[i as int] == pos
                && self.chunk_map()[pos] == self.chunks@[i as int],
    {
        let mut i: usize = 0;
        while i < self.positions.len()
            invariant
                self.inv(),
                i <= self.positions@.len(),
                forall|j: int| 0 <= j < i ==> self.positions@[j] != pos,
            decreases self.positions@.len() - i,
        {
            if self.positions[i] == pos {
                proof {
                    self.lemma_map_at(i as int);
                }
                return Some(i);
            }
            i = i + 1;
        }
        None
    }

    /// The chunk loaded at `pos`, if any.
    pub fn chunk(&self, pos: ChunkPos) -> (r: Option<&Chunk>)
        requires
            self.wf(),
        ensures
            r is None <==> !self.chunk_map().contains_key(pos),
            r matches Some(c) ==> *c == self.chunk_map()[pos],
    {
        match self.find_chunk(pos) {
            Some(i) => Some(&self.chunks[i]),
            None => None,
        }
    }

    /// Whether a chunk is loaded at `pos`.
    pub fn contains_chunk(&self, pos: ChunkPos) -> (r: bool)
        requires
            self.wf(),
        ensures
            r == self.chunk_map().contains_key(pos),
    {
        self.find_chunk(pos).is_some()
    }

    fn queue_if_loaded(&mut self, pos: ChunkPos)
        requires
            old(self).wf(),
        ensures
            final(self).wf(),
            final(self).chunk_map() == old(self).chunk_map(),
            final(self).active_set() == if old(self).chunk_map().contains_key(pos) {
                old(self).active_set().insert(pos)
            } else {
                old(self).active_set()
            },
            final(self).dirty() == old(self).dirty(),
    {
        if self.contains_chunk(pos) {
            self.queue_fluid_chunk(pos);
        }
    }

    /// Marks every loaded lateral neighbour of `pos` as settling.
    fn queue_loaded_neighbors(&mut self, pos: ChunkPos)
        requires
            old(self).wf(),
        ensures
            final(self).wf(),
            final(self).chunk_map() == old(self).chunk_map(),
            final(self).active_set() == old(self).active_set().union(
                loaded_neighbors(old(self).chunk_map(), pos),
            ),
            final(self).dirty() == old(self).dirty(),
    {
        let ghost m = self.chunk_map();
        let ghost a0 = self.active_set();
        if pos.x < i32::MAX {
            self.queue_if_loaded(ChunkPos { x: pos.x + 1, z: pos.z });
        }
        if pos.x > i32::MIN {
            self.queue_if_loaded(ChunkPos { x: pos.x - 1, z: pos.z });
        }
        if pos.z < i32::MAX {
            self.queue_if_loaded(ChunkPos { x: pos.x, z: pos.z + 1 });
        }
        if pos.z > i32::MIN {
            self.queue_if_loaded(ChunkPos { x: pos.x, z: pos.z - 1 });
        }
        proof {
            assert(self.active_set() =~= a0.union(loaded_neighbors(m, pos)));
        }
    }

    /// Marks `pos` and its loaded lateral neighbours as settling.
    pub fn queue_fluid_chunk_with_neighbors(&mut self, pos: ChunkPos)
        requires
            old(self).wf(),
        ensures
            final(self).wf(),
            final(self).chunk_map() == old(self).chunk_map(),
            final(self).active_set() == old(self).active_set().insert(pos).union(
                loaded_neighbors(old(self).chunk_map(), pos),
            ),
            final(self).dirty() == old(self).dirty(),
    {
        self.queue_fluid_chunk(pos);
        self.queue_loaded_neighbors(pos);
    }

    /// Records the outcome of simulating `pos`: a chunk that changed stays settling and
    /// passes that on to its loaded neighbours; one that did not is settled.
    pub fn finalize_fluid_chunk_state(&mut self, pos: ChunkPos, changed: bool, has_fluid: bool)
        requires
            old(self).wf(),
        ensures
            final(self).wf(),
            final(self).chunk_map() == old(self).chunk_map(),
            final(self).active_set() == if changed {
                old(self).active_set().insert(pos).union(loaded_neighbors(old(self).chunk_map(), pos))
            } else {
                old(self).active_set().remove(pos)
            },
            final(self).dirty() == old(self).dirty(),
    {
        if changed {
            self.queue_fluid_chunk_with_neighbors(pos);
        } else {
            self.dequeue_fluid_chunk(pos);
        }
    }

    /// Loads `chunk` at `pos` unless a chunk is loaded there already; a new chunk that holds
    /// fluid starts out settling.
    pub fn load_chunk(&mut self, pos: ChunkPos, chunk: Chunk)
        requires
            old(self).wf(),
            chunk.wf(),
        ensures
            final(self).wf(),
            old(self).chunk_map().contains_key(pos) ==> final(self).chunk_map() == old(self).chunk_map()
                && final(self).active_set() == old(self).active_set(),
            !old(self).chunk_map().contains_key(pos) ==> {
                &&& final(self).chunk_map() == old(self).chunk_map().insert(pos, chunk)
                &&& final(self).active_set() == if chunk_has_fluid(chunk) {
                    old(self).active_set().insert(pos)
                } else {
                    old(self).active_set()
                }
            },
            final(self).dirty() == old(self).dirty(),
    {
        if self.contains_chunk(pos) {
            return;
        }
        let has_fluid = any_fluid(chunk.fluids());
        let ghost old_map = self.chunk_map();
        self.positions.push(pos);
        self.chunks.push(chunk);
        proof {
            let n = self.positions@.len() - 1;
            assert(self.positions@.no_duplicates()) by {
                assert forall|a: int, b: int| 0 <= a < b < self.positions@.len() implies self.positions@[a] != self.positions@[b] by {
                    if b == n {
                        assert(old(self).positions@[a] == self.positions@[a]);
                        assert(old(self).positions@.contains(self.positions@[a]));
                    } else {
                        assert(old(self).positions@[a] == self.positions@[a]);
                        assert(old(self).positions@[b] == self.positions@[b]);
                    }
                }
            }
            assert forall|i: int| 0 <= i < self.chunks@.len() implies (#[trigger] self.chunks@[i]).wf() by {
                if i < n {
                    assert(self.chunks@[i] == old(self).chunks@[i]);
                }
            }
            assert forall|q: ChunkPos| #[trigger] self.chunk_map().contains_key(q) <==> old_map.insert(pos, chunk).contains_key(q) by {
                if old_map.contains_key(q) {
                    let k = choose|k: int| 0 <= k < old(self).positions@.len() && old(self).positions@[k] == q;
                    assert(self.positions@[k] == q);
                }
                if self.chunk_map().contains_key(q) && q != pos {
                    let k = choose|k: int| 0 <= k < self.positions@.len() && self.positions@[k] == q;
                    assert(old(self).positions@[k] == q);
                }
                if q == pos {
                    assert(self.positions@[n] == pos);
                }
            }
            assert forall|q: ChunkPos| #[trigger] self.chunk_map().contains_key(q) implies self.chunk_map()[q] == old_map.insert(pos, chunk)[q] by {
                let k = choose|k: int| 0 <= k < self.positions@.len() && self.positions@[k] == q;
                self.lemma_map_at(k);
                if k < n {
                    old(self).lemma_map_at(k);
                    assert(old(self).positions@[k] == q);
                }
            }
            assert(self.chunk_map() =~= old_map.insert(pos, chunk));
            self.lemma_inv_wf();
        }
        if has_fluid {
            self.queue_fluid_chunk(pos);
        }
    }

    /// Unloads the chunk at `pos`; it also stops settling.
    pub fn unload_chunk(&mut self, pos: ChunkPos)
        requires
            old(self).wf(),
        ensures
            final(self).wf(),
            final(self).chunk_map() == old(self).chunk_map().remove(pos),
            final(self).active_set() == old(self).active_set().remove(pos),
            final(self).dirty() == old(self).dirty(),
    {
        self.dequeue_fluid_chunk(pos);
        match self.find_chunk(pos) {
            None => {
                proof {
                    assert(self.chunk_map() =~= old(self).chunk_map().remove(pos));
                }
            },
            Some(i) => {
                let ghost old_map = self.chunk_map();
                let ghost ps = self.positions@;
                let ghost cs = self.chunks@;
                self.positions.remove(i);
                self.chunks.remove(i);
                proof {
                    assert(self.positions@ == ps.remove(i as int));
                    assert(self.chunks@ == cs.remove(i as int));
                    assert forall|k: int| 0 <= k < self.positions@.len() implies #[trigger] self.positions@[k] == if k < i { ps[k] } else { ps[k + 1] } && self.chunks@[k] == if k < i { cs[k] } else { cs[k + 1] } by {}
                    assert(self.positions@.no_duplicates()) by {
                        assert forall|a: int, b: int| 0 <= a < b < self.positions@.len() implies self.positions@[a] != self.positions@[b] by {
                            let a2 = if a < i { a } else { a + 1 };
                            let b2 = if b < i { b } else { b + 1 };
                            assert(self.positions@[a] == ps[a2]);
                            assert(self.positions@[b] == ps[b2]);
                        }
                    }
                    assert forall|k: int| 0 <= k < self.chunks@.len() implies (#[trigger] self.chunks@[k]).wf() by {
                        let k2 = if k < i { k } else { k + 1 };
                        assert(self.chunks@[k] == cs[k2]);
                    }
                    assert forall|q: ChunkPos| #[trigger] self.chunk_map().contains_key(q) <==> old_map.remove(pos).contains_key(q) by {
                        if self.chunk_map().contains_key(q) {
                            let k = choose|k: int| 0 <= k < self.positions@.len() && self.positions@[k] == q;
                            let k2 = if k < i { k } else { k + 1 };
                            assert(ps[k2] == q);
                            assert(k2 != i);
                            assert(ps.contains(q));
                        }
                        if old_map.remove(pos).contains_key(q) {
                            let k = choose|k: int| 0 <= k < ps.len() && ps[k] == q;
                            assert(k != i);
                            if k < i {
                                assert(self.positions@[k] == q);
                            } else {
                                assert(self.positions@[k - 1] == q);
                            }
                        }
                    }
                    assert forall|q: ChunkPos| #[trigger] self.chunk_map().contains_key(q) implies self.chunk_map()[q] == old_map.remove(pos)[q] by {
                        let k = choose|k: int| 0 <= k < self.positions@.len() && self.positions@[k] == q;
                        self.lemma_map_at(k);
                        let k2 = if k < i { k } else { k + 1 };
                        assert(ps[k2] == q);
                        assert(old_map[q] == cs[k2]) by {
                            let j = choose|j: int| 0 <= j < ps.len() && ps[j] == q;
                            assert(ps.contains(q));
                            assert(0 <= j < ps.len() && ps[j] == q);
                        }
                    }
                    assert(self.chunk_map() =~= old_map.remove(pos));
                    self.lemma_inv_wf();
                }
            },
        }
    }

    /// Replaces the fluid of the chunk at `pos` with `fluids`, each level clamped to a full
    /// cell (see `Chunk::apply_fluids`); nothing happens when no chunk is loaded there or the
    /// slice is not one level per cell.
    pub fn apply_chunk_fluids(&mut self, pos: ChunkPos, fluids: &[u8])
        requires
            old(self).wf(),
        ensures
            final(self).wf(),
            final(self).active_set() == old(self).active_set(),
            final(self).dirty() == old(self).dirty(),
            final(self).chunk_map().dom() == old(self).chunk_map().dom(),
            forall|p: ChunkPos| p != pos && old(self).chunk_map().contains_key(p) ==> #[trigger] final(self).chunk_map()[p] == old(self).chunk_map()[p],
            !(old(self).chunk_map().contains_key(pos) && fluids@.len() == CHUNK_VOLUME) ==> final(self).chunk_map() == old(self).chunk_map(),
            old(self).chunk_map().contains_key(pos) && fluids@.len() == CHUNK_VOLUME ==> {
                &&& final(self).chunk_map()[pos].fluid_seq() == clamped_levels(fluids@)
                &&& forall|i: int|
                    0 <= i < CHUNK_VOLUME ==> #[trigger] final(self).chunk_map()[pos].block_seq()[i] == if fluids@[i] > 0 {
                        BlockType::Air
                    } else {
                        old(self).chunk_map()[pos].block_seq()[i]
                    }
            },
    {
        if fluids.len() != CHUNK_VOLUME {
            return;
        }
        match self.find_chunk(pos) {
            None => {},
            Some(i) => {
                let ghost old_map = self.chunk_map();
                self.chunks[i].apply_fluids(fluids);
                proof {
                    assert forall|k: int| 0 <= k < self.chunks@.len() implies (#[trigger] self.chunks@[k]).wf() by {
                        if k != i {
                            assert(self.chunks@[k] == old(self).chunks@[k]);
                        }
                    }
                    assert(self.chunk_map().dom() =~= old_map.dom());
                    assert forall|p: ChunkPos| p != pos && old_map.contains_key(p) implies #[trigger] self.chunk_map()[p] == old_map[p] by {
                        if self.positions@.contains(p) {
                            let k = choose|k: int| 0 <= k < self.positions@.len() && self.positions@[k] == p;
                            self.lemma_map_at(k);
                            old(self).lemma_map_at(k);
                        }
                    }
                    self.lemma_map_at(i as int);
                    self.lemma_inv_wf();
                }
            },
        }
    }

    /// Asks for chunk meshes to be rebuilt.
    pub fn mark_dirty(&mut self)
        ensures
            final(self).dirty(),
            final(self).chunk_map() == old(self).chunk_map(),
            final(self).active_set() == old(self).active_set(),
            old(self).wf() ==> final(self).wf(),
    {
        self.mesh_dirty = true;
        proof {
            assert(self.chunk_map() =~= old(self).chunk_map());
            assert(self.active_set() =~= old(self).active_set());
            if old(self).wf() {
                self.lemma_inv_wf();
            }
        }
    }

    /// Whether chunk meshes need rebuilding; the request is cleared.
    pub fn take_dirty(&mut self) -> (r: bool)
        ensures
            r == old(self).dirty(),
            !final(self).dirty(),
            final(self).chunk_map() == old(self).chunk_map(),
            final(self).active_set() == old(self).active_set(),
            old(self).wf() ==> final(self).wf(),
    {
        let r = self.mesh_dirty;
        self.mesh_dirty = false;
        proof {
            assert(self.chunk_map() =~= old(self).chunk_map());
            assert(self.active_set() =~= old(self).active_set());
            if old(self).wf() {
                self.lemma_inv_wf();
            }
        }
        r
    }

    /// The block at world cell `(x, y, z)`; air outside loaded chunks.
    pub fn get_block(&self, x: i32, y: i32, z: i32) -> (r: BlockType)
        requires
            self.wf(),
        ensures
            r == view_block(self.fluid_view(), self.block_view(), x as int, y as int, z as int),
    {
        if y < 0 || y >= CHUNK_HEIGHT as i32 {
            return BlockType::Air;
        }
        let (cx, lx) = split_coord(x);
        let (cz, lz) = split_coord(z);
        match self.chunk(ChunkPos { x: cx, z: cz }) {
            Some(c) => c.get_block(lx, y as usize, lz),
            None => BlockType::Air,
        }
    }

    /// The fluid level at world cell `(x, y, z)`; 0 outside loaded chunks.
    pub fn get_fluid_amount(&self, x: i32, y: i32, z: i32) -> (r: u8)
        requires
            self.wf(),
        ensures
            r == view_fluid(self.fluid_view(), x as int, y as int, z as int),
            r <= MAX_FLUID_LEVEL,
    {
        if y < 0 || y >= CHUNK_HEIGHT as i32 {
            return 0;
        }
        let (cx, lx) = split_coord(x);
        let (cz, lz) = split_coord(z);
        match self.chunk(ChunkPos { x: cx, z: cz }) {
            Some(c) => c.get_fluid(lx, y as usize, lz),
            None => 0,
        }
    }

    /// Sets the fluid level at world cell `(x, y, z)`, clamped to a full cell, and marks its
    /// chunk and the chunk's loaded neighbours as settling. Cells outside loaded chunks are
    /// left alone.
    pub fn set_fluid_amount(&mut self, x: i32, y: i32, z: i32, amount: u8)
        requires
            old(self).wf(),
        ensures
            final(self).wf(),
            final(self).dirty() == old(self).dirty(),
            final(self).chunk_map().dom() == old(self).chunk_map().dom(),
            final(self).fluid_view() == view_set_fluid(
                old(self).fluid_view(),
                x as int,
                y as int,
                z as int,
                if amount > MAX_FLUID_LEVEL { MAX_FLUID_LEVEL } else { amount },
            ),
            final(self).block_view() == view_set_fluid_blocks(
                old(self).fluid_view(),
                old(self).block_view(),
                x as int,
                y as int,
                z as int,
                if amount > MAX_FLUID_LEVEL { MAX_FLUID_LEVEL } else { amount },
            ),
            final(self).active_set() == if view_loaded(old(self).fluid_view(), x as int, y as int, z as int) {
                old(self).active_set().insert(chunk_of(x as int, z as int)).union(
                    loaded_neighbors(old(self).chunk_map(), chunk_of(x as int, z as int)),
                )
            } else {
                old(self).active_set()
            },
    {
        let ghost fv0 = self.fluid_view();
        let ghost bv0 = self.block_view();
        if y < 0 || y >= CHUNK_HEIGHT as i32 {
            proof {
                assert(self.fluid_view() =~= view_set_fluid(fv0, x as int, y as int, z as int, 0));
            }
            return;
        }
        let (cx, lx) = split_coord(x);
        let (cz, lz) = split_coord(z);
        let pos = ChunkPos { x: cx, z: cz };
        let level = if amount > MAX_FLUID_LEVEL { MAX_FLUID_LEVEL } else { amount };
        assert(pos == chunk_of(x as int, z as int));
        match self.find_chunk(pos) {
            None => {
                proof {
                    assert(!view_loaded(fv0, x as int, y as int, z as int));
                }
            },
            Some(i) => {
                let ghost old_map = self.chunk_map();
                self.chunks[i].set_fluid(lx, y as usize, lz, level);
                proof {
                    assert forall|k: int| 0 <= k < self.chunks@.len() implies (#[trigger] self.chunks@[k]).wf() by {
                        if k != i {
                            assert(self.chunks@[k] == old(self).chunks@[k]);
                        }
                    }
                    assert(self.chunk_map().dom() =~= old_map.dom());
                    assert forall|p: ChunkPos| p != pos && old_map.contains_key(p) implies #[trigger] self.chunk_map()[p] == old_map[p] by {
                        let k = choose|k: int| 0 <= k < self.positions@.len() && self.positions@[k] == p;
                        self.lemma_map_at(k);
                        old(self).lemma_map_at(k);
                    }
                    self.lemma_map_at(i as int);
                    old(self).lemma_map_at(i as int);
                    self.lemma_inv_wf();
                    assert(local_of(x as int, y as int, z as int) == cell_index(lx as int, y as int, lz as int));
                    assert(self.fluid_view() =~= view_set_fluid(fv0, x as int, y as int, z as int, level));
                    assert(self.block_view() =~= view_set_fluid_blocks(fv0, bv0, x as int, y as int, z as int, level));
                }
                self.queue_fluid_chunk_with_neighbors(pos);
                proof {
                    assert(self.fluid_view() =~= view_set_fluid(fv0, x as int, y as int, z as int, level));
                    assert(self.block_view() =~= view_set_fluid_blocks(fv0, bv0, x as int, y as int, z as int, level));
                }
            },
        }
    }

    /// Places `block_type` at world cell `(x, y, z)` (a block other than air clears the cell's
    /// fluid) and marks its chunk and the chunk's loaded neighbours as settling, since fluid
    /// may now move. Cells outside loaded chunks are left alone.
    pub fn set_block(&mut self, x: i32, y: i32, z: i32, block_type: BlockType)
        requires
            old(self).wf(),
        ensures
            final(self).wf(),
            final(self).dirty() == old(self).dirty(),
            final(self).chunk_map().dom() == old(self).chunk_map().dom(),
            !view_loaded(old(self).fluid_view(), x as int, y as int, z as int) ==> {
                &&& final(self).fluid_view() == old(self).fluid_view()
                &&& final(self).block_view() == old(self).block_view()
                &&& final(self).active_set() == old(self).active_set()
            },
            view_loaded(old(self).fluid_view(), x as int, y as int, z as int) ==> {
                let c = chunk_of(x as int, z as int);
                let l = local_of(x as int, y as int, z as int);
                &&& final(self).block_view() == old(self).block_view().insert(c, old(self).block_view()[c].update(l, block_type))
                &&& final(self).fluid_view() == if block_type != BlockType::Air {
                    old(self).fluid_view().insert(c, old(self).fluid_view()[c].update(l, 0))
                } else {
                    old(self).fluid_view()
                }
                &&& final(self).active_set() == old(self).active_set().insert(c).union(loaded_neighbors(old(self).chunk_map(), c))
            },
    {
        let ghost fv0 = self.fluid_view();
        let ghost bv0 = self.block_view();
        if y < 0 || y >= CHUNK_HEIGHT as i32 {
            proof {
                assert(self.fluid_view() =~= fv0);
                assert(self.block_view() =~= bv0);
            }
            return;
        }
        let (cx, lx) = split_coord(x);
        let (cz, lz) = split_coord(z);
        let pos = ChunkPos { x: cx, z: cz };
        assert(pos == chunk_of(x as int, z as int));
        match self.find_chunk(pos) {
            None => {
                proof {
                    assert(self.fluid_view() =~= fv0);
                    assert(self.block_view() =~= bv0);
                }
            },
            Some(i) => {
                let ghost old_map = self.chunk_map();
                self.chunks[i].set_block(lx, y as usize, lz, block_type);
                proof {
                    assert forall|k: int| 0 <= k < self.chunks@.len() implies (#[trigger] self.chunks@[k]).wf() by {
                        if k != i {
                            assert(self.chunks@[k] == old(self).chunks@[k]);
                        }
                    }
                    assert(self.chunk_map().dom() =~= old_map.dom());
                    assert forall|p: ChunkPos| p != pos && old_map.contains_key(p) implies #[trigger] self.chunk_map()[p] == old_map[p] by {
                        let k = choose|k: int| 0 <= k < self.positions@.len() && self.positions@[k] == p;
                        self.lemma_map_at(k);
                        old(self).lemma_map_at(k);
                    }
                    self.lemma_map_at(i as int);
                    old(self).lemma_map_at(i as int);
                    self.lemma_inv_wf();
                    let l = local_of(x as int, y as int, z as int);
                    assert(l == cell_index(lx as int, y as int, lz as int));
                    assert(self.block_view() =~= bv0.insert(pos, bv0[pos].update(l, block_type)));
                    if block_type != BlockType::Air {
                        assert(self.fluid_view() =~= fv0.insert(pos, fv0[pos].update(l, 0)));
                    } else {
                        assert(self.fluid_view() =~= fv0);
                    }
                }
                let ghost fv1 = self.fluid_view();
                let ghost bv1 = self.block_view();
                self.queue_fluid_chunk_with_neighbors(pos);
                proof {
                    assert(self.fluid_view() =~= fv1);
                    assert(self.block_view() =~= bv1);
                }
            },
        }
    }

    /// Adds `amount` to the fluid at world cell `(x, y, z)`, clamped to a full cell.
    pub fn add_fluid(&mut self, x: i32, y: i32, z: i32, amount: u8)
        requires
            old(self).wf(),
        ensures
            ({
                let level: u8 = if view_fluid(old(self).fluid_view(), x as int, y as int, z as int) + amount > MAX_FLUID_LEVEL {
                    MAX_FLUID_LEVEL
                } else {
                    (view_fluid(old(self).fluid_view(), x as int, y as int, z as int) + amount) as u8
                };
                &&& final(self).wf()
                &&& final(self).dirty() == old(self).dirty()
                &&& final(self).chunk_map().dom() == old(self).chunk_map().dom()
                &&& final(self).fluid_view() == view_set_fluid(old(self).fluid_view(), x as int, y as int, z as int, level)
                &&& final(self).block_view() == view_set_fluid_blocks(
                    old(self).fluid_view(),
                    old(self).block_view(),
                    x as int,
                    y as int,
                    z as int,
                    level,
                )
                &&& final(self).active_set() == if view_loaded(old(self).fluid_view(), x as int, y as int, z as int) {
                    old(self).active_set().insert(chunk_of(x as int, z as int)).union(
                        loaded_neighbors(old(self).chunk_map(), chunk_of(x as int, z as int)),
                    )
                } else {
                    old(self).active_set()
                }
            }),
    {
        let current = self.get_fluid_amount(x, y, z);
        let total: u16 = current as u16 + amount as u16;
        let level: u8 = if total > MAX_FLUID_LEVEL as u16 { MAX_FLUID_LEVEL } else { total as u8 };
        self.set_fluid_amount(x, y, z, level);
    }

    /// Whether world cell `(x, y, z)` lies in a loaded chunk and its block lets fluid in.
    pub fn is_open_cell(&self, x: i32, y: i32, z: i32) -> (r: bool)
        requires
            self.wf(),
        ensures
            r == (view_loaded(self.fluid_view(), x as int, y as int, z as int) && !block_is_solid(
                view_block(self.fluid_view(), self.block_view(), x as int, y as int, z as int),
            )),
    {
        if y < 0 || y >= CHUNK_HEIGHT as i32 {
            return false;
        }
        let (cx, lx) = split_coord(x);
        let (cz, lz) = split_coord(z);
        match self.chunk(ChunkPos { x: cx, z: cz }) {
            Some(c) => !c.get_block(lx, y as usize, lz).is_solid(),
            None => false,
        }
    }

    /// A snapshot of the chunks whose fluid is still settling, each once.
    pub fn active_fluid_chunks_snapshot(&self) -> (r: Vec<ChunkPos>)
        requires
            self.wf(),
        ensures
            r@ == self.active_seq(),
            r@.no_duplicates(),
            forall|p: ChunkPos| #[trigger] r@.contains(p) <==> self.active_set().contains(p),
    {
        self.active.clone()
    }

    /// Whether `pos` is among the chunks whose fluid is still settling.
    pub fn is_fluid_active(&self, pos: ChunkPos) -> (r: bool)
        requires
            self.wf(),
        ensures
            r == self.active_set().contains(pos),
    {
        let mut i: usize = 0;
        while i < self.active.len()
            invariant
                i <= self.active@.len(),
                forall|j: int| 0 <= j < i ==> self.active@[j] != pos,
            decreases self.active@.len() - i,
        {
            if self.active[i] == pos {
                return true;
            }
            i = i + 1;
        }
        false
    }

    /// Marks `pos` as holding fluid that is still settling.
    pub fn queue_fluid_chunk(&mut self, pos: ChunkPos)
        requires
            old(self).wf(),
        ensures
            final(self).wf(),
            final(self).chunk_map() == old(self).chunk_map(),
            final(self).active_set() == old(self).active_set().insert(pos),
            final(self).dirty() == old(self).dirty(),
    {
        let present = self.is_fluid_active(pos);
        if !present {
            self.active.push(pos);
        }
        proof {
            assert(self.active_set() =~= old(self).active_set().insert(pos)) by {
                if !present {
                    assert(self.active@.last() == pos);
                    assert forall|q: ChunkPos| old(self).active@.contains(q) implies self.active@.contains(q) by {
                        let k = choose|k: int| 0 <= k < old(self).active@.len() && old(self).active@[k] == q;
                        assert(self.active@[k] == q);
                    }
                }
            }
            assert(self.chunk_map() =~= old(self).chunk_map());
            self.lemma_inv_wf();
        }
    }

    /// Removes `pos` from the chunks whose fluid is still settling.
    fn dequeue_fluid_chunk(&mut self, pos: ChunkPos)
        requires
            old(self).wf(),
        ensures
            final(self).wf(),
            final(self).chunk_map() == old(self).chunk_map(),
            final(self).active_set() == old(self).active_set().remove(pos),
            final(self).dirty() == old(self).dirty(),
            final(self).positions == old(self).positions,
            final(self).chunks == old(self).chunks,
    {
        let mut i: usize = 0;
        while i < self.active.len()
            invariant
                *self == *old(self),
                old(self).wf(),
                i <= self.active@.len(),
                forall|j: int| 0 <= j < i ==> self.active@[j] != pos,
            decreases self.active@.len() - i,
        {
            if self.active[i] == pos {
                self.active.remove(i);
                proof {
                    let s = old(self).active@;
                    assert(self.active@.len() == s.len() - 1);
                    assert forall|k: int| 0 <= k < self.active@.len() implies #[trigger] self.active@[k] == if k < i { s[k] } else { s[k + 1] } by {
                        assert(self.active@ == s.remove(i as int));
                    }
                    assert forall|q: ChunkPos| #[trigger] self.active_set().contains(q) <==> old(self).active_set().remove(pos).contains(q) by {
                        if self.active@.contains(q) {
                            let k = choose|k: int| 0 <= k < self.active@.len() && self.active@[k] == q;
                            if k < i {
                                assert(s[k] == q);
                            } else {
                                assert(s[k + 1] == q);
                                assert(k + 1 != i);
                            }
                        }
                        if old(self).active_set().remove(pos).contains(q) {
                            let k = choose|k: int| 0 <= k < s.len() && s[k] == q;
                            assert(k != i);
                            if k < i {
                                assert(self.active@[k] == q);
                            } else {
                                assert(self.active@[k - 1] == q);
                            }
                        }
                    }
                    assert(self.active_set() =~= old(self).active_set().remove(pos));
                    assert(self.active@.no_duplicates()) by {
                        assert forall|a: int, b: int| 0 <= a < b < self.active@.len() implies self.active@[a] != self.active@[b] by {
                            let a2 = if a < i { a } else { a + 1 };
                            let b2 = if b < i { b } else { b + 1 };
                            assert(self.active@[a] == s[a2]);
                            assert(self.active@[b] == s[b2]);
                        }
                    }
                    assert(self.chunk_map() =~= old(self).chunk_map());
                    self.lemma_inv_wf();
                }
                return;
            }
            i = i + 1;
        }
        proof {
            assert(self.active_set() =~= old(self).active_set().remove(pos));
            assert(self.chunk_map() =~= old(self).chunk_map());
        }
    }
}

} // verus!
