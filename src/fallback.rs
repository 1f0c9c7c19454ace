use vstd::prelude::*;

use crate::block::{block_is_solid, BlockType};
use crate::chunk::{fluid_cells, in_chunk, lemma_cell_coords, CHUNK_VOLUME, MAX_FLUID_LEVEL};
use crate::world::{
    chunk_of, is_lateral_neighbor, loaded_neighbors, view_block, view_fluid, view_loaded,
    view_set_fluid, view_set_fluid_blocks, ChunkPos, World,
};

verus! {

/// Least fluid level that spreads sideways is above this.
pub const FLUID_MIN_SOURCE_LEVEL: u8 = 3;

/// Level difference that lateral flow needs to exceed.
pub const FLUID_FLOW_THRESHOLD: u8 = 1;

/// Least amount that flows in one move.
pub const FLUID_MIN_FLOW: u8 = 1;

/// Most that flows sideways into one neighbour in one step.
pub const FLUID_LATERAL_FLOW_CAP: u8 = 4;

/// Level at which fluid counts as a settled surface.
pub const FLUID_SURFACE_LEVEL: u8 = 9;

/// The fluid state the sequential engine works on: levels, blocks, and settling chunks.
pub type FluidState = (Map<ChunkPos, Seq<u8>>, Map<ChunkPos, Seq<BlockType>>, Set<ChunkPos>);

/// A fluid cell of the chunk being processed, as listed when its turn began: `(x, y, z, level)`.
pub type CellUpdate = (usize, usize, usize, u8);

/// A collected move: world cell `(x, y, z)` and the signed change to its level.
pub type Move = (i32, i32, i32, i32);

/// Chunks whose cells, and the cells next to them, have representable world coordinates.
pub open spec fn chunk_in_range(p: ChunkPos) -> bool {
    -0x7ff_ffff <= p.x < 0x7ff_ffff && -0x7ff_ffff <= p.z < 0x7ff_ffff
}

/// Whether world cell `(x, y, z)` is loaded and its block lets fluid in.
pub open spec fn st_open(st: FluidState, x: int, y: int, z: int) -> bool {
    view_loaded(st.0, x, y, z) && !block_is_solid(view_block(st.0, st.1, x, y, z))
}

pub open spec fn st_fluid(st: FluidState, x: int, y: int, z: int) -> u8 {
    view_fluid(st.0, x, y, z)
}

/// The loaded lateral neighbours of chunk `p`.
pub open spec fn view_neighbors(fv: Map<ChunkPos, Seq<u8>>, p: ChunkPos) -> Set<ChunkPos> {
    Set::new(|q: ChunkPos| fv.contains_key(q) && is_lateral_neighbor(p, q))
}

/// Sets world cell `(x, y, z)` to `amount`; its chunk and the chunk's loaded neighbours start
/// settling.
pub open spec fn st_set(st: FluidState, x: int, y: int, z: int, amount: u8) -> FluidState {
    (
        view_set_fluid(st.0, x, y, z, amount),
        view_set_fluid_blocks(st.0, st.1, x, y, z, amount),
        if view_loaded(st.0, x, y, z) {
            st.2.insert(chunk_of(x, z)).union(view_neighbors(st.0, chunk_of(x, z)))
        } else {
            st.2
        },
    )
}

pub open spec fn min3(a: int, b: int, c: int) -> int {
    if a <= b && a <= c {
        a
    } else if b <= c {
        b
    } else {
        c
    }
}

/// Inflow already collected this turn into world cell `(x, y, z)`, capped at a full cell.
pub open spec fn pending_in(moves: Seq<Move>, x: int, y: int, z: int) -> int
    decreases moves.len(),
{
    if moves.len() == 0 {
        0
    } else {
        let m = moves.last();
        let prev = pending_in(moves.drop_last(), x, y, z);
        let add: int = if m.0 == x && m.1 == y && m.2 == z && m.3 > 0 { m.3 as int } else { 0 };
        if prev + add > MAX_FLUID_LEVEL { MAX_FLUID_LEVEL as int } else { prev + add }
    }
}

/// Room left in world cell `(x, y, z)`: a full cell less its level when the turn began and
/// the inflow already collected for it.
pub open spec fn room_left(snap: FluidState, moves: Seq<Move>, x: int, y: int, z: int) -> int {
    MAX_FLUID_LEVEL - st_fluid(snap, x, y, z) - pending_in(moves, x, y, z)
}

/// Flow into one lateral neighbour `(x, y, z)` from a cell at level `a` that has already
/// given away `total` this step: returns the moves, the new total, and whether it moved.
pub open spec fn lateral_one(snap: FluidState, moves: Seq<Move>, x: int, y: int, z: int, a: u8, total: u8) -> (Seq<Move>, u8, bool) {
    let nf = st_fluid(snap, x, y, z);
    let diff: int = if a > nf { a - nf } else { 0 };
    let wanted: int = if diff / 4 < FLUID_MIN_FLOW { FLUID_MIN_FLOW as int } else if diff / 4 > FLUID_LATERAL_FLOW_CAP { FLUID_LATERAL_FLOW_CAP as int } else { diff / 4 };
    let left: int = if a > total { a - total } else { 0 };
    let actual = min3(wanted, left, room_left(snap, moves, x, y, z));
    if st_open(snap, x, y, z) && diff > FLUID_FLOW_THRESHOLD && actual > 0 {
        (moves.push((x as i32, y as i32, z as i32, actual as i32)), (total + actual) as u8, true)
    } else {
        (moves, total, false)
    }
}

/// The moves that fluid cell `c` of chunk `p` adds to those collected so far, and whether it
/// moved anything. Every decision reads `snap`, the state when the chunk's turn began.
/// Gravity comes first: into an open cell below with room, up to three levels. If nothing
/// fell, a cell above the source level spreads to its four neighbours. A nearly empty cell
/// (level at most `FLUID_MIN_FLOW`) evaporates when the cell below is neither solid nor holds
/// fluid. A target never takes more than its room left, and a cell never gives more than it
/// held, so applying the moves loses and creates nothing. Cells outside loaded chunks count
/// as closed, so no fluid leaves into unloaded space.
pub open spec fn cell_step(snap: FluidState, p: ChunkPos, c: CellUpdate, moves: Seq<Move>) -> (Seq<Move>, bool) {
    let (x, y, z, a) = c;
    let wx = p.x * 16 + x;
    let wy = y as int;
    let wz = p.z * 16 + z;
    let bf = st_fluid(snap, wx, wy - 1, wz);
    let flow = min3(a as int, room_left(snap, moves, wx, wy - 1, wz), 3 * FLUID_MIN_FLOW);
    if wy > 0 && st_open(snap, wx, wy - 1, wz) && bf < MAX_FLUID_LEVEL && flow > 0 {
        (moves.push((wx as i32, (wy - 1) as i32, wz as i32, flow as i32)).push((wx as i32, wy as i32, wz as i32, -flow as i32)), true)
    } else if a > FLUID_MIN_SOURCE_LEVEL {
        let r1 = lateral_one(snap, moves, wx + 1, wy, wz, a, 0);
        let r2 = lateral_one(snap, r1.0, wx - 1, wy, wz, a, r1.1);
        let r3 = lateral_one(snap, r2.0, wx, wy, wz + 1, a, r2.1);
        let r4 = lateral_one(snap, r3.0, wx, wy, wz - 1, a, r3.1);
        let moved = r1.2 || r2.2 || r3.2 || r4.2;
        if r4.1 > 0 {
            (r4.0.push((wx as i32, wy as i32, wz as i32, -(r4.1 as int) as i32)), moved)
        } else {
            (r4.0, moved)
        }
    } else if a <= FLUID_MIN_FLOW && wy > 0 && !block_is_solid(view_block(snap.0, snap.1, wx, wy - 1, wz)) && bf == 0 {
        (moves.push((wx as i32, wy as i32, wz as i32, -(a as int) as i32)), true)
    } else {
        (moves, false)
    }
}

/// The moves collected from the first `n` fluid cells of chunk `p`.
pub open spec fn cells_fold(snap: FluidState, p: ChunkPos, cells: Seq<CellUpdate>, n: int) -> (Seq<Move>, bool)
    decreases n,
{
    if n <= 0 {
        (Seq::empty(), false)
    } else {
        let prev = cells_fold(snap, p, cells, n - 1);
        let next = cell_step(snap, p, cells[n - 1], prev.0);
        (next.0, prev.1 || next.1)
    }
}

/// A level plus a change, kept within `0..=MAX_FLUID_LEVEL`.
pub open spec fn shifted_level(level: u8, change: i32) -> u8 {
    let v = level + change;
    if v < 0 { 0 } else if v > MAX_FLUID_LEVEL { MAX_FLUID_LEVEL } else { v as u8 }
}

/// The first `n` moves applied in turn; each target and its loaded neighbours start settling.
pub open spec fn apply_moves(st: FluidState, moves: Seq<Move>, n: int) -> FluidState
    decreases n,
{
    if n <= 0 {
        st
    } else {
        let prev = apply_moves(st, moves, n - 1);
        let m = moves[n - 1];
        st_set(prev, m.0 as int, m.1 as int, m.2 as int, shifted_level(st_fluid(prev, m.0 as int, m.1 as int, m.2 as int), m.3))
    }
}

/// One chunk's turn: its fluid cells are listed, every move is collected from the state as
/// it stood when the turn began, and then all the moves are applied.
pub open spec fn chunk_step(st: FluidState, p: ChunkPos) -> (FluidState, bool) {
    if st.0.contains_key(p) && chunk_in_range(p) {
        let cells = fluid_cells(st.0[p], CHUNK_VOLUME as int);
        let r = cells_fold(st, p, cells, cells.len() as int);
        (apply_moves(st, r.0, r.0.len() as int), r.1)
    } else {
        (st, false)
    }
}

/// The first `n` chunks of `order`, each in turn.
pub open spec fn step_fold(st: FluidState, order: Seq<ChunkPos>, n: int) -> (FluidState, bool)
    decreases n,
{
    if n <= 0 {
        (st, false)
    } else {
        let prev = step_fold(st, order, n - 1);
        let next = chunk_step(prev.0, order[n - 1]);
        (next.0, prev.1 || next.1)
    }
}

pub open spec fn world_state(w: World) -> FluidState {
    (w.fluid_view(), w.block_view(), w.active_set())
}

proof fn lemma_fluid_cells_entries(f: Seq<u8>, n: int)
    requires
        0 <= n <= CHUNK_VOLUME,
        f.len() == CHUNK_VOLUME,
        forall|i: int| 0 <= i < CHUNK_VOLUME ==> #[trigger] f[i] <= MAX_FLUID_LEVEL,
    ensures
        forall|k: int|
            0 <= k < fluid_cells(f, n).len() ==> {
                let e = #[trigger] fluid_cells(f, n)[k];
                &&& in_chunk(e.0 as int, e.1 as int, e.2 as int)
                &&& 0 < e.3 <= MAX_FLUID_LEVEL
            },
    decreases n,
{
    if n > 0 {
        lemma_fluid_cells_entries(f, n - 1);
        lemma_cell_coords(n - 1);
        let prev = fluid_cells(f, n - 1);
        let cur = fluid_cells(f, n);
        assert forall|k: int| 0 <= k < cur.len() implies {
            let e = #[trigger] cur[k];
            &&& in_chunk(e.0 as int, e.1 as int, e.2 as int)
            &&& 0 < e.3 <= MAX_FLUID_LEVEL
        } by {
            if k < prev.len() {
                assert(cur[k] == prev[k]);
            }
        }
    }
}

proof fn lemma_neighbor_views(w: World, c: ChunkPos)
    ensures
        loaded_neighbors(w.chunk_map(), c) == view_neighbors(w.fluid_view(), c),
{
    assert(loaded_neighbors(w.chunk_map(), c) =~= view_neighbors(w.fluid_view(), c));
}



impl World {
    /// Inflow already collected into world cell `(x, y, z)`, capped at a full cell.
    fn pending_into(moves: &Vec<Move>, x: i32, y: i32, z: i32) -> (r: u8)
        ensures
            r == pending_in(moves@, x as int, y as int, z as int),
    {
        let mut acc: u8 = 0;
        let mut i: usize = 0;
        while i < moves.len()
            invariant
                i <= moves@.len(),
                acc as int == pending_in(moves@.subrange(0, i as int), x as int, y as int, z as int),
                acc <= MAX_FLUID_LEVEL,
            decreases moves@.len() - i,
        {
            proof {
                let pre = moves@.subrange(0, i as int + 1);
                assert(pre.drop_last() =~= moves@.subrange(0, i as int));
                assert(pre.last() == moves@[i as int]);
            }
            let m = moves[i];
            if m.0 == x && m.1 == y && m.2 == z && m.3 > 0 {
                let add: i32 = if m.3 > MAX_FLUID_LEVEL as i32 { MAX_FLUID_LEVEL as i32 } else { m.3 };
                let sum: i32 = acc as i32 + add;
                acc = if sum > MAX_FLUID_LEVEL as i32 { MAX_FLUID_LEVEL } else { sum as u8 };
            }
            i = i + 1;
        }
        proof {
            assert(moves@.subrange(0, i as int) =~= moves@);
        }
        acc
    }

    /// Room left in world cell `(x, y, z)` (see `room_left`), as a signed number.
    fn room_of(&self, moves: &Vec<Move>, x: i32, y: i32, z: i32) -> (r: i32)
        requires
            self.wf(),
        ensures
            r == room_left(world_state(*self), moves@, x as int, y as int, z as int),
    {
        let level = self.get_fluid_amount(x, y, z);
        let pending = Self::pending_into(moves, x, y, z);
        MAX_FLUID_LEVEL as i32 - level as i32 - pending as i32
    }

    /// Collects the flow from a cell at level `a`, which has given away `total` so far this
    /// step, into the lateral neighbour `(x, y, z)`.
    fn lateral_move(&self, moves: &mut Vec<Move>, x: i32, y: i32, z: i32, a: u8, total: u8) -> (r: (u8, bool))
        requires
            self.wf(),
            a <= MAX_FLUID_LEVEL,
            total <= a,
        ensures
            (final(moves)@, r.0, r.1) == lateral_one(world_state(*self), old(moves)@, x as int, y as int, z as int, a, total),
            r.0 <= a,
    {
        if self.is_open_cell(x, y, z) {
            let nf = self.get_fluid_amount(x, y, z);
            let diff: u8 = if a > nf { a - nf } else { 0 };
            if diff > FLUID_FLOW_THRESHOLD {
                let q = diff / 4;
                let wanted: u8 = if q < FLUID_MIN_FLOW {
                    FLUID_MIN_FLOW
                } else if q > FLUID_LATERAL_FLOW_CAP {
                    FLUID_LATERAL_FLOW_CAP
                } else {
                    q
                };
                let left: u8 = if a > total { a - total } else { 0 };
                let room = self.room_of(moves, x, y, z);
                let m1: i32 = if (wanted as i32) < (left as i32) { wanted as i32 } else { left as i32 };
                let actual: i32 = if m1 < room { m1 } else { room };
                assert(actual == min3(wanted as int, left as int, room as int));
                if actual > 0 {
                    moves.push((x, y, z, actual));
                    return ((total as i32 + actual) as u8, true);
                }
            }
        }
        (total, false)
    }

    /// Collects the moves of fluid cell `c` of chunk `p` (see `cell_step`).
    fn fallback_cell(&self, p: ChunkPos, c: CellUpdate, moves: &mut Vec<Move>) -> (r: bool)
        requires
            self.wf(),
            self.chunk_map().contains_key(p),
            chunk_in_range(p),
            in_chunk(c.0 as int, c.1 as int, c.2 as int),
            0 < c.3 <= MAX_FLUID_LEVEL,
        ensures
            (final(moves)@, r) == cell_step(world_state(*self), p, c, old(moves)@),
    {
        let ghost snap = world_state(*self);
        let (x, y, z, a) = c;
        let wx: i32 = p.x * 16 + x as i32;
        let wy: i32 = y as i32;
        let wz: i32 = p.z * 16 + z as i32;
        assert(wx as int == p.x * 16 + x);
        assert(wz as int == p.z * 16 + z);
        if wy > 0 {
            let open_below = self.is_open_cell(wx, wy - 1, wz);
            let bf = self.get_fluid_amount(wx, wy - 1, wz);
            if open_below && bf < MAX_FLUID_LEVEL {
                let room = self.room_of(moves, wx, wy - 1, wz);
                let m1: i32 = if (a as i32) < room { a as i32 } else { room };
                let flow: i32 = if m1 < 3 * FLUID_MIN_FLOW as i32 { m1 } else { 3 * FLUID_MIN_FLOW as i32 };
                assert(flow == min3(a as int, room as int, 3 * FLUID_MIN_FLOW));
                if flow > 0 {
                    moves.push((wx, wy - 1, wz, flow));
                    moves.push((wx, wy, wz, -flow));
                    return true;
                }
            }
        }
        if a > FLUID_MIN_SOURCE_LEVEL {
            let (t1, c1) = self.lateral_move(moves, wx + 1, wy, wz, a, 0);
            let (t2, c2) = self.lateral_move(moves, wx - 1, wy, wz, a, t1);
            let (t3, c3) = self.lateral_move(moves, wx, wy, wz + 1, a, t2);
            let (t4, c4) = self.lateral_move(moves, wx, wy, wz - 1, a, t3);
            if t4 > 0 {
                moves.push((wx, wy, wz, -(t4 as i32)));
            }
            return c1 || c2 || c3 || c4;
        }
        if a <= FLUID_MIN_FLOW && wy > 0 {
            let below = self.get_block(wx, wy - 1, wz);
            let bf = self.get_fluid_amount(wx, wy - 1, wz);
            if !below.is_solid() && bf == 0 {
                moves.push((wx, wy, wz, -(a as i32)));
                return true;
            }
        }
        false
    }

    /// One chunk's turn of the sequential engine: moves are collected while the world stands
    /// as it was when the turn began, then applied.
    fn fallback_chunk(&mut self, p: ChunkPos) -> (r: bool)
        requires
            old(self).wf(),
        ensures
            final(self).wf(),
            final(self).dirty() == old(self).dirty(),
            final(self).chunk_map().dom() == old(self).chunk_map().dom(),
            world_state(*final(self)) == chunk_step(world_state(*old(self)), p).0,
            r == chunk_step(world_state(*old(self)), p).1,
    {
        let ghost st0 = world_state(*self);
        if !(p.x >= -0x7ff_ffff && p.x < 0x7ff_ffff && p.z >= -0x7ff_ffff && p.z < 0x7ff_ffff) {
            return false;
        }
        let cells = match self.chunk(p) {
            Some(c) => c.fluids_iter(),
            None => {
                return false;
            },
        };
        proof {
            let f = self.chunk_map()[p].fluid_seq();
            assert(st0.0[p] == f);
            lemma_fluid_cells_entries(f, CHUNK_VOLUME as int);
        }
        let mut moves: Vec<Move> = Vec::new();
        let mut changed = false;
        let mut k: usize = 0;
        while k < cells.len()
            invariant
                self.wf(),
                *self == *old(self),
                world_state(*self) == st0,
                self.chunk_map().contains_key(p),
                chunk_in_range(p),
                k <= cells@.len(),
                cells@ == fluid_cells(st0.0[p], CHUNK_VOLUME as int),
                forall|j: int|
                    0 <= j < cells@.len() ==> {
                        let e = #[trigger] cells@[j];
                        &&& in_chunk(e.0 as int, e.1 as int, e.2 as int)
                        &&& 0 < e.3 <= MAX_FLUID_LEVEL
                    },
                moves@ == cells_fold(st0, p, cells@, k as int).0,
                changed == cells_fold(st0, p, cells@, k as int).1,
            decreases cells@.len() - k,
        {
            let c = cells[k];
            let ghost prev = moves@;
            let moved = self.fallback_cell(p, c, &mut moves);
            proof {
                assert(c == cells@[k as int]);
                assert((moves@, moved) == cell_step(st0, p, c, prev));
            }
            changed = changed || moved;
            k = k + 1;
        }
        let ghost ms = moves@;
        let mut j: usize = 0;
        while j < moves.len()
            invariant
                self.wf(),
                self.dirty() == old(self).dirty(),
                self.chunk_map().dom() == old(self).chunk_map().dom(),
                ms == moves@,
                j <= ms.len(),
                world_state(*self) == apply_moves(st0, ms, j as int),
            decreases ms.len() - j,
        {
            let (x, y, z, d) = moves[j];
            let cur = self.get_fluid_amount(x, y, z);
            let v: i32 = cur as i32 + if d < -100 { -100 } else if d > 100 { 100 } else { d };
            let level: u8 = if v < 0 {
                0
            } else if v > MAX_FLUID_LEVEL as i32 {
                MAX_FLUID_LEVEL
            } else {
                v as u8
            };
            assert(level == shifted_level(cur, d));
            proof {
                lemma_neighbor_views(*self, chunk_of(x as int, z as int));
            }
            self.set_fluid_amount(x, y, z, level);
            j = j + 1;
        }
        changed
    }

    /// One step of the sequential engine over every settling chunk, in the order a snapshot
    /// lists them. Returns whether any cell changed.
    pub fn step_fluids(&mut self) -> (r: bool)
        requires
            old(self).wf(),
        ensures
            final(self).wf(),
            final(self).dirty() == old(self).dirty(),
            final(self).chunk_map().dom() == old(self).chunk_map().dom(),
            world_state(*final(self)) == step_fold(world_state(*old(self)), old(self).active_seq(), old(self).active_seq().len() as int).0,
            r == step_fold(world_state(*old(self)), old(self).active_seq(), old(self).active_seq().len() as int).1,
    {
        let ghost st0 = world_state(*self);
        let order = self.active_fluid_chunks_snapshot();
        let mut any = false;
        let mut i: usize = 0;
        while i < order.len()
            invariant
                self.wf(),
                self.dirty() == old(self).dirty(),
                self.chunk_map().dom() == old(self).chunk_map().dom(),
                order@ == old(self).active_seq(),
                i <= order@.len(),
                world_state(*self) == step_fold(st0, order@, i as int).0,
                any == step_fold(st0, order@, i as int).1,
            decreases order@.len() - i,
        {
            let moved = self.fallback_chunk(order[i]);
            any = any || moved;
            i = i + 1;
        }
        any
    }
}


} // verus!
