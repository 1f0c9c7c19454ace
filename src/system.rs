use vstd::prelude::*;

use crate::backend::{ChunkUpdate, TileOutput};
use crate::chunk::{clamped_levels, CHUNK_VOLUME};
use crate::load::{deadline_after, window_after, LoadMonitor};
use crate::tile::{build_tile_input, tile_matches, tile_ready, TileInput};
use crate::fallback::{step_fold, world_state};
use crate::world::{is_lateral_neighbor, ChunkPos, World};

verus! {

/// Tiles that may be in flight at once.
pub const MAX_IN_FLIGHT: usize = 2;

/// Least time between two fallback steps, in milliseconds.
pub const CPU_FALLBACK_COOLDOWN_MS: u64 = 16;

/// The base of the tile that puts chunk `p` at the centre of its core.
pub open spec fn tile_base_of(p: ChunkPos) -> ChunkPos {
    ChunkPos { x: (p.x - 1) as i32, z: (p.z - 1) as i32 }
}

/// Whether active chunk `p` can be scheduled: its tile base is representable and not in
/// flight, and a tile can be built there.
pub open spec fn schedulable(m: Map<ChunkPos, crate::chunk::Chunk>, pending: Seq<ChunkPos>, p: ChunkPos) -> bool {
    &&& p.x > i32::MIN
    &&& p.z > i32::MIN
    &&& !pending.contains(tile_base_of(p))
    &&& tile_ready(m, tile_base_of(p))
}

/// Whether an update is for a core chunk that was loaded and changed.
pub open spec fn update_changed(u: ChunkUpdate) -> bool {
    u.is_core && u.exists && u.changed
}

/// Whether an update settles its core chunk.
pub open spec fn update_settles(u: ChunkUpdate) -> bool {
    u.is_core && !(u.exists && u.changed)
}

/// Whether an update carries levels that can be written into its chunk.
pub open spec fn update_applies(u: ChunkUpdate) -> bool {
    &&& u.is_core
    &&& u.exists
    &&& u.fluids@.len() == CHUNK_VOLUME
}

/// Positions of the updates that settle their chunk.
pub open spec fn settled_positions(us: Seq<ChunkUpdate>) -> Set<ChunkPos> {
    Set::new(|p: ChunkPos| exists|k: int| 0 <= k < us.len() && #[trigger] us[k].pos == p && update_settles(us[k]))
}

/// Positions of the updates that changed their chunk.
pub open spec fn changed_positions(us: Seq<ChunkUpdate>) -> Set<ChunkPos> {
    Set::new(|p: ChunkPos| exists|k: int| 0 <= k < us.len() && #[trigger] us[k].pos == p && update_changed(us[k]))
}

/// Loaded chunks next to a chunk that changed.
pub open spec fn woken_neighbors(m: Map<ChunkPos, crate::chunk::Chunk>, us: Seq<ChunkUpdate>) -> Set<ChunkPos> {
    Set::new(
        |q: ChunkPos|
            m.contains_key(q) && exists|k: int|
                0 <= k < us.len() && update_changed(#[trigger] us[k]) && is_lateral_neighbor(us[k].pos, q),
    )
}

/// The active set after reconciling updates `us`: chunks that settled leave, chunks that
/// changed and their loaded neighbours stay or join.
pub open spec fn active_after(a: Set<ChunkPos>, m: Map<ChunkPos, crate::chunk::Chunk>, us: Seq<ChunkUpdate>) -> Set<ChunkPos> {
    a.difference(settled_positions(us)).union(changed_positions(us)).union(woken_neighbors(m, us))
}

/// A tile time in microseconds as the load window stores it: saturated to `u32`.
pub open spec fn clamp_time(us: u64) -> u32 {
    if us > u32::MAX as u64 {
        u32::MAX
    } else {
        us as u32
    }
}

/// Schedules tile jobs for active chunks and folds their results back into the world.
pub struct FluidSystem {
    connected: bool,
    pending_tiles: Vec<ChunkPos>,
    load: LoadMonitor,
    fallback_ready_at: Option<u64>,
}

impl FluidSystem {
    /// Bases of the tiles in flight.
    pub closed spec fn pending(&self) -> Seq<ChunkPos> {
        self.pending_tiles@
    }

    /// Whether jobs can still reach the worker.
    pub closed spec fn connected(&self) -> bool {
        self.connected
    }

    pub closed spec fn load_window(&self) -> Seq<u32> {
        self.load.window()
    }

    /// The time, in milliseconds, until which the compute path counts as overloaded.
    pub closed spec fn deadline(&self) -> u64 {
        self.load.deadline()
    }

    /// The earliest time of the next fallback step, once one has run.
    pub closed spec fn fallback_ready(&self) -> Option<u64> {
        self.fallback_ready_at
    }

    pub closed spec fn wf(&self) -> bool {
        &&& self.pending_tiles@.len() <= MAX_IN_FLIGHT
        &&& self.pending_tiles@.no_duplicates()
        &&& self.load.wf()
    }

    /// At most `MAX_IN_FLIGHT` tiles are ever in flight.
    pub proof fn lemma_in_flight_bounded(&self)
        requires
            self.wf(),
        ensures
            self.pending().len() <= MAX_IN_FLIGHT,
            self.pending().no_duplicates(),
    {
    }

    /// A system with nothing in flight, connected to its worker, not overloaded from `now` on.
    pub fn new(now: u64) -> (r: FluidSystem)
        ensures
            r.wf(),
            r.connected(),
            r.pending() == Seq::<ChunkPos>::empty(),
            r.load_window() == Seq::<u32>::empty(),
            r.deadline() == now,
            r.fallback_ready() is None,
    {
        FluidSystem {
            connected: true,
            pending_tiles: Vec::new(),
            load: LoadMonitor::new(now),
            fallback_ready_at: None,
        }
    }

    /// Whether the compute path is overloaded at time `now`.
    pub fn is_overloaded(&self, now: u64) -> (r: bool)
        ensures
            r == (now < self.deadline()),
    {
        self.load.is_overloaded(now)
    }

    /// Number of tiles in flight.
    pub fn in_flight(&self) -> (r: usize)
        ensures
            r == self.pending().len(),
    {
        self.pending_tiles.len()
    }

    /// Stops all scheduling for good: the worker can no longer be reached.
    pub fn disconnect(&mut self)
        requires
            old(self).wf(),
        ensures
            final(self).wf(),
            !final(self).connected(),
            final(self).pending() == old(self).pending(),
            final(self).load_window() == old(self).load_window(),
            final(self).deadline() == old(self).deadline(),
            final(self).fallback_ready() == old(self).fallback_ready(),
    {
        self.connected = false;
    }

    fn is_pending(&self, base: ChunkPos) -> (r: bool)
        ensures
            r == self.pending().contains(base),
    {
        let mut i: usize = 0;
        while i < self.pending_tiles.len()
            invariant
                i <= self.pending_tiles@.len(),
                forall|j: int| 0 <= j < i ==> self.pending_tiles@[j] != base,
            decreases self.pending_tiles@.len() - i,
        {
            if self.pending_tiles[i] == base {
                return true;
            }
            i = i + 1;
        }
        false
    }

    /// Picks at most one tile job for this cycle. Nothing is picked when the worker is gone,
    /// `MAX_IN_FLIGHT` tiles are in flight, or the compute path is overloaded at `now`;
    /// otherwise the first schedulable chunk of the active snapshot gives the job, and its
    /// tile base goes in flight.
    pub fn pump(&mut self, world: &World, now: u64) -> (r: Option<TileInput>)
        requires
            old(self).wf(),
            world.wf(),
        ensures
            final(self).wf(),
            final(self).pending().len() <= MAX_IN_FLIGHT,
            final(self).connected() == old(self).connected(),
            final(self).load_window() == old(self).load_window(),
            final(self).deadline() == old(self).deadline(),
            final(self).fallback_ready() == old(self).fallback_ready(),
            r is None <==> (!old(self).connected() || old(self).pending().len() >= MAX_IN_FLIGHT
                || now < old(self).deadline() || forall|p: ChunkPos|
                #[trigger] world.active_set().contains(p) ==> !schedulable(world.chunk_map(), old(self).pending(), p)),
            r is None ==> final(self).pending() == old(self).pending(),
            r matches Some(t) ==> exists|j: int|
                0 <= j < world.active_seq().len() && schedulable(world.chunk_map(), old(self).pending(), #[trigger] world.active_seq()[j])
                    && (forall|k: int| 0 <= k < j ==> !schedulable(world.chunk_map(), old(self).pending(), world.active_seq()[k]))
                    && tile_matches(t, world.chunk_map(), tile_base_of(world.active_seq()[j]))
                    && final(self).pending() == old(self).pending().push(tile_base_of(world.active_seq()[j])),
    {
        if !self.connected || self.pending_tiles.len() >= MAX_IN_FLIGHT || self.load.is_overloaded(now) {
            return None;
        }
        let active = world.active_fluid_chunks_snapshot();
        let mut i: usize = 0;
        while i < active.len()
            invariant
                *self == *old(self),
                old(self).wf(),
                world.wf(),
                self.pending_tiles@.len() < MAX_IN_FLIGHT,
                self.connected,
                !(now < self.load.deadline()),
                i <= active@.len(),
                active@ == world.active_seq(),
                forall|p: ChunkPos| #[trigger] active@.contains(p) <==> world.active_set().contains(p),
                forall|j: int| 0 <= j < i ==> !schedulable(world.chunk_map(), self.pending(), #[trigger] active@[j]),
            decreases active@.len() - i,
        {
            let p = active[i];
            if p.x > i32::MIN && p.z > i32::MIN {
                let base = ChunkPos { x: p.x - 1, z: p.z - 1 };
                assert(base == tile_base_of(p));
                if !self.is_pending(base) {
                    match build_tile_input(world, base.x, base.z) {
                        Some(t) => {
                            proof {
                                assert(active@[i as int] == p);
                                assert(active@.contains(p));
                                assert(world.active_set().contains(p));
                                assert(schedulable(world.chunk_map(), old(self).pending(), p));
                                assert(schedulable(world.chunk_map(), old(self).pending(), world.active_seq()[i as int]));
                            }
                            self.pending_tiles.push(base);
                            proof {
                                assert(active@.contains(p));
                                assert(self.pending_tiles@.no_duplicates()) by {
                                    assert forall|a: int, b: int| 0 <= a < b < self.pending_tiles@.len() implies self.pending_tiles@[a] != self.pending_tiles@[b] by {
                                        if b == self.pending_tiles@.len() - 1 {
                                            assert(old(self).pending_tiles@[a] == self.pending_tiles@[a]);
                                            assert(old(self).pending_tiles@.contains(old(self).pending_tiles@[a]));
                                        } else {
                                            assert(old(self).pending_tiles@[a] == self.pending_tiles@[a]);
                                            assert(old(self).pending_tiles@[b] == self.pending_tiles@[b]);
                                        }
                                    }
                                }
                            }
                            return Some(t);
                        },
                        None => {},
                    }
                }
            }
            i = i + 1;
        }
        proof {
            assert forall|p: ChunkPos| #[trigger] world.active_set().contains(p) implies !schedulable(world.chunk_map(), old(self).pending(), p) by {
                assert(active@.contains(p));
                let j = choose|j: int| 0 <= j < active@.len() && active@[j] == p;
                assert(!schedulable(world.chunk_map(), self.pending(), active@[j]));
            }
        }
        None
    }

    /// Folds one finished tile into the world: its time goes to the load monitor (read at
    /// `now`), its base leaves the in-flight set, each loaded core chunk takes its new levels
    /// (clamped to a full cell),
    /// chunks that settled leave the active set, and chunks that changed stay in it together
    /// with their loaded neighbours. Returns whether any chunk changed; if so, the world is
    /// marked for a mesh rebuild.
    pub fn handle_tile_output(&mut self, world: &mut World, output: TileOutput, now: u64) -> (r: bool)
        requires
            old(self).wf(),
            old(world).wf(),
        ensures
            final(self).wf(),
            final(world).wf(),
            final(self).connected() == old(self).connected(),
            final(self).fallback_ready() == old(self).fallback_ready(),
            final(self).pending().to_set() == old(self).pending().to_set().remove(output.base_chunk),
            final(self).load_window() == window_after(old(self).load_window(), clamp_time(output.compute_time_us)),
            final(self).deadline() == deadline_after(
                window_after(old(self).load_window(), clamp_time(output.compute_time_us)),
                old(self).deadline(),
                now,
            ),
            r == exists|k: int| 0 <= k < output.chunk_updates@.len() && update_changed(#[trigger] output.chunk_updates@[k]),
            final(world).dirty() == (old(world).dirty() || r),
            final(world).chunk_map().dom() == old(world).chunk_map().dom(),
            final(world).active_set() == active_after(old(world).active_set(), old(world).chunk_map(), output.chunk_updates@),
            forall|p: ChunkPos| #[trigger] old(world).chunk_map().contains_key(p) && (forall|k: int| 0 <= k < output.chunk_updates@.len()
                ==> !(update_applies(#[trigger] output.chunk_updates@[k]) && output.chunk_updates@[k].pos == p))
                ==> final(world).chunk_map()[p] == old(world).chunk_map()[p],
            forall|k: int| 0 <= k < output.chunk_updates@.len() && update_applies(#[trigger] output.chunk_updates@[k])
                && old(world).chunk_map().contains_key(output.chunk_updates@[k].pos)
                && (forall|j: int| k < j < output.chunk_updates@.len() ==> !(update_applies(output.chunk_updates@[j]) && output.chunk_updates@[j].pos == output.chunk_updates@[k].pos))
                ==> final(world).chunk_map()[output.chunk_updates@[k].pos].fluid_seq() == clamped_levels(output.chunk_updates@[k].fluids@),
    {
        let us_time: u32 = if output.compute_time_us > u32::MAX as u64 {
            u32::MAX
        } else {
            output.compute_time_us as u32
        };
        self.load.record(us_time, now);
        self.remove_pending(output.base_chunk);
        let updates = &output.chunk_updates;
        let ghost us = updates@;
        let ghost m0 = world.chunk_map();
        let ghost a0 = world.active_set();
        let ghost d0 = world.dirty();
        let mut i: usize = 0;
        while i < updates.len()
            invariant
                us == updates@,
                world.wf(),
                i <= us.len(),
                world.active_set() == a0,
                world.dirty() == d0,
                world.chunk_map().dom() == m0.dom(),
                forall|p: ChunkPos| #[trigger] m0.contains_key(p) && (forall|k: int| 0 <= k < i
                    ==> !(update_applies(#[trigger] us[k]) && us[k].pos == p))
                    ==> world.chunk_map()[p] == m0[p],
                forall|k: int| 0 <= k < i && update_applies(#[trigger] us[k]) && m0.contains_key(us[k].pos)
                    && (forall|j: int| k < j < i ==> !(update_applies(us[j]) && us[j].pos == us[k].pos))
                    ==> world.chunk_map()[us[k].pos].fluid_seq() == clamped_levels(us[k].fluids@),
            decreases us.len() - i,
        {
            let u = &updates[i];
            if u.exists && u.is_core && u.fluids.len() == CHUNK_VOLUME {
                assert(update_applies(us[i as int]));
                world.apply_chunk_fluids(u.pos, u.fluids.as_slice());
            } else {
                assert(!update_applies(us[i as int]));
            }
            i = i + 1;
        }
        let ghost m1 = world.chunk_map();
        let mut i: usize = 0;
        while i < updates.len()
            invariant
                us == updates@,
                world.wf(),
                i <= us.len(),
                world.chunk_map() == m1,
                world.dirty() == d0,
                world.active_set() == a0.difference(settled_positions(us.subrange(0, i as int))),
            decreases us.len() - i,
        {
            let u = &updates[i];
            if u.is_core && !(u.exists && u.changed) {
                world.finalize_fluid_chunk_state(u.pos, false, u.has_fluid);
            }
            proof {
                let s0 = settled_positions(us.subrange(0, i as int));
                let s1 = settled_positions(us.subrange(0, i as int + 1));
                assert forall|p: ChunkPos| #[trigger] s1.contains(p) <==> s0.contains(p) || (p == us[i as int].pos && update_settles(us[i as int])) by {
                    if s1.contains(p) {
                        let k = choose|k: int| 0 <= k < i + 1 && #[trigger] us.subrange(0, i as int + 1)[k].pos == p && update_settles(us.subrange(0, i as int + 1)[k]);
                        if k < i {
                            assert(us.subrange(0, i as int)[k] == us[k]);
                        }
                    }
                    if s0.contains(p) {
                        let k = choose|k: int| 0 <= k < i && #[trigger] us.subrange(0, i as int)[k].pos == p && update_settles(us.subrange(0, i as int)[k]);
                        assert(us.subrange(0, i as int + 1)[k] == us[k]);
                    }
                    if p == us[i as int].pos && update_settles(us[i as int]) {
                        assert(us.subrange(0, i as int + 1)[i as int] == us[i as int]);
                    }
                }
                assert(world.active_set() =~= a0.difference(s1));
            }
            i = i + 1;
        }
        proof {
            assert(us.subrange(0, us.len() as int) =~= us);
        }
        let ghost a1 = world.active_set();
        let mut changed = false;
        let mut i: usize = 0;
        while i < updates.len()
            invariant
                us == updates@,
                world.wf(),
                i <= us.len(),
                world.chunk_map() == m1,
                world.dirty() == d0,
                m1.dom() == m0.dom(),
                world.active_set() == a1.union(changed_positions(us.subrange(0, i as int))).union(woken_neighbors(m0, us.subrange(0, i as int))),
                changed == exists|k: int| 0 <= k < i && update_changed(#[trigger] us[k]),
            decreases us.len() - i,
        {
            let u = &updates[i];
            if u.is_core && u.exists && u.changed {
                changed = true;
                world.finalize_fluid_chunk_state(u.pos, true, u.has_fluid);
            }
            proof {
                let sub0 = us.subrange(0, i as int);
                let sub1 = us.subrange(0, i as int + 1);
                assert forall|k: int| 0 <= k < i implies #[trigger] sub1[k] == sub0[k] && sub0[k] == us[k] by {}
                assert(sub1[i as int] == us[i as int]);
                let c0 = changed_positions(sub0);
                let c1 = changed_positions(sub1);
                let w0 = woken_neighbors(m0, sub0);
                let w1 = woken_neighbors(m0, sub1);
                assert forall|p: ChunkPos| #[trigger] c1.contains(p) <==> c0.contains(p) || (p == us[i as int].pos && update_changed(us[i as int])) by {
                    if c1.contains(p) {
                        let k = choose|k: int| 0 <= k < i + 1 && #[trigger] sub1[k].pos == p && update_changed(sub1[k]);
                        if k < i {
                            assert(sub0[k].pos == p);
                        }
                    }
                    if c0.contains(p) {
                        let k = choose|k: int| 0 <= k < i && #[trigger] sub0[k].pos == p && update_changed(sub0[k]);
                        assert(sub1[k].pos == p);
                    }
                }
                assert forall|q: ChunkPos| #[trigger] w1.contains(q) <==> w0.contains(q) || (m0.contains_key(q) && update_changed(us[i as int]) && is_lateral_neighbor(us[i as int].pos, q)) by {
                    if w1.contains(q) {
                        let k = choose|k: int| 0 <= k < i + 1 && update_changed(#[trigger] sub1[k]) && is_lateral_neighbor(sub1[k].pos, q);
                        if k < i {
                            assert(update_changed(sub0[k]));
                        }
                    }
                    if w0.contains(q) {
                        let k = choose|k: int| 0 <= k < i && update_changed(#[trigger] sub0[k]) && is_lateral_neighbor(sub0[k].pos, q);
                        assert(update_changed(sub1[k]));
                    }
                }
                assert(world.active_set() =~= a1.union(c1).union(w1));
                if update_changed(us[i as int]) {
                    assert(exists|k: int| 0 <= k < i + 1 && update_changed(#[trigger] us[k]));
                } else {
                    assert((exists|k: int| 0 <= k < i + 1 && update_changed(#[trigger] us[k])) == (exists|k: int| 0 <= k < i && update_changed(#[trigger] us[k])));
                }
            }
            i = i + 1;
        }
        proof {
            assert(us.subrange(0, us.len() as int) =~= us);
            assert(world.active_set() =~= active_after(a0, m0, us));
        }
        if changed {
            world.mark_dirty();
        }
        changed
    }

    /// Whether a fallback step may run at `now`: the compute path is overloaded (or its worker
    /// is gone for good), and the fallback's own cooldown has passed.
    pub open spec fn fallback_due(&self, now: u64) -> bool {
        &&& (now < self.deadline() || !self.connected())
        &&& match self.fallback_ready() {
            Some(t) => now >= t,
            None => true,
        }
    }

    /// Runs one step of the sequential engine when one is due (see `fallback_due`), then
    /// holds the next one back for `CPU_FALLBACK_COOLDOWN_MS`. A step that changed something
    /// means the system has caught up: the load history is dropped and the overload ends.
    /// Returns whether a step ran and changed anything.
    pub fn fallback_step(&mut self, world: &mut World, now: u64) -> (r: bool)
        requires
            old(self).wf(),
            old(world).wf(),
        ensures
            final(self).wf(),
            final(world).wf(),
            final(world).dirty() == old(world).dirty(),
            final(world).chunk_map().dom() == old(world).chunk_map().dom(),
            final(self).connected() == old(self).connected(),
            final(self).pending() == old(self).pending(),
            !old(self).fallback_due(now) ==> {
                &&& !r
                &&& world_state(*final(world)) == world_state(*old(world))
                &&& final(self).load_window() == old(self).load_window()
                &&& final(self).deadline() == old(self).deadline()
                &&& final(self).fallback_ready() == old(self).fallback_ready()
            },
            old(self).fallback_due(now) ==> {
                let res = step_fold(world_state(*old(world)), old(world).active_seq(), old(world).active_seq().len() as int);
                &&& world_state(*final(world)) == res.0
                &&& r == res.1
                &&& final(self).fallback_ready() == Some(
                    if now <= u64::MAX - CPU_FALLBACK_COOLDOWN_MS { (now + CPU_FALLBACK_COOLDOWN_MS) as u64 } else { u64::MAX },
                )
                &&& r ==> final(self).load_window() == Seq::<u32>::empty() && final(self).deadline() == now
                &&& !r ==> final(self).load_window() == old(self).load_window() && final(self).deadline() == old(self).deadline()
            },
    {
        if !self.load.is_overloaded(now) && self.connected {
            return false;
        }
        match self.fallback_ready_at {
            Some(ready) => {
                if now < ready {
                    return false;
                }
            },
            None => {},
        }
        let changed = world.step_fluids();
        self.fallback_ready_at = Some(
            if now <= u64::MAX - CPU_FALLBACK_COOLDOWN_MS {
                now + CPU_FALLBACK_COOLDOWN_MS
            } else {
                u64::MAX
            },
        );
        if changed {
            self.load.reset(now);
        }
        changed
    }

    fn remove_pending(&mut self, base: ChunkPos)
        requires
            old(self).wf(),
        ensures
            final(self).wf(),
            final(self).pending().to_set() == old(self).pending().to_set().remove(base),
            final(self).pending().len() <= old(self).pending().len(),
            final(self).connected() == old(self).connected(),
            final(self).load == old(self).load,
            final(self).fallback_ready() == old(self).fallback_ready(),
    {
        let mut i: usize = 0;
        while i < self.pending_tiles.len()
            invariant
                *self == *old(self),
                old(self).wf(),
                i <= self.pending_tiles@.len(),
                forall|j: int| 0 <= j < i ==> self.pending_tiles@[j] != base,
            decreases self.pending_tiles@.len() - i,
        {
            if self.pending_tiles[i] == base {
                let ghost s = self.pending_tiles@;
                self.pending_tiles.remove(i);
                proof {
                    assert(self.pending_tiles@ == s.remove(i as int));
                    assert forall|k: int| 0 <= k < self.pending_tiles@.len() implies #[trigger] self.pending_tiles@[k] == if k < i { s[k] } else { s[k + 1] } by {}
                    assert(self.pending_tiles@.no_duplicates()) by {
                        assert forall|a: int, b: int| 0 <= a < b < self.pending_tiles@.len() implies self.pending_tiles@[a] != self.pending_tiles@[b] by {
                            let a2 = if a < i { a } else { a + 1 };
                            let b2 = if b < i { b } else { b + 1 };
                            assert(self.pending_tiles@[a] == s[a2]);
                            assert(self.pending_tiles@[b] == s[b2]);
                        }
                    }
                    assert forall|q: ChunkPos| #[trigger] self.pending_tiles@.to_set().contains(q) <==> s.to_set().remove(base).contains(q) by {
                        if self.pending_tiles@.contains(q) {
                            let k = choose|k: int| 0 <= k < self.pending_tiles@.len() && self.pending_tiles@[k] == q;
                            let k2 = if k < i { k } else { k + 1 };
                            assert(s[k2] == q);
                            assert(s.contains(q));
                        }
                        if s.to_set().remove(base).contains(q) {
                            assert(s.contains(q));
                            let k = choose|k: int| 0 <= k < s.len() && s[k] == q;
                            assert(k != i);
                            if k < i {
                                assert(self.pending_tiles@[k] == q);
                            } else {
                                assert(self.pending_tiles@[k - 1] == q);
                            }
                        }
                    }
                    assert(self.pending_tiles@.to_set() =~= s.to_set().remove(base));
                }
                return;
            }
            i = i + 1;
        }
        proof {
            assert(self.pending_tiles@.to_set() =~= old(self).pending_tiles@.to_set().remove(base));
        }
    }
}

} // verus!
