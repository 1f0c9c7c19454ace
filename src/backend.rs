use vstd::prelude::*;

use crate::chunk::{cell_index, Chunk, CHUNK_VOLUME, MAX_FLUID_LEVEL};
use crate::kernel::{
    column_closed, column_sum, kernel_start, lemma_closed_column_conserved, lemma_rest_is_fixed, lemma_simulate_ok, lemma_total_conserved, total, lemma_start_ok, levels_ok, at_rest,
    simulate, simulate_exec, MAX_LEVEL,
};
use crate::tile::{
    lemma_tile_cell, slot_pos, tile_matches, tile_slot_of, tile_solid_at, TileChunkInfo, TileInput,
    PADDED_TILE_EDGE, TILE_BLOCKS, TILE_CELLS, TILE_LAYER, TILE_SLOTS,
};
use crate::world::ChunkPos;

verus! {

/// The result of a tile for one chunk slot.
#[derive(Clone, Debug)]
pub struct ChunkUpdate {
    pub pos: ChunkPos,
    /// New fluid level of every cell of the chunk; empty unless the slot is a loaded core chunk.
    pub fluids: Vec<u8>,
    /// Some cell's level differs from the tile's input.
    pub changed: bool,
    /// Some cell holds fluid.
    pub has_fluid: bool,
    pub exists: bool,
    pub is_core: bool,
}

/// What a worker hands back for one tile.
#[derive(Clone, Debug)]
pub struct TileOutput {
    pub base_chunk: ChunkPos,
    pub chunk_updates: Vec<ChunkUpdate>,
    /// Time the tile took, in microseconds.
    pub compute_time_us: u64,
}

impl TileOutput {
    /// The output of a finished job for `input`: its updates, reported for the tile's base,
    /// with the time the job took.
    pub fn for_tile(input: &TileInput, chunk_updates: Vec<ChunkUpdate>, compute_time_us: u64) -> (r: TileOutput)
        ensures
            r.base_chunk == input.base_chunk,
            r.chunk_updates@ == chunk_updates@,
            r.compute_time_us == compute_time_us,
    {
        TileOutput { base_chunk: input.base_chunk, chunk_updates, compute_time_us }
    }
}

/// Why a tile job could not run.
#[derive(Clone, Copy, Debug, PartialEq, Eq, Structural)]
pub enum TileError {
    /// The tile is not a 5 x 5 block of chunks 80 x 80 cells across.
    UnsupportedShape,
    /// The slot list does not have one entry per chunk of the grid.
    ChunkInfoMismatch,
    /// A buffer does not have one entry per cell.
    BufferLength,
}

/// Tile index of local cell `l` of slot `k`.
pub open spec fn slot_cell(k: int, l: int) -> int {
    (16 * (k % 5) + l % 16) + 80 * ((16 * (k / 5) + (l % 256) / 16) + 80 * (l / 256))
}

/// A level read back from the kernel, clamped to a full cell.
pub open spec fn clamp_level(x: u32) -> u8 {
    if x > MAX_LEVEL {
        MAX_FLUID_LEVEL
    } else {
        x as u8
    }
}

/// The levels of slot `k`'s chunk in the kernel's final buffer.
pub open spec fn slot_fluids(fin: Seq<u32>, k: int) -> Seq<u8> {
    Seq::new(CHUNK_VOLUME as nat, |l: int| clamp_level(fin[slot_cell(k, l)]))
}

/// Whether update `u` is what slot `k` yields when the tile started from `orig` and the kernel
/// finished with `fin`.
pub open spec fn update_matches(
    u: ChunkUpdate,
    info: TileChunkInfo,
    orig: Seq<u32>,
    fin: Seq<u32>,
    k: int,
) -> bool {
    &&& u.pos == info.pos
    &&& u.exists == info.exists
    &&& u.is_core == info.is_core
    &&& if info.is_core && info.exists {
        &&& u.fluids@ == slot_fluids(fin, k)
        &&& u.changed == exists|l: int|
            0 <= l < CHUNK_VOLUME && #[trigger] slot_fluids(fin, k)[l] as u32 != orig[slot_cell(k, l)]
        &&& u.has_fluid == exists|l: int| 0 <= l < CHUNK_VOLUME && #[trigger] slot_fluids(fin, k)[l] > 0
    } else {
        &&& u.fluids@.len() == 0
        &&& !u.changed
        &&& !u.has_fluid
    }
}

/// Whether `input` has the one shape the kernel runs.
pub open spec fn tile_shape_ok(input: TileInput) -> bool {
    &&& input.chunks_wide == PADDED_TILE_EDGE
    &&& input.chunks_deep == PADDED_TILE_EDGE
    &&& input.tile_width_blocks == TILE_BLOCKS
    &&& input.tile_depth_blocks == TILE_BLOCKS
}

/// The error a tile job fails with, if any.
pub open spec fn tile_error(input: TileInput) -> Option<TileError> {
    if !tile_shape_ok(input) {
        Some(TileError::UnsupportedShape)
    } else if input.chunk_info@.len() != TILE_SLOTS {
        Some(TileError::ChunkInfoMismatch)
    } else if input.original@.len() != TILE_CELLS || input.solid@.len() != TILE_CELLS {
        Some(TileError::BufferLength)
    } else {
        None
    }
}

/// Iterations a tile job runs: as asked, but at least one.
pub open spec fn job_iterations(input: TileInput) -> nat {
    if input.iterations == 0 {
        1
    } else {
        input.iterations as nat
    }
}

/// The kernel's final buffer for a well-formed tile.
pub open spec fn tile_final(input: TileInput) -> Seq<u32> {
    simulate(kernel_start(input.original@, input.solid@), input.solid@, job_iterations(input))
}

proof fn lemma_slot_cell(k: int, l: int)
    requires
        0 <= k < 25,
        0 <= l < CHUNK_VOLUME,
    ensures
        0 <= slot_cell(k, l) < TILE_CELLS,
{
    assert(0 <= 16 * (k % 5) + l % 16 < 80);
    assert(0 <= 16 * (k / 5) + (l % 256) / 16 < 80);
    assert(0 <= l / 256 < 256);
}

/// Boundary closure: in a tile built from chunks `m`, every cell of a slot where no chunk is
/// loaded is closed and empty, the slot reports no chunk, and the cell stays empty through any
/// number of iterations.
pub proof fn lemma_boundary_closed(t: TileInput, m: Map<ChunkPos, Chunk>, base: ChunkPos, i: int, n: nat)
    requires
        tile_matches(t, m, base),
        0 <= i < TILE_CELLS,
        !m.contains_key(slot_pos(base, tile_slot_of(i))),
    ensures
        t.solid@[i] == 1,
        t.original@[i] == 0,
        !t.chunk_info@[tile_slot_of(i)].exists,
        simulate(kernel_start(t.original@, t.solid@), t.solid@, n)[i] == 0,
{
    lemma_tile_cell(i);
    lemma_start_ok(t.original@, t.solid@);
    lemma_simulate_ok(kernel_start(t.original@, t.solid@), t.solid@, n);
    assert(t.solid@[i] == tile_solid_at(m, base, i));
}

/// At rest, a tile reports no change: when its levels already form a configuration at rest
/// (a settled, flat one in particular), every slot's levels come back exactly as they went in, so no update can
/// report a change.
pub proof fn lemma_rest_reports_no_change(input: TileInput, k: int)
    requires
        tile_error(input) is None,
        levels_ok(input.original@, input.solid@),
        at_rest(input.original@, input.solid@),
        0 <= k < TILE_SLOTS,
    ensures
        forall|l: int| 0 <= l < CHUNK_VOLUME ==> #[trigger] slot_fluids(tile_final(input), k)[l] as u32
            == input.original@[slot_cell(k, l)],
        forall|u: ChunkUpdate|
            update_matches(u, input.chunk_info@[k], input.original@, tile_final(input), k) ==> !u.changed,
{
    let v = input.original@;
    let s = input.solid@;
    assert(kernel_start(v, s) =~= v);
    lemma_rest_is_fixed(v, s, job_iterations(input));
    assert forall|l: int| 0 <= l < CHUNK_VOLUME implies #[trigger] slot_fluids(tile_final(input), k)[l] as u32
        == input.original@[slot_cell(k, l)] by {
        lemma_slot_cell(k, l);
    }
}

/// Sum of the first `n` levels of the column at local `(lx, lz)` of a chunk's levels.
pub open spec fn local_column_sum(f: Seq<u8>, lx: int, lz: int, n: int) -> int
    decreases n,
{
    if n <= 0 {
        0
    } else {
        local_column_sum(f, lx, lz, n - 1) + f[cell_index(lx, n - 1, lz)]
    }
}

proof fn lemma_slot_column(k: int, lx: int, lz: int, y: int)
    requires
        0 <= k < 25,
        0 <= lx < 16,
        0 <= lz < 16,
        0 <= y < 256,
    ensures
        slot_cell(k, cell_index(lx, y, lz)) == slot_cell(k, cell_index(lx, 0, lz)) + TILE_LAYER * y,
{
    let l = cell_index(lx, y, lz);
    assert(l % 16 == lx);
    assert((l % 256) / 16 == lz);
    assert(l / 256 == y);
}

proof fn lemma_local_column(fin: Seq<u32>, s: Seq<u32>, k: int, lx: int, lz: int, n: int)
    requires
        levels_ok(fin, s),
        0 <= k < 25,
        0 <= lx < 16,
        0 <= lz < 16,
        0 <= n <= 256,
    ensures
        local_column_sum(slot_fluids(fin, k), lx, lz, n) == column_sum(fin, slot_cell(k, cell_index(lx, 0, lz)), n),
    decreases n,
{
    if n > 0 {
        lemma_local_column(fin, s, k, lx, lz, n - 1);
        lemma_slot_column(k, lx, lz, n - 1);
        lemma_slot_cell(k, cell_index(lx, n - 1, lz));
    }
}

/// Conservation in a closed column through a whole tile job: when every lateral neighbour of
/// a column of slot `k` is closed, the column of that slot's update holds the same total as
/// the tile's input column, however many iterations the job runs.
pub proof fn lemma_tile_column_conserved(input: TileInput, k: int, lx: int, lz: int)
    requires
        tile_error(input) is None,
        levels_ok(input.original@, input.solid@),
        0 <= k < TILE_SLOTS,
        0 <= lx < 16,
        0 <= lz < 16,
        column_closed(input.solid@, slot_cell(k, cell_index(lx, 0, lz))),
    ensures
        local_column_sum(slot_fluids(tile_final(input), k), lx, lz, 256) == column_sum(
            input.original@,
            slot_cell(k, cell_index(lx, 0, lz)),
            256,
        ),
{
    let v = input.original@;
    let s = input.solid@;
    let c = slot_cell(k, cell_index(lx, 0, lz));
    assert(kernel_start(v, s) =~= v);
    assert(0 <= c < TILE_LAYER) by {
        lemma_slot_cell(k, cell_index(lx, 0, lz));
    }
    lemma_closed_column_conserved(v, s, c, job_iterations(input));
    lemma_simulate_ok(v, s, job_iterations(input));
    lemma_local_column(tile_final(input), s, k, lx, lz, 256);
}

/// Conservation in the whole tile through a tile job: the kernel's final buffer holds the same
/// total as the tile's input, however many iterations the job runs.
pub proof fn lemma_tile_total_conserved(input: TileInput)
    requires
        tile_error(input) is None,
        levels_ok(input.original@, input.solid@),
    ensures
        total(tile_final(input), TILE_CELLS as int) == total(input.original@, TILE_CELLS as int),
        levels_ok(tile_final(input), input.solid@),
{
    let v = input.original@;
    let s = input.solid@;
    assert(kernel_start(v, s) =~= v);
    lemma_total_conserved(v, s, job_iterations(input));
    lemma_simulate_ok(v, s, job_iterations(input));
}

/// Cuts slot `k`'s chunk out of the final buffer and compares it with the tile's input.
fn extract_slot(info: TileChunkInfo, k: usize, orig: &Vec<u32>, fin: &Vec<u32>) -> (r: ChunkUpdate)
    requires
        k < TILE_SLOTS,
        orig@.len() == TILE_CELLS,
        fin@.len() == TILE_CELLS,
    ensures
        update_matches(r, info, orig@, fin@, k as int),
{
    if !info.is_core || !info.exists {
        return ChunkUpdate {
            pos: info.pos,
            fluids: Vec::new(),
            changed: false,
            has_fluid: false,
            exists: info.exists,
            is_core: info.is_core,
        };
    }
    let ox = (k % PADDED_TILE_EDGE) * 16;
    let oz = (k / PADDED_TILE_EDGE) * 16;
    let mut fluids: Vec<u8> = Vec::new();
    let mut changed = false;
    let mut has_fluid = false;
    let mut l: usize = 0;
    while l < CHUNK_VOLUME
        invariant
            k < TILE_SLOTS,
            ox == (k % 5) * 16,
            oz == (k / 5) * 16,
            orig@.len() == TILE_CELLS,
            fin@.len() == TILE_CELLS,
            l <= CHUNK_VOLUME,
            fluids@.len() == l,
            forall|j: int| 0 <= j < l ==> #[trigger] fluids@[j] == slot_fluids(fin@, k as int)[j],
            changed == exists|j: int|
                0 <= j < l && #[trigger] slot_fluids(fin@, k as int)[j] as u32 != orig@[slot_cell(k as int, j)],
            has_fluid == exists|j: int| 0 <= j < l && #[trigger] slot_fluids(fin@, k as int)[j] > 0,
        decreases CHUNK_VOLUME - l,
    {
        proof {
            lemma_slot_cell(k as int, l as int);
        }
        let idx = (ox + l % 16) + TILE_BLOCKS * ((oz + (l % 256) / 16) + TILE_BLOCKS * (l / 256));
        assert(idx == slot_cell(k as int, l as int));
        let raw = fin[idx];
        let amount: u8 = if raw > MAX_LEVEL {
            MAX_FLUID_LEVEL
        } else {
            raw as u8
        };
        assert(amount == slot_fluids(fin@, k as int)[l as int]);
        if amount as u32 != orig[idx] {
            changed = true;
        }
        if amount > 0 {
            has_fluid = true;
        }
        fluids.push(amount);
        l = l + 1;
    }
    proof {
        assert(fluids@ =~= slot_fluids(fin@, k as int));
    }
    ChunkUpdate { pos: info.pos, fluids, changed, has_fluid, exists: true, is_core: true }
}

/// Runs a tile job: checks its shape and sizes, runs the kernel, and reports each slot.
pub fn run_tile(input: &TileInput) -> (r: Result<Vec<ChunkUpdate>, TileError>)
    ensures
        r is Err <==> tile_error(*input) is Some,
        r matches Err(e) ==> tile_error(*input) == Some(e),
        r matches Ok(updates) ==> {
            &&& updates@.len() == TILE_SLOTS
            &&& forall|k: int|
                0 <= k < TILE_SLOTS ==> update_matches(
                    #[trigger] updates@[k],
                    input.chunk_info@[k],
                    input.original@,
                    tile_final(*input),
                    k,
                )
        },
{
    if !(input.chunks_wide == PADDED_TILE_EDGE && input.chunks_deep == PADDED_TILE_EDGE
        && input.tile_width_blocks == TILE_BLOCKS && input.tile_depth_blocks == TILE_BLOCKS) {
        return Err(TileError::UnsupportedShape);
    }
    if input.chunk_info.len() != TILE_SLOTS {
        return Err(TileError::ChunkInfoMismatch);
    }
    if input.original.len() != TILE_CELLS || input.solid.len() != TILE_CELLS {
        return Err(TileError::BufferLength);
    }
    let start = crate::kernel::kernel_start_exec(&input.original, &input.solid);
    let iterations: u32 = if input.iterations == 0 {
        1
    } else {
        input.iterations
    };
    let fin = simulate_exec(start, &input.solid, iterations);
    let mut updates: Vec<ChunkUpdate> = Vec::new();
    let mut k: usize = 0;
    while k < TILE_SLOTS
        invariant
            input.chunk_info@.len() == TILE_SLOTS,
            input.original@.len() == TILE_CELLS,
            fin@ == tile_final(*input),
            fin@.len() == TILE_CELLS,
            k <= TILE_SLOTS,
            updates@.len() == k,
            forall|j: int|
                0 <= j < k ==> update_matches(
                    #[trigger] updates@[j],
                    input.chunk_info@[j],
                    input.original@,
                    tile_final(*input),
                    j,
                ),
        decreases TILE_SLOTS - k,
    {
        let u = extract_slot(input.chunk_info[k], k, &input.original, &fin);
        updates.push(u);
        k = k + 1;
    }
    Ok(updates)
}

} // verus!
