use vstd::prelude::*;

use crate::chunk::{cell_index, Chunk, CHUNK_HEIGHT, CHUNK_SIZE, CHUNK_VOLUME};
use crate::world::{ChunkPos, World};

verus! {

/// Chunks along each side of a tile's authoritative core.
pub const TILE_EDGE_CHUNKS: usize = 3;

/// Chunks of context on each side of the core.
pub const TILE_PADDING: usize = 1;

/// Chunks along each side of a whole tile, padding included.
pub const PADDED_TILE_EDGE: usize = 5;

/// Cells along the x and z sides of a tile.
pub const TILE_BLOCKS: usize = 80;

/// Cells in one horizontal layer of a tile.
pub const TILE_LAYER: usize = 6400;

/// Cells in a whole tile.
pub const TILE_CELLS: usize = 1638400;

/// Chunk slots in a tile.
pub const TILE_SLOTS: usize = 25;

/// Iterations a tile runs unless asked otherwise.
pub const DEFAULT_SIMULATION_ITERATIONS: u32 = 4;

/// One chunk slot of a tile: where it lies in the world, whether a chunk was there, and whether
/// it belongs to the core.
#[derive(Clone, Copy, Debug, PartialEq, Eq, Structural)]
pub struct TileChunkInfo {
    pub pos: ChunkPos,
    pub exists: bool,
    pub is_core: bool,
}

/// A padded block of chunks flattened into dense arrays, ready for the compute kernel.
#[derive(Clone, Debug)]
pub struct TileInput {
    pub base_chunk: ChunkPos,
    pub chunks_wide: usize,
    pub chunks_deep: usize,
    pub tile_width_blocks: usize,
    pub tile_depth_blocks: usize,
    pub original: Vec<u32>,
    pub solid: Vec<u32>,
    pub iterations: u32,
    pub chunk_info: Vec<TileChunkInfo>,
}

/// Linear position of cell `(x, y, z)` in a grid `width` cells wide and `depth` cells deep.
pub open spec fn grid_index(x: int, y: int, z: int, width: int, depth: int) -> int {
    x + width * (z + depth * y)
}

/// Tile coordinates `(x, y, z)` of the cell at linear position `t`.
pub open spec fn tile_coords(t: int) -> (int, int, int) {
    (t % 80, t / 6400, (t % 6400) / 80)
}

/// The slot (in `0..25`, row by row along x) that holds tile cell `t`.
pub open spec fn tile_slot_of(t: int) -> int {
    let c = tile_coords(t);
    (c.2 / 16) * 5 + c.0 / 16
}

/// Position, inside its chunk, of tile cell `t`.
pub open spec fn tile_local_index(t: int) -> int {
    let c = tile_coords(t);
    cell_index(c.0 % 16, c.1, c.2 % 16)
}

/// World position of slot `k` of the tile whose core starts at `base`.
pub open spec fn slot_pos(base: ChunkPos, k: int) -> ChunkPos {
    ChunkPos { x: (base.x + k % 5 - 1) as i32, z: (base.z + k / 5 - 1) as i32 }
}

pub open spec fn slot_is_core(k: int) -> bool {
    1 <= k % 5 < 4 && 1 <= k / 5 < 4
}

/// Whether every slot of a tile at `base` has a representable position.
pub open spec fn tile_base_in_range(base: ChunkPos) -> bool {
    i32::MIN + 1 <= base.x <= i32::MAX - 3 && i32::MIN + 1 <= base.z <= i32::MAX - 3
}

/// A tile at `base` can be built: its positions are representable and its core is loaded.
pub open spec fn tile_ready(m: Map<ChunkPos, Chunk>, base: ChunkPos) -> bool {
    &&& tile_base_in_range(base)
    &&& forall|k: int| 0 <= k < 25 && slot_is_core(k) ==> m.contains_key(#[trigger] slot_pos(base, k))
}

pub open spec fn slot_info(m: Map<ChunkPos, Chunk>, base: ChunkPos, k: int) -> TileChunkInfo {
    TileChunkInfo {
        pos: slot_pos(base, k),
        exists: m.contains_key(slot_pos(base, k)),
        is_core: slot_is_core(k),
    }
}

/// The fluid level a tile at `base` starts from in cell `t`: a loaded open cell's level, else 0.
pub open spec fn tile_original_at(m: Map<ChunkPos, Chunk>, base: ChunkPos, t: int) -> u32 {
    let p = slot_pos(base, tile_slot_of(t));
    if m.contains_key(p) && m[p].state_seq()[tile_local_index(t)] >= 0 {
        m[p].state_seq()[tile_local_index(t)] as u32
    } else {
        0
    }
}

/// Whether tile cell `t` is closed: an occluding cell of a loaded chunk, or any cell of a slot
/// where no chunk is loaded.
pub open spec fn tile_solid_at(m: Map<ChunkPos, Chunk>, base: ChunkPos, t: int) -> u32 {
    let p = slot_pos(base, tile_slot_of(t));
    if !m.contains_key(p) || m[p].state_seq()[tile_local_index(t)] < 0 {
        1
    } else {
        0
    }
}

/// Everything a tile built at `base` from chunks `m` holds.
pub open spec fn tile_matches(t: TileInput, m: Map<ChunkPos, Chunk>, base: ChunkPos) -> bool {
    &&& t.base_chunk == base
    &&& t.chunks_wide == PADDED_TILE_EDGE
    &&& t.chunks_deep == PADDED_TILE_EDGE
    &&& t.tile_width_blocks == TILE_BLOCKS
    &&& t.tile_depth_blocks == TILE_BLOCKS
    &&& t.iterations == DEFAULT_SIMULATION_ITERATIONS
    &&& t.original@.len() == TILE_CELLS
    &&& t.solid@.len() == TILE_CELLS
    &&& t.chunk_info@.len() == TILE_SLOTS
    &&& forall|i: int| 0 <= i < TILE_CELLS ==> #[trigger] t.original@[i] == tile_original_at(m, base, i)
    &&& forall|i: int| 0 <= i < TILE_CELLS ==> #[trigger] t.solid@[i] == tile_solid_at(m, base, i)
    &&& forall|k: int| 0 <= k < TILE_SLOTS ==> #[trigger] t.chunk_info@[k] == slot_info(m, base, k)
}

/// Linear position of cell `(x, y, z)` in a grid `width` cells wide and `depth` cells deep.
pub fn index_3d(x: usize, y: usize, z: usize, width: usize, depth: usize) -> (r: usize)
    requires
        x < width,
        z < depth,
        y < CHUNK_HEIGHT,
        width * depth * CHUNK_HEIGHT <= usize::MAX,
    ensures
        r == grid_index(x as int, y as int, z as int, width as int, depth as int),
        r < width * depth * CHUNK_HEIGHT,
{
    proof {
        assert(z + depth * y < depth * CHUNK_HEIGHT) by (nonlinear_arith)
            requires z < depth, y < CHUNK_HEIGHT;
        assert(depth * CHUNK_HEIGHT <= width * depth * CHUNK_HEIGHT) by (nonlinear_arith)
            requires x < width;
        assert(depth * y <= depth * CHUNK_HEIGHT) by (nonlinear_arith)
            requires y < CHUNK_HEIGHT;
        assert(x + width * (z + depth * y) < width * (depth * CHUNK_HEIGHT)) by (nonlinear_arith)
            requires x < width, z + depth * y < depth * CHUNK_HEIGHT;
        assert(width * (depth * CHUNK_HEIGHT) == width * depth * CHUNK_HEIGHT) by (nonlinear_arith);
    }
    x + width * (z + depth * y)
}

pub proof fn lemma_tile_cell(t: int)
    requires
        0 <= t < TILE_CELLS,
    ensures
        0 <= tile_coords(t).0 < 80,
        0 <= tile_coords(t).1 < 256,
        0 <= tile_coords(t).2 < 80,
        0 <= tile_slot_of(t) < 25,
        0 <= tile_local_index(t) < CHUNK_VOLUME,
        grid_index(tile_coords(t).0, tile_coords(t).1, tile_coords(t).2, 80, 80) == t,
{
}

/// Builds the tile whose core starts at chunk `(base_chunk_x, base_chunk_z)`: `None` when a
/// core chunk is not loaded (or the tile would reach past the coordinate range).
pub fn build_tile_input(world: &World, base_chunk_x: i32, base_chunk_z: i32) -> (r: Option<TileInput>)
    requires
        world.wf(),
    ensures
        r is Some <==> tile_ready(world.chunk_map(), ChunkPos { x: base_chunk_x, z: base_chunk_z }),
        r matches Some(t) ==> tile_matches(t, world.chunk_map(), ChunkPos { x: base_chunk_x, z: base_chunk_z }),
{
    let base = ChunkPos { x: base_chunk_x, z: base_chunk_z };
    let ghost m = world.chunk_map();
    if !(base_chunk_x >= i32::MIN + 1 && base_chunk_x <= i32::MAX - 3 && base_chunk_z >= i32::MIN + 1
        && base_chunk_z <= i32::MAX - 3) {
        return None;
    }
    let mut slots: Vec<Option<&Chunk>> = Vec::new();
    let mut chunk_info: Vec<TileChunkInfo> = Vec::new();
    let mut k: usize = 0;
    while k < TILE_SLOTS
        invariant
            world.wf(),
            m == world.chunk_map(),
            base == (ChunkPos { x: base_chunk_x, z: base_chunk_z }),
            tile_base_in_range(base),
            k <= TILE_SLOTS,
            slots@.len() == k,
            chunk_info@.len() == k,
            forall|j: int| 0 <= j < k ==> #[trigger] chunk_info@[j] == slot_info(m, base, j),
            forall|j: int| 0 <= j < k ==> (#[trigger] slots@[j] is Some) == m.contains_key(slot_pos(base, j)),
            forall|j: int| 0 <= j < k && slots@[j] is Some ==> *(#[trigger] slots@[j]).unwrap() == m[slot_pos(base, j)],
            forall|j: int| 0 <= j < k && slot_is_core(j) ==> m.contains_key(#[trigger] slot_pos(base, j)),
        decreases TILE_SLOTS - k,
    {
        let dx = k % PADDED_TILE_EDGE;
        let dz = k / PADDED_TILE_EDGE;
        assert(dx < 5 && dz < 5);
        let pos = ChunkPos { x: base_chunk_x - 1 + dx as i32, z: base_chunk_z - 1 + dz as i32 };
        let is_core = dx >= TILE_PADDING && dx < TILE_PADDING + TILE_EDGE_CHUNKS && dz >= TILE_PADDING
            && dz < TILE_PADDING + TILE_EDGE_CHUNKS;
        let found = world.chunk(pos);
        assert(pos == slot_pos(base, k as int));
        if found.is_none() && is_core {
            return None;
        }
        chunk_info.push(TileChunkInfo { pos, exists: found.is_some(), is_core });
        slots.push(found);
        k = k + 1;
    }
    let mut original: Vec<u32> = Vec::new();
    let mut solid: Vec<u32> = Vec::new();
    let mut t: usize = 0;
    while t < TILE_CELLS
        invariant
            world.wf(),
            m == world.chunk_map(),
            slots@.len() == TILE_SLOTS,
            forall|j: int| 0 <= j < TILE_SLOTS ==> (#[trigger] slots@[j] is Some) == m.contains_key(slot_pos(base, j)),
            forall|j: int| 0 <= j < TILE_SLOTS && slots@[j] is Some ==> *(#[trigger] slots@[j]).unwrap() == m[slot_pos(base, j)],
            t <= TILE_CELLS,
            original@.len() == t,
            solid@.len() == t,
            forall|i: int| 0 <= i < t ==> #[trigger] original@[i] == tile_original_at(m, base, i),
            forall|i: int| 0 <= i < t ==> #[trigger] solid@[i] == tile_solid_at(m, base, i),
        decreases TILE_CELLS - t,
    {
        proof {
            lemma_tile_cell(t as int);
        }
        let x = t % TILE_BLOCKS;
        let y = t / TILE_LAYER;
        let z = (t % TILE_LAYER) / TILE_BLOCKS;
        let slot = (z / CHUNK_SIZE) * PADDED_TILE_EDGE + x / CHUNK_SIZE;
        let local = (x % CHUNK_SIZE) + CHUNK_SIZE * ((z % CHUNK_SIZE) + CHUNK_SIZE * y);
        assert(slot == tile_slot_of(t as int));
        assert(local == tile_local_index(t as int));
        match slots[slot] {
            Some(chunk) => {
                proof {
                    assert(m.contains_key(slot_pos(base, slot as int)));
                }
                let state = chunk.cell_state()[local];
                if state < 0 {
                    original.push(0);
                    solid.push(1);
                } else {
                    original.push(state as u32);
                    solid.push(0);
                }
            },
            None => {
                original.push(0);
                solid.push(1);
            },
        }
        t = t + 1;
    }
    Some(TileInput {
        base_chunk: base,
        chunks_wide: PADDED_TILE_EDGE,
        chunks_deep: PADDED_TILE_EDGE,
        tile_width_blocks: TILE_BLOCKS,
        tile_depth_blocks: TILE_BLOCKS,
        original,
        solid,
        iterations: DEFAULT_SIMULATION_ITERATIONS,
        chunk_info,
    })
}

} // verus!
