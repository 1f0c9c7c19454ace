use vstd::prelude::*;

use crate::block::{block_occludes, Block, BlockType};

verus! {

pub const CHUNK_SIZE: usize = 16;

pub const CHUNK_HEIGHT: usize = 256;

pub const CHUNK_AREA: usize = 256;

pub const CHUNK_VOLUME: usize = 65536;

/// Largest fluid level a cell can hold (a full block).
pub const MAX_FLUID_LEVEL: u8 = 12;

/// Linear position of local cell `(x, y, z)` inside a chunk.
pub open spec fn cell_index(x: int, y: int, z: int) -> int {
    x + 16 * (z + 16 * y)
}

/// Whether `(x, y, z)` lies inside a chunk.
pub open spec fn in_chunk(x: int, y: int, z: int) -> bool {
    0 <= x < 16 && 0 <= y < 256 && 0 <= z < 16
}

/// Local coordinates `(x, y, z)` of the cell at linear position `i`.
pub open spec fn cell_coords(i: int) -> (usize, usize, usize) {
    ((i % 16) as usize, (i / 256) as usize, ((i % 256) / 16) as usize)
}

/// A fluid level clamped to a full cell.
pub open spec fn clamp_fluid(a: u8) -> u8 {
    if a > MAX_FLUID_LEVEL {
        MAX_FLUID_LEVEL
    } else {
        a
    }
}

/// Fluid levels, each clamped to a full cell.
pub open spec fn clamped_levels(levels: Seq<u8>) -> Seq<u8> {
    levels.map_values(|a: u8| clamp_fluid(a))
}

/// The derived state of a cell: `-1` when closed, else its fluid level.
pub open spec fn cell_state_of(block: BlockType, fluid: u8) -> i16 {
    if fluid > 0 {
        fluid as i16
    } else if block_occludes(block) {
        -1i16
    } else {
        0i16
    }
}

/// The cells among the first `n` whose block is not air, as `(x, y, z, block)`.
pub open spec fn solid_cells(blocks: Seq<BlockType>, n: int) -> Seq<(usize, usize, usize, BlockType)>
    decreases n,
{
    if n <= 0 {
        Seq::empty()
    } else {
        let rest = solid_cells(blocks, n - 1);
        let c = cell_coords(n - 1);
        if blocks[n - 1] != BlockType::Air {
            rest.push((c.0, c.1, c.2, blocks[n - 1]))
        } else {
            rest
        }
    }
}

/// The cells among the first `n` that hold fluid, as `(x, y, z, amount)`.
pub open spec fn fluid_cells(fluids: Seq<u8>, n: int) -> Seq<(usize, usize, usize, u8)>
    decreases n,
{
    if n <= 0 {
        Seq::empty()
    } else {
        let rest = fluid_cells(fluids, n - 1);
        let c = cell_coords(n - 1);
        if fluids[n - 1] > 0 {
            rest.push((c.0, c.1, c.2, fluids[n - 1]))
        } else {
            rest
        }
    }
}

pub proof fn lemma_cell_coords(i: int)
    requires
        0 <= i < 65536,
    ensures
        in_chunk(cell_coords(i).0 as int, cell_coords(i).1 as int, cell_coords(i).2 as int),
        cell_index(cell_coords(i).0 as int, cell_coords(i).1 as int, cell_coords(i).2 as int)
            == i,
{
}

/// Linear position of local cell `(x, y, z)` inside a chunk.
pub fn index(x: usize, y: usize, z: usize) -> (r: usize)
    requires
        cell_index(x as int, y as int, z as int) <= usize::MAX,
    ensures
        r == cell_index(x as int, y as int, z as int),
        in_chunk(x as int, y as int, z as int) ==> r < CHUNK_VOLUME,
{
    proof {
        assert(16 * y <= z + 16 * y);
        assert(z + 16 * y <= 16 * (z + 16 * y));
    }
    x + CHUNK_SIZE * (z + CHUNK_SIZE * y)
}

/// A 16 x 256 x 16 column of cells, each with a block and a fluid level.
#[derive(Clone)]
pub struct Chunk {
    blocks: Vec<Block>,
    fluids: Vec<u8>,
    cell_state: Vec<i16>,
}

impl Chunk {
    pub closed spec fn block_seq(&self) -> Seq<BlockType> {
        self.blocks@.map_values(|b: Block| b.block_type)
    }

    pub closed spec fn fluid_seq(&self) -> Seq<u8> {
        self.fluids@
    }

    pub closed spec fn state_seq(&self) -> Seq<i16> {
        self.cell_state@
    }

    /// Every cell has a block, a fluid level of at most a full block, and a state that agrees
    /// with both; a cell with fluid holds air.
    pub open spec fn wf(&self) -> bool {
        &&& self.block_seq().len() == CHUNK_VOLUME
        &&& self.fluid_seq().len() == CHUNK_VOLUME
        &&& self.state_seq().len() == CHUNK_VOLUME
        &&& forall|i: int|
            0 <= i < CHUNK_VOLUME ==> {
                &&& #[trigger] self.fluid_seq()[i] <= MAX_FLUID_LEVEL
                &&& self.fluid_seq()[i] > 0 ==> self.block_seq()[i] == BlockType::Air
            }
        &&& forall|i: int|
            0 <= i < CHUNK_VOLUME ==> #[trigger] self.state_seq()[i] == cell_state_of(
                self.block_seq()[i],
                self.fluid_seq()[i],
            )
    }

    /// An all-air chunk without fluid.
    pub fn new() -> (r: Chunk)
        ensures
            r.wf(),
            forall|i: int| 0 <= i < CHUNK_VOLUME ==> #[trigger] r.block_seq()[i] == BlockType::Air,
            forall|i: int| 0 <= i < CHUNK_VOLUME ==> #[trigger] r.fluid_seq()[i] == 0,
    {
        let chunk = Chunk {
            blocks: vec![Block::new(BlockType::Air); CHUNK_VOLUME],
            fluids: vec![0u8; CHUNK_VOLUME],
            cell_state: vec![0i16; CHUNK_VOLUME],
        };
        proof {
            assert forall|i: int| 0 <= i < CHUNK_VOLUME implies #[trigger] chunk.block_seq()[i]
                == BlockType::Air by {
                assert(chunk.blocks@[i] == Block { block_type: BlockType::Air });
            }
        }
        chunk
    }

    fn update_cell_state(&mut self, idx: usize)
        requires
            idx < CHUNK_VOLUME,
            old(self).block_seq().len() == CHUNK_VOLUME,
            old(self).fluid_seq().len() == CHUNK_VOLUME,
            old(self).state_seq().len() == CHUNK_VOLUME,
        ensures
            final(self).blocks == old(self).blocks,
            final(self).fluids == old(self).fluids,
            final(self).cell_state@ == old(self).cell_state@.update(
                idx as int,
                cell_state_of(old(self).block_seq()[idx as int], old(self).fluid_seq()[idx as int]),
            ),
    {
        let block = self.blocks[idx].block_type;
        let fluid = self.fluids[idx];
        let state: i16 = if fluid > 0 {
            fluid as i16
        } else if block.occludes() {
            -1
        } else {
            0
        };
        self.cell_state.set(idx, state);
    }

    /// Places `block` at `(x, y, z)`; a block other than air clears the cell's fluid.
    /// Coordinates outside the chunk are ignored.
    pub fn set_block(&mut self, x: usize, y: usize, z: usize, block: BlockType)
        requires
            old(self).wf(),
        ensures
            final(self).wf(),
            !in_chunk(x as int, y as int, z as int) ==> final(self).block_seq() == old(
                self,
            ).block_seq() && final(self).fluid_seq() == old(self).fluid_seq(),
            in_chunk(x as int, y as int, z as int) ==> {
                let i = cell_index(x as int, y as int, z as int);
                &&& final(self).block_seq() == old(self).block_seq().update(i, block)
                &&& final(self).fluid_seq() == if block != BlockType::Air {
                    old(self).fluid_seq().update(i, 0)
                } else {
                    old(self).fluid_seq()
                }
            },
    {
        if x < CHUNK_SIZE && y < CHUNK_HEIGHT && z < CHUNK_SIZE {
            let idx = index(x, y, z);
            self.blocks.set(idx, Block::new(block));
            if block != BlockType::Air {
                self.fluids.set(idx, 0);
            }
            self.update_cell_state(idx);
            proof {
                assert(self.block_seq() =~= old(self).block_seq().update(idx as int, block));
            }
        }
    }

    pub fn get_block(&self, x: usize, y: usize, z: usize) -> (r: BlockType)
        requires
            self.wf(),
        ensures
            r == if in_chunk(x as int, y as int, z as int) {
                self.block_seq()[cell_index(x as int, y as int, z as int)]
            } else {
                BlockType::Air
            },
    {
        if x < CHUNK_SIZE && y < CHUNK_HEIGHT && z < CHUNK_SIZE {
            self.blocks[index(x, y, z)].block_type
        } else {
            BlockType::Air
        }
    }

    pub fn get_fluid(&self, x: usize, y: usize, z: usize) -> (r: u8)
        requires
            self.wf(),
        ensures
            r == if in_chunk(x as int, y as int, z as int) {
                self.fluid_seq()[cell_index(x as int, y as int, z as int)]
            } else {
                0u8
            },
            r <= MAX_FLUID_LEVEL,
    {
        if x < CHUNK_SIZE && y < CHUNK_HEIGHT && z < CHUNK_SIZE {
            self.fluids[index(x, y, z)]
        } else {
            0
        }
    }

    /// Sets the fluid level at `(x, y, z)` to `amount`, clamped to a full cell; any fluid turns
    /// the cell's block to air. Coordinates outside the chunk are ignored.
    pub fn set_fluid(&mut self, x: usize, y: usize, z: usize, amount: u8)
        requires
            old(self).wf(),
        ensures
            final(self).wf(),
            !in_chunk(x as int, y as int, z as int) ==> final(self).block_seq() == old(
                self,
            ).block_seq() && final(self).fluid_seq() == old(self).fluid_seq(),
            in_chunk(x as int, y as int, z as int) ==> {
                let i = cell_index(x as int, y as int, z as int);
                &&& final(self).fluid_seq() == old(self).fluid_seq().update(i, clamp_fluid(amount))
                &&& final(self).block_seq() == if amount > 0 {
                    old(self).block_seq().update(i, BlockType::Air)
                } else {
                    old(self).block_seq()
                }
            },
    {
        if x < CHUNK_SIZE && y < CHUNK_HEIGHT && z < CHUNK_SIZE {
            let idx = index(x, y, z);
            let level = if amount > MAX_FLUID_LEVEL { MAX_FLUID_LEVEL } else { amount };
            self.fluids.set(idx, level);
            if amount > 0 {
                self.blocks.set(idx, Block::new(BlockType::Air));
            }
            self.update_cell_state(idx);
            proof {
                if amount > 0 {
                    assert(self.block_seq() =~= old(self).block_seq().update(
                        idx as int,
                        BlockType::Air,
                    ));
                }
            }
        }
    }

    /// The fluid level of every cell, in linear order.
    pub fn fluids(&self) -> (r: &[u8])
        ensures
            r@ == self.fluid_seq(),
    {
        self.fluids.as_slice()
    }

    /// The derived state of every cell, in linear order.
    pub fn cell_state(&self) -> (r: &[i16])
        ensures
            r@ == self.state_seq(),
    {
        self.cell_state.as_slice()
    }
    /// Replaces every cell's fluid level with `new_fluids`, each clamped to a full cell; cells
    /// that receive fluid turn to air. A slice of any length other than a chunk's volume is
    /// ignored.
    pub fn apply_fluids(&mut self, new_fluids: &[u8])
        requires
            old(self).wf(),
        ensures
            final(self).wf(),
            new_fluids@.len() != CHUNK_VOLUME ==> final(self).block_seq() == old(self).block_seq()
                && final(self).fluid_seq() == old(self).fluid_seq(),
            new_fluids@.len() == CHUNK_VOLUME ==> {
                &&& final(self).fluid_seq() == clamped_levels(new_fluids@)
                &&& forall|i: int|
                    0 <= i < CHUNK_VOLUME ==> #[trigger] final(self).block_seq()[i] == if new_fluids@[i]
                        > 0 {
                        BlockType::Air
                    } else {
                        old(self).block_seq()[i]
                    }
            },
    {
        if new_fluids.len() != CHUNK_VOLUME {
            return;
        }
        let mut idx: usize = 0;
        while idx < CHUNK_VOLUME
            invariant
                new_fluids@.len() == CHUNK_VOLUME,
                old(self).wf(),
                idx <= CHUNK_VOLUME,
                self.blocks@.len() == CHUNK_VOLUME,
                self.fluids@.len() == CHUNK_VOLUME,
                self.cell_state@.len() == CHUNK_VOLUME,
                forall|i: int|
                    0 <= i < idx ==> {
                        &&& #[trigger] self.fluids@[i] == clamp_fluid(new_fluids@[i])
                        &&& self.blocks@[i].block_type == if new_fluids@[i] > 0 {
                            BlockType::Air
                        } else {
                            old(self).blocks@[i].block_type
                        }
                        &&& self.cell_state@[i] == cell_state_of(
                            self.blocks@[i].block_type,
                            self.fluids@[i],
                        )
                    },
                forall|i: int|
                    idx <= i < CHUNK_VOLUME ==> {
                        &&& #[trigger] self.fluids@[i] == old(self).fluids@[i]
                        &&& self.blocks@[i] == old(self).blocks@[i]
                        &&& self.cell_state@[i] == old(self).cell_state@[i]
                    },
            decreases CHUNK_VOLUME - idx,
        {
            let amount = new_fluids[idx];
            let level = if amount > MAX_FLUID_LEVEL { MAX_FLUID_LEVEL } else { amount };
            let ghost before = *self;
            self.fluids.set(idx, level);
            if amount > 0 {
                self.blocks.set(idx, Block::new(BlockType::Air));
            }
            self.update_cell_state(idx);
            let ghost k = idx as int;
            idx = idx + 1;
            proof {
                assert forall|i: int| 0 <= i < idx implies {
                    &&& #[trigger] self.fluids@[i] == clamp_fluid(new_fluids@[i])
                    &&& self.blocks@[i].block_type == if new_fluids@[i] > 0 {
                        BlockType::Air
                    } else {
                        old(self).blocks@[i].block_type
                    }
                    &&& self.cell_state@[i] == cell_state_of(
                        self.blocks@[i].block_type,
                        self.fluids@[i],
                    )
                } by {
                    if i < k {
                        assert(before.fluids@[i] == clamp_fluid(new_fluids@[i]));
                    } else {
                        assert(before.fluids@[i] == old(self).fluids@[i]);
                        assert(old(self).blocks@[i] == before.blocks@[i]);
                    }
                }
                assert forall|i: int| idx <= i < CHUNK_VOLUME implies {
                    &&& #[trigger] self.fluids@[i] == old(self).fluids@[i]
                    &&& self.blocks@[i] == old(self).blocks@[i]
                    &&& self.cell_state@[i] == old(self).cell_state@[i]
                } by {
                    assert(before.fluids@[i] == old(self).fluids@[i]);
                    assert(before.fluids@[i] == self.fluids@[i]);
                }
            }
        }
        proof {
            assert(self.fluid_seq() =~= clamped_levels(new_fluids@));
            assert forall|i: int| 0 <= i < CHUNK_VOLUME implies #[trigger] self.block_seq()[i]
                == self.blocks@[i].block_type && self.state_seq()[i] == cell_state_of(
                self.block_seq()[i],
                self.fluid_seq()[i],
            ) && self.block_seq()[i] == if new_fluids@[i] > 0 {
                BlockType::Air
            } else {
                old(self).block_seq()[i]
            } by {
                assert(self.fluids@[i] == clamp_fluid(new_fluids@[i]));
                assert(old(self).block_seq()[i] == old(self).blocks@[i].block_type);
            }
        }
    }

    /// Every cell that holds a block other than air, as `(x, y, z, block)` in linear order.
    pub fn iter(&self) -> (r: Vec<(usize, usize, usize, BlockType)>)
        requires
            self.wf(),
        ensures
            r@ == solid_cells(self.block_seq(), CHUNK_VOLUME as int),
    {
        let mut out: Vec<(usize, usize, usize, BlockType)> = Vec::new();
        let mut i: usize = 0;
        while i < CHUNK_VOLUME
            invariant
                self.wf(),
                i <= CHUNK_VOLUME,
                out@ == solid_cells(self.block_seq(), i as int),
            decreases CHUNK_VOLUME - i,
        {
            let block = self.blocks[i].block_type;
            if block != BlockType::Air {
                out.push((i % CHUNK_SIZE, i / CHUNK_AREA, (i % CHUNK_AREA) / CHUNK_SIZE, block));
            }
            i = i + 1;
        }
        out
    }

    /// Every cell that holds fluid, as `(x, y, z, amount)` in linear order.
    pub fn fluids_iter(&self) -> (r: Vec<(usize, usize, usize, u8)>)
        requires
            self.wf(),
        ensures
            r@ == fluid_cells(self.fluid_seq(), CHUNK_VOLUME as int),
    {
        let mut out: Vec<(usize, usize, usize, u8)> = Vec::new();
        let mut i: usize = 0;
        while i < CHUNK_VOLUME
            invariant
                self.wf(),
                i <= CHUNK_VOLUME,
                out@ == fluid_cells(self.fluid_seq(), i as int),
            decreases CHUNK_VOLUME - i,
        {
            let amount = self.fluids[i];
            if amount > 0 {
                out.push((i % CHUNK_SIZE, i / CHUNK_AREA, (i % CHUNK_AREA) / CHUNK_SIZE, amount));
            }
            i = i + 1;
        }
        out
    }
}

impl Default for Chunk {
    fn default() -> (r: Chunk)
        ensures
            r.wf(),
            forall|i: int| 0 <= i < CHUNK_VOLUME ==> #[trigger] r.block_seq()[i] == BlockType::Air,
            forall|i: int| 0 <= i < CHUNK_VOLUME ==> #[trigger] r.fluid_seq()[i] == 0,
    {
        Chunk::new()
    }
}

} // verus!
