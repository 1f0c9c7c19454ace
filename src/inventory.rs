use vstd::prelude::*;

use crate::block::BlockType;
use crate::item::ItemType;

verus! {

pub const HOTBAR_SIZE: usize = 9;

/// Number of blocks the hotbar can cycle through.
pub const AVAILABLE_BLOCK_COUNT: usize = 17;

/// The blocks a hotbar slot cycles through, in order.
pub open spec fn available_blocks() -> Seq<BlockType> {
    seq![
        BlockType::Grass,
        BlockType::Dirt,
        BlockType::Stone,
        BlockType::Wood,
        BlockType::Sand,
        BlockType::Leaves,
        BlockType::CoalOre,
        BlockType::IronOre,
        BlockType::Terracotta,
        BlockType::Water,
        BlockType::FlowerRose,
        BlockType::FlowerTulip,
        BlockType::Snow,
        BlockType::CopperWire,
        BlockType::Resistor,
        BlockType::VoltageSource,
        BlockType::Ground,
    ]
}

/// The block at position `i` of the cycle.
pub fn available_block(i: usize) -> (r: BlockType)
    requires
        i < AVAILABLE_BLOCK_COUNT,
    ensures
        r == available_blocks()[i as int],
{
    match i {
        0 => BlockType::Grass,
        1 => BlockType::Dirt,
        2 => BlockType::Stone,
        3 => BlockType::Wood,
        4 => BlockType::Sand,
        5 => BlockType::Leaves,
        6 => BlockType::CoalOre,
        7 => BlockType::IronOre,
        8 => BlockType::Terracotta,
        9 => BlockType::Water,
        10 => BlockType::FlowerRose,
        11 => BlockType::FlowerTulip,
        12 => BlockType::Snow,
        13 => BlockType::CopperWire,
        14 => BlockType::Resistor,
        15 => BlockType::VoltageSource,
        _ => BlockType::Ground,
    }
}

/// Position of `b` in the cycle, or 0 when it is not there.
pub open spec fn cycle_position(b: BlockType) -> int {
    if available_blocks().contains(b) {
        available_blocks().index_of(b)
    } else {
        0
    }
}

/// `(current + delta)` wrapped into `0..n`.
pub open spec fn wrap(current: int, delta: int, n: int) -> int {
    (current + delta) % n
}

fn wrap_exec(current: usize, delta: i32, n: usize) -> (r: usize)
    requires
        0 < n <= 64,
        current < n,
    ensures
        r == wrap(current as int, delta as int, n as int),
        r < n,
{
    let t: i64 = current as i64 + delta as i64;
    let nn: i64 = n as i64;
    if t >= 0 {
        let r = (t as u64 % nn as u64) as usize;
        r
    } else {
        let u: u64 = (-t) as u64;
        let m: u64 = u % (nn as u64);
        let r: u64 = if m == 0 { 0 } else { nn as u64 - m };
        proof {
            let ti = t as int;
            let ni = nn as int;
            assert(u as int == -ti);
            assert((u as int) == ni * ((u as int) / ni) + m) by (nonlinear_arith)
                requires ni > 0, m == (u as int) % ni;
            let k = (u as int) / ni;
            if m == 0 {
                assert(ti == ni * (-k)) by (nonlinear_arith)
                    requires ti == -(u as int), (u as int) == ni * k + m, m == 0;
                assert(ti % ni == 0) by (nonlinear_arith)
                    requires ti == ni * (-k), ni > 0;
            } else {
                assert(ti == ni * (-k - 1) + (ni - m)) by (nonlinear_arith)
                    requires ti == -(u as int), (u as int) == ni * k + m;
                assert(ti % ni == ni - m) by (nonlinear_arith)
                    requires ti == ni * (-k - 1) + (ni - m), ni > 0, 0 < ni - m < ni;
            }
        }
        r as usize
    }
}

/// The player's hotbar and the slot in use.
pub struct Inventory {
    pub hotbar: [Option<ItemType>; 9],
    pub selected_slot: usize,
}

impl Inventory {
    /// The selected slot is a slot of the hotbar.
    pub open spec fn wf(&self) -> bool {
        self.selected_slot < HOTBAR_SIZE
    }

    /// A hotbar of building and circuit blocks, with the first slot selected.
    pub fn new() -> (r: Inventory)
        ensures
            r.wf(),
            r.selected_slot == 0,
            r.hotbar@ == seq![
                Some(ItemType::Block(BlockType::Grass)),
                Some(ItemType::Block(BlockType::Dirt)),
                Some(ItemType::Block(BlockType::Stone)),
                Some(ItemType::Block(BlockType::CopperWire)),
                Some(ItemType::Block(BlockType::Resistor)),
                Some(ItemType::Block(BlockType::VoltageSource)),
                Some(ItemType::Block(BlockType::Ground)),
                Some(ItemType::Block(BlockType::Water)),
                Some(ItemType::Block(BlockType::FlowerRose)),
            ],
    {
        let r = Inventory {
            hotbar: [
                Some(ItemType::Block(BlockType::Grass)),
                Some(ItemType::Block(BlockType::Dirt)),
                Some(ItemType::Block(BlockType::Stone)),
                Some(ItemType::Block(BlockType::CopperWire)),
                Some(ItemType::Block(BlockType::Resistor)),
                Some(ItemType::Block(BlockType::VoltageSource)),
                Some(ItemType::Block(BlockType::Ground)),
                Some(ItemType::Block(BlockType::Water)),
                Some(ItemType::Block(BlockType::FlowerRose)),
            ],
            selected_slot: 0,
        };
        assert(r.hotbar@ =~= seq![
            Some(ItemType::Block(BlockType::Grass)),
            Some(ItemType::Block(BlockType::Dirt)),
            Some(ItemType::Block(BlockType::Stone)),
            Some(ItemType::Block(BlockType::CopperWire)),
            Some(ItemType::Block(BlockType::Resistor)),
            Some(ItemType::Block(BlockType::VoltageSource)),
            Some(ItemType::Block(BlockType::Ground)),
            Some(ItemType::Block(BlockType::Water)),
            Some(ItemType::Block(BlockType::FlowerRose)),
        ]);
        r
    }

    /// Selects `slot`; a slot past the hotbar is ignored.
    pub fn select_slot(&mut self, slot: usize)
        ensures
            final(self).hotbar == old(self).hotbar,
            final(self).selected_slot == if slot < HOTBAR_SIZE { slot } else { old(self).selected_slot },
    {
        if slot < HOTBAR_SIZE {
            self.selected_slot = slot;
        }
    }

    pub fn selected_item(&self) -> (r: Option<ItemType>)
        requires
            self.wf(),
        ensures
            r == self.hotbar@[self.selected_slot as int],
    {
        self.hotbar[self.selected_slot]
    }

    /// The block in the selected slot, if it holds a block.
    pub fn selected_block(&self) -> (r: Option<BlockType>)
        requires
            self.wf(),
        ensures
            r == match self.hotbar@[self.selected_slot as int] {
                Some(ItemType::Block(b)) => Some(b),
                _ => None,
            },
    {
        match self.hotbar[self.selected_slot] {
            Some(ItemType::Block(block)) => Some(block),
            _ => None,
        }
    }

    pub fn selected_slot_index(&self) -> (r: usize)
        ensures
            r == self.selected_slot,
    {
        self.selected_slot
    }

    /// Moves the selection by `delta` slots, wrapping around the hotbar.
    pub fn cycle_selection(&mut self, delta: i32)
        requires
            old(self).wf(),
        ensures
            final(self).wf(),
            final(self).hotbar == old(self).hotbar,
            final(self).selected_slot == wrap(old(self).selected_slot as int, delta as int, HOTBAR_SIZE as int),
    {
        self.selected_slot = wrap_exec(self.selected_slot, delta, HOTBAR_SIZE);
    }

    /// Exchanges two slots; the selection follows the item it was on. Equal or out-of-range
    /// slots leave everything as it is.
    pub fn swap_slots(&mut self, a: usize, b: usize)
        requires
            old(self).wf(),
        ensures
            final(self).wf(),
            (a >= HOTBAR_SIZE || b >= HOTBAR_SIZE || a == b) ==> *final(self) == *old(self),
            !(a >= HOTBAR_SIZE || b >= HOTBAR_SIZE || a == b) ==> {
                &&& final(self).hotbar@ == old(self).hotbar@.update(a as int, old(self).hotbar@[b as int]).update(
                    b as int,
                    old(self).hotbar@[a as int],
                )
                &&& final(self).selected_slot == if old(self).selected_slot == a {
                    b
                } else if old(self).selected_slot == b {
                    a
                } else {
                    old(self).selected_slot
                }
            },
    {
        if a >= HOTBAR_SIZE || b >= HOTBAR_SIZE || a == b {
            return;
        }
        let x = self.hotbar[a];
        let y = self.hotbar[b];
        self.hotbar[a] = y;
        self.hotbar[b] = x;
        if self.selected_slot == a {
            self.selected_slot = b;
        } else if self.selected_slot == b {
            self.selected_slot = a;
        }
    }

    fn cycle_index_of(block: BlockType) -> (r: usize)
        ensures
            r == cycle_position(block),
            r < AVAILABLE_BLOCK_COUNT,
    {
        let mut i: usize = 0;
        while i < AVAILABLE_BLOCK_COUNT
            invariant
                i <= AVAILABLE_BLOCK_COUNT,
                forall|j: int| 0 <= j < i ==> available_blocks()[j] != block,
            decreases AVAILABLE_BLOCK_COUNT - i,
        {
            if available_block(i) == block {
                proof {
                    assert(available_blocks().contains(block));
                    available_blocks().index_of_first_ensures(block);
                }
                return i;
            }
            i = i + 1;
        }
        0
    }

    /// Puts in `slot` the block `delta` steps further along the cycle of available blocks,
    /// counting from the block the slot holds (or from the start of the cycle).
    pub fn cycle_slot_block(&mut self, slot: usize, delta: i32)
        ensures
            slot >= HOTBAR_SIZE ==> *final(self) == *old(self),
            slot < HOTBAR_SIZE ==> {
                let current = match old(self).hotbar@[slot as int] {
                    Some(ItemType::Block(b)) => cycle_position(b),
                    _ => 0,
                };
                &&& final(self).selected_slot == old(self).selected_slot
                &&& final(self).hotbar@ == old(self).hotbar@.update(
                    slot as int,
                    Some(ItemType::Block(available_blocks()[wrap(current, delta as int, AVAILABLE_BLOCK_COUNT as int)])),
                )
            },
    {
        if slot >= HOTBAR_SIZE {
            return;
        }
        let current: usize = match self.hotbar[slot] {
            Some(ItemType::Block(block)) => Self::cycle_index_of(block),
            _ => 0,
        };
        let next = wrap_exec(current, delta, AVAILABLE_BLOCK_COUNT);
        self.hotbar[slot] = Some(ItemType::Block(available_block(next)));
    }

    /// Puts `item` in `slot`; a slot past the hotbar is ignored.
    pub fn set_slot(&mut self, slot: usize, item: Option<ItemType>)
        ensures
            final(self).selected_slot == old(self).selected_slot,
            final(self).hotbar@ == if slot < HOTBAR_SIZE {
                old(self).hotbar@.update(slot as int, item)
            } else {
                old(self).hotbar@
            },
    {
        if slot < HOTBAR_SIZE {
            self.hotbar[slot] = item;
        }
    }

    pub fn clear_slot(&mut self, slot: usize)
        ensures
            final(self).selected_slot == old(self).selected_slot,
            final(self).hotbar@ == if slot < HOTBAR_SIZE {
                old(self).hotbar@.update(slot as int, None)
            } else {
                old(self).hotbar@
            },
    {
        self.set_slot(slot, None);
    }

    /// The first slot that holds nothing.
    pub fn first_empty_slot(&self) -> (r: Option<usize>)
        ensures
            match r {
                Some(i) => i < HOTBAR_SIZE && self.hotbar@[i as int] is None && forall|j: int|
                    0 <= j < i ==> self.hotbar@[j] is Some,
                None => forall|j: int| 0 <= j < HOTBAR_SIZE ==> self.hotbar@[j] is Some,
            },
    {
        let mut i: usize = 0;
        while i < HOTBAR_SIZE
            invariant
                i <= HOTBAR_SIZE,
                forall|j: int| 0 <= j < i ==> self.hotbar@[j] is Some,
            decreases HOTBAR_SIZE - i,
        {
            if self.hotbar[i].is_none() {
                return Some(i);
            }
            i = i + 1;
        }
        None
    }

    /// Wears the selected item by one use (see `ItemType::damage`); a tool that breaks leaves
    /// its slot empty. Returns whether it broke.
    pub fn damage_selected_tool(&mut self) -> (r: bool)
        requires
            old(self).wf(),
        ensures
            final(self).wf(),
            final(self).selected_slot == old(self).selected_slot,
            match old(self).hotbar@[old(self).selected_slot as int] {
                Some(ItemType::Tool(t, d)) => {
                    &&& r == (d <= 1)
                    &&& final(self).hotbar@ == old(self).hotbar@.update(
                        old(self).selected_slot as int,
                        if d <= 1 { None } else { Some(ItemType::Tool(t, (d - 1) as u32)) },
                    )
                },
                _ => !r && final(self).hotbar@ == old(self).hotbar@,
            },
    {
        let slot = self.selected_slot;
        match self.hotbar[slot] {
            Some(item) => {
                let mut it = item;
                let broke = it.damage();
                if broke {
                    self.hotbar[slot] = None;
                    return true;
                }
                self.hotbar[slot] = Some(it);
                proof {
                    assert(self.hotbar@ =~= old(self).hotbar@.update(slot as int, Some(it)));
                    if !(item is Tool) {
                        assert(old(self).hotbar@[slot as int] == Some(it));
                        assert(self.hotbar@ =~= old(self).hotbar@);
                    }
                }
                false
            },
            None => false,
        }
    }
}

} // verus!
