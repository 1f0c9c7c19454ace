use vstd::prelude::*;

use crate::block::{block_name, BlockType};

verus! {

/// Something a hotbar slot can hold.
#[derive(Clone, Copy, Debug, PartialEq, Eq, Structural)]
pub enum ItemType {
    Block(BlockType),
    /// A tool and its remaining durability.
    Tool(ToolType, u32),
    Material(MaterialType),
}

/// Crafting ingredients that are not blocks.
#[derive(Clone, Copy, Debug, PartialEq, Eq, Structural)]
pub enum MaterialType {
    Plank,
    Stick,
}

/// Tools, by kind and tier.
#[derive(Clone, Copy, Debug, PartialEq, Eq, Structural)]
pub enum ToolType {
    WoodenPickaxe,
    StonePickaxe,
    IronPickaxe,
    DiamondPickaxe,
    WoodenAxe,
    StoneAxe,
    IronAxe,
    DiamondAxe,
    WoodenShovel,
    StoneShovel,
    IronShovel,
    DiamondShovel,
    WoodenSword,
    StoneSword,
    IronSword,
    DiamondSword,
}

#[derive(Clone, Copy, Debug, PartialEq, Eq, Structural)]
pub enum ToolCategory {
    Pickaxe,
    Axe,
    Shovel,
    Sword,
}

pub open spec fn material_name(m: MaterialType) -> &'static str {
    match m {
        MaterialType::Plank => "Plank",
        MaterialType::Stick => "Stick",
    }
}

pub open spec fn tool_name(t: ToolType) -> &'static str {
    match t {
        ToolType::WoodenPickaxe => "Wooden Pickaxe",
        ToolType::StonePickaxe => "Stone Pickaxe",
        ToolType::IronPickaxe => "Iron Pickaxe",
        ToolType::DiamondPickaxe => "Diamond Pickaxe",
        ToolType::WoodenAxe => "Wooden Axe",
        ToolType::StoneAxe => "Stone Axe",
        ToolType::IronAxe => "Iron Axe",
        ToolType::DiamondAxe => "Diamond Axe",
        ToolType::WoodenShovel => "Wooden Shovel",
        ToolType::StoneShovel => "Stone Shovel",
        ToolType::IronShovel => "Iron Shovel",
        ToolType::DiamondShovel => "Diamond Shovel",
        ToolType::WoodenSword => "Wooden Sword",
        ToolType::StoneSword => "Stone Sword",
        ToolType::IronSword => "Iron Sword",
        ToolType::DiamondSword => "Diamond Sword",
    }
}

pub open spec fn tool_category(t: ToolType) -> ToolCategory {
    match t {
        ToolType::WoodenPickaxe | ToolType::StonePickaxe | ToolType::IronPickaxe
        | ToolType::DiamondPickaxe => ToolCategory::Pickaxe,
        ToolType::WoodenAxe | ToolType::StoneAxe | ToolType::IronAxe | ToolType::DiamondAxe => {
            ToolCategory::Axe
        },
        ToolType::WoodenShovel | ToolType::StoneShovel | ToolType::IronShovel
        | ToolType::DiamondShovel => ToolCategory::Shovel,
        ToolType::WoodenSword | ToolType::StoneSword | ToolType::IronSword
        | ToolType::DiamondSword => ToolCategory::Sword,
    }
}

/// Wooden tools last 59 uses, stone 131, iron 250, diamond 1561.
pub open spec fn tool_max_durability(t: ToolType) -> u32 {
    match t {
        ToolType::WoodenPickaxe | ToolType::WoodenAxe | ToolType::WoodenShovel
        | ToolType::WoodenSword => 59,
        ToolType::StonePickaxe | ToolType::StoneAxe | ToolType::StoneShovel
        | ToolType::StoneSword => 131,
        ToolType::IronPickaxe | ToolType::IronAxe | ToolType::IronShovel | ToolType::IronSword => 250,
        ToolType::DiamondPickaxe | ToolType::DiamondAxe | ToolType::DiamondShovel
        | ToolType::DiamondSword => 1561,
    }
}

/// Pickaxes suit stone, ores, terracotta and snow; axes suit wood; shovels suit dirt, sand
/// and grass; swords suit nothing.
pub open spec fn tool_effective_for(t: ToolType, b: BlockType) -> bool {
    match tool_category(t) {
        ToolCategory::Pickaxe => b == BlockType::Stone || b == BlockType::CoalOre || b
            == BlockType::IronOre || b == BlockType::Terracotta || b == BlockType::Snow,
        ToolCategory::Axe => b == BlockType::Wood,
        ToolCategory::Shovel => b == BlockType::Dirt || b == BlockType::Sand || b == BlockType::Grass,
        ToolCategory::Sword => false,
    }
}

pub open spec fn item_name(i: ItemType) -> &'static str {
    match i {
        ItemType::Block(b) => block_name(b),
        ItemType::Tool(t, _) => tool_name(t),
        ItemType::Material(m) => material_name(m),
    }
}

impl MaterialType {
    pub fn name(&self) -> (r: &'static str)
        ensures
            r == material_name(*self),
    {
        match self {
            MaterialType::Plank => "Plank",
            MaterialType::Stick => "Stick",
        }
    }
}

impl ToolType {
    pub fn name(&self) -> (r: &'static str)
        ensures
            r == tool_name(*self),
    {
        match self {
            ToolType::WoodenPickaxe => "Wooden Pickaxe",
            ToolType::StonePickaxe => "Stone Pickaxe",
            ToolType::IronPickaxe => "Iron Pickaxe",
            ToolType::DiamondPickaxe => "Diamond Pickaxe",
            ToolType::WoodenAxe => "Wooden Axe",
            ToolType::StoneAxe => "Stone Axe",
            ToolType::IronAxe => "Iron Axe",
            ToolType::DiamondAxe => "Diamond Axe",
            ToolType::WoodenShovel => "Wooden Shovel",
            ToolType::StoneShovel => "Stone Shovel",
            ToolType::IronShovel => "Iron Shovel",
            ToolType::DiamondShovel => "Diamond Shovel",
            ToolType::WoodenSword => "Wooden Sword",
            ToolType::StoneSword => "Stone Sword",
            ToolType::IronSword => "Iron Sword",
            ToolType::DiamondSword => "Diamond Sword",
        }
    }

    pub fn max_durability(&self) -> (r: u32)
        ensures
            r == tool_max_durability(*self),
    {
        match self {
            ToolType::WoodenPickaxe | ToolType::WoodenAxe | ToolType::WoodenShovel
            | ToolType::WoodenSword => 59,
            ToolType::StonePickaxe | ToolType::StoneAxe | ToolType::StoneShovel
            | ToolType::StoneSword => 131,
            ToolType::IronPickaxe | ToolType::IronAxe | ToolType::IronShovel
            | ToolType::IronSword => 250,
            ToolType::DiamondPickaxe | ToolType::DiamondAxe | ToolType::DiamondShovel
            | ToolType::DiamondSword => 1561,
        }
    }

    pub fn is_effective_for(&self, block: BlockType) -> (r: bool)
        ensures
            r == tool_effective_for(*self, block),
    {
        match self.category() {
            ToolCategory::Pickaxe => match block {
                BlockType::Stone | BlockType::CoalOre | BlockType::IronOre | BlockType::Terracotta
                | BlockType::Snow => true,
                _ => false,
            },
            ToolCategory::Axe => match block {
                BlockType::Wood => true,
                _ => false,
            },
            ToolCategory::Shovel => match block {
                BlockType::Dirt | BlockType::Sand | BlockType::Grass => true,
                _ => false,
            },
            ToolCategory::Sword => false,
        }
    }

    pub fn category(&self) -> (r: ToolCategory)
        ensures
            r == tool_category(*self),
    {
        match self {
            ToolType::WoodenPickaxe | ToolType::StonePickaxe | ToolType::IronPickaxe
            | ToolType::DiamondPickaxe => ToolCategory::Pickaxe,
            ToolType::WoodenAxe | ToolType::StoneAxe | ToolType::IronAxe
            | ToolType::DiamondAxe => ToolCategory::Axe,
            ToolType::WoodenShovel | ToolType::StoneShovel | ToolType::IronShovel
            | ToolType::DiamondShovel => ToolCategory::Shovel,
            ToolType::WoodenSword | ToolType::StoneSword | ToolType::IronSword
            | ToolType::DiamondSword => ToolCategory::Sword,
        }
    }
}

impl ItemType {
    pub fn name(&self) -> (r: &'static str)
        ensures
            r == item_name(*self),
    {
        match self {
            ItemType::Block(block) => block.name(),
            ItemType::Tool(tool, _) => tool.name(),
            ItemType::Material(material) => material.name(),
        }
    }

    /// Durability of a fresh item of this kind; 0 for what does not wear.
    pub fn max_durability(&self) -> (r: u32)
        ensures
            r == match *self {
                ItemType::Tool(t, _) => tool_max_durability(t),
                _ => 0,
            },
    {
        match self {
            ItemType::Tool(tool, _) => tool.max_durability(),
            _ => 0,
        }
    }

    /// Durability left; 0 for what does not wear.
    pub fn durability(&self) -> (r: u32)
        ensures
            r == match *self {
                ItemType::Tool(_, d) => d,
                _ => 0,
            },
    {
        match self {
            ItemType::Tool(_, dur) => *dur,
            _ => 0,
        }
    }

    /// Whether this item is a tool that suits `block`.
    pub fn is_effective_for(&self, block: BlockType) -> (r: bool)
        ensures
            r == match *self {
                ItemType::Tool(t, _) => tool_effective_for(t, block),
                _ => false,
            },
    {
        match self {
            ItemType::Tool(tool, _) => tool.is_effective_for(block),
            _ => false,
        }
    }

    /// Wears a tool by one use. Returns whether the tool is now broken (it was already at 0,
    /// or this use took its last point). Other items are unaffected.
    pub fn damage(&mut self) -> (r: bool)
        ensures
            match *old(self) {
                ItemType::Tool(t, d) => {
                    &&& *final(self) == ItemType::Tool(t, if d > 0 { (d - 1) as u32 } else { 0 })
                    &&& r == (d <= 1)
                },
                _ => *final(self) == *old(self) && !r,
            },
    {
        match self {
            ItemType::Tool(t, dur) => {
                if *dur > 0 {
                    let next = *dur - 1;
                    *self = ItemType::Tool(*t, next);
                    next == 0
                } else {
                    true
                }
            },
            _ => false,
        }
    }
}

} // verus!
