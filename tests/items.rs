use voxel_fluid::block::BlockType;
use voxel_fluid::inventory::{Inventory, HOTBAR_SIZE};
use voxel_fluid::item::{ItemType, MaterialType, ToolCategory, ToolType};

#[test]
fn tool_properties() {
    assert_eq!(ToolType::IronAxe.name(), "Iron Axe");
    assert_eq!(ToolType::StoneShovel.max_durability(), 131);
    assert_eq!(ToolType::DiamondSword.max_durability(), 1561);
    assert!(ToolType::WoodenPickaxe.is_effective_for(BlockType::Snow));
    assert!(!ToolType::WoodenPickaxe.is_effective_for(BlockType::Dirt));
    assert!(ToolType::IronShovel.is_effective_for(BlockType::Grass));
    assert!(!ToolType::IronSword.is_effective_for(BlockType::Stone));
    assert_eq!(ToolType::DiamondAxe.category(), ToolCategory::Axe);
    assert_eq!(MaterialType::Stick.name(), "Stick");
}

#[test]
fn item_wear() {
    let mut pick = ItemType::Tool(ToolType::WoodenPickaxe, 2);
    assert_eq!(pick.max_durability(), 59);
    assert!(!pick.damage());
    assert_eq!(pick.durability(), 1);
    assert!(pick.damage());
    assert_eq!(pick.durability(), 0);
    assert!(pick.damage());
    let mut dirt = ItemType::Block(BlockType::Dirt);
    assert!(!dirt.damage());
    assert_eq!(dirt, ItemType::Block(BlockType::Dirt));
    assert_eq!(dirt.name(), "Dirt");
    assert_eq!(dirt.max_durability(), 0);
    assert!(!dirt.is_effective_for(BlockType::Dirt));
    assert!(pick.is_effective_for(BlockType::Stone));
}

#[test]
fn hotbar_selection_wraps() {
    let mut inv = Inventory::new();
    assert_eq!(inv.selected_block(), Some(BlockType::Grass));
    inv.cycle_selection(-1);
    assert_eq!(inv.selected_slot_index(), HOTBAR_SIZE - 1);
    assert_eq!(inv.selected_block(), Some(BlockType::FlowerRose));
    inv.cycle_selection(10);
    assert_eq!(inv.selected_slot_index(), 0);
    inv.cycle_selection(-19);
    assert_eq!(inv.selected_slot_index(), 8);
    inv.select_slot(3);
    assert_eq!(inv.selected_item(), Some(ItemType::Block(BlockType::CopperWire)));
    inv.select_slot(42);
    assert_eq!(inv.selected_slot_index(), 3);
}

#[test]
fn hotbar_slots_change() {
    let mut inv = Inventory::new();
    inv.select_slot(1);
    inv.swap_slots(1, 4);
    assert_eq!(inv.selected_slot_index(), 4);
    assert_eq!(inv.selected_block(), Some(BlockType::Dirt));
    assert_eq!(inv.hotbar[1], Some(ItemType::Block(BlockType::Resistor)));
    assert_eq!(inv.first_empty_slot(), None);
    inv.clear_slot(6);
    assert_eq!(inv.first_empty_slot(), Some(6));
    inv.cycle_slot_block(0, 1);
    assert_eq!(inv.hotbar[0], Some(ItemType::Block(BlockType::Dirt)));
    inv.cycle_slot_block(0, -2);
    assert_eq!(inv.hotbar[0], Some(ItemType::Block(BlockType::Ground)));
    inv.cycle_slot_block(6, 0);
    assert_eq!(inv.hotbar[6], Some(ItemType::Block(BlockType::Grass)));
    inv.set_slot(2, Some(ItemType::Tool(ToolType::StoneAxe, 1)));
    inv.select_slot(2);
    assert_eq!(inv.selected_block(), None);
    assert!(inv.damage_selected_tool());
    assert_eq!(inv.hotbar[2], None);
    assert!(!inv.damage_selected_tool());
}
