use voxel_fluid::block::BlockType;
use voxel_fluid::crafting::{CraftingSystem, RecipeIngredient};
use voxel_fluid::item::{ItemType, ToolType};

const W: Option<ItemType> = Some(ItemType::Block(BlockType::Wood));
const S: Option<ItemType> = Some(ItemType::Block(BlockType::Stone));

#[test]
fn ingredients_match_items() {
    assert!(RecipeIngredient::Any.matches(&ItemType::Block(BlockType::Sand)));
    assert!(RecipeIngredient::Tool(ToolType::IronAxe).matches(&ItemType::Tool(ToolType::IronAxe, 3)));
    assert!(!RecipeIngredient::Tool(ToolType::IronAxe).matches(&ItemType::Tool(ToolType::StoneAxe, 3)));
    assert!(!RecipeIngredient::Block(BlockType::Wood).matches(&ItemType::Block(BlockType::Stone)));
}

#[test]
fn recipes_match_grids() {
    let crafting = CraftingSystem::new();
    assert_eq!(crafting.recipe_count(), 9);
    assert_eq!(crafting.match_recipe(&[None; 9]), None);
    let mut one_wood = [None; 9];
    one_wood[7] = W;
    assert_eq!(crafting.match_recipe(&one_wood), Some((ItemType::Block(BlockType::Wood), 4)));
    let sticks = [None, None, None, None, None, W, None, None, W];
    assert_eq!(crafting.match_recipe(&sticks), Some((ItemType::Block(BlockType::Wood), 4)));
    let pickaxe = [W, W, W, None, W, None, None, W, None];
    assert_eq!(crafting.match_recipe(&pickaxe), Some((ItemType::Tool(ToolType::WoodenPickaxe, 59), 1)));
    let shovel = [None, S, None, None, W, None, None, W, None];
    assert_eq!(crafting.match_recipe(&shovel), Some((ItemType::Tool(ToolType::StoneShovel, 131), 1)));
    let column = [W, None, None, W, None, None, W, None, None];
    assert_eq!(crafting.match_recipe(&column), Some((ItemType::Tool(ToolType::WoodenShovel, 59), 1)));
    let axe = [None, S, S, None, W, None, None, W, None];
    assert_eq!(crafting.match_recipe(&axe), Some((ItemType::Tool(ToolType::StoneAxe, 131), 1)));
    let stray = [W, W, W, None, W, None, S, W, None];
    assert_eq!(crafting.match_recipe(&stray), None);
}
