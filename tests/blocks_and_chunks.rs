use voxel_fluid::block::{Axis, Block, BlockFace, BlockType, ElectricalKind, RenderKind, TextureRule};
use voxel_fluid::chunk::{index, Chunk, CHUNK_VOLUME};

#[test]
fn faces_and_axes_agree() {
    assert_eq!(Axis::X.pair_indices(), (0, 1));
    assert_eq!(Axis::Z.pair_indices(), (4, 5));
    assert_eq!(Axis::from_connector_index(3), Axis::Y);
    assert_eq!(Axis::from_connector_index(9), Axis::X);
    assert_eq!(Axis::Y.to_index(), 1);
    assert_eq!(Axis::all(), [Axis::X, Axis::Y, Axis::Z]);
    assert_eq!(Axis::X.positive_face(), BlockFace::East);
    assert_eq!(Axis::Z.negative_face(), BlockFace::North);
    assert_eq!(BlockFace::Top.opposite(), BlockFace::Bottom);
    assert_eq!(BlockFace::West.axis(), Axis::X);
    assert_eq!(BlockFace::North.normal(), (0, 0, -1));
    assert_eq!(BlockFace::from_normal((1, 0, 0)), Some(BlockFace::East));
    assert_eq!(BlockFace::from_normal((0, -1, 0)), Some(BlockFace::Bottom));
    assert_eq!(BlockFace::from_normal((1, 1, 0)), None);
}

#[test]
fn block_properties() {
    assert!(BlockType::Stone.is_solid());
    assert!(BlockType::Stone.occludes());
    assert!(BlockType::Leaves.is_solid());
    assert!(!BlockType::Leaves.occludes());
    assert!(!BlockType::Water.is_solid());
    assert_eq!(BlockType::CoalOre.name(), "Coal Ore");
    assert_eq!(BlockType::Ground.name(), "Ground Node");
    assert_eq!(BlockType::Grass.atlas_coords(BlockFace::Top), (0, 0));
    assert_eq!(BlockType::Grass.atlas_coords(BlockFace::North), (1, 0));
    assert_eq!(BlockType::Grass.atlas_coords(BlockFace::Bottom), (2, 0));
    assert_eq!(BlockType::GlowShroom.atlas_coords(BlockFace::East), (38, 0));
    assert_eq!(BlockType::FlowerRose.render_kind(), RenderKind::Flower);
    assert_eq!(BlockType::Resistor.render_kind(), RenderKind::Electrical(ElectricalKind::Resistor));
    assert_eq!(BlockType::CopperWire.electrical_kind(), Some(ElectricalKind::Wire));
    assert!(!BlockType::Dirt.is_electrical());
    assert_eq!(BlockType::Ground.default_axis(), Axis::Y);
    assert_eq!(BlockType::VoltageSource.default_axis(), Axis::X);
    assert_eq!(Block::default().block_type, BlockType::Air);
    let rule = TextureRule::with_top_bottom((1, 2), (3, 4), (5, 6));
    assert_eq!(rule.face(BlockFace::Bottom), (5, 6));
    assert_eq!(TextureRule::uniform((7, 8)).face(BlockFace::Top), (7, 8));
}

#[test]
fn chunk_index_layout() {
    assert_eq!(index(0, 0, 0), 0);
    assert_eq!(index(1, 0, 0), 1);
    assert_eq!(index(0, 0, 1), 16);
    assert_eq!(index(0, 1, 0), 256);
    assert_eq!(index(15, 255, 15), CHUNK_VOLUME - 1);
}

#[test]
fn fluid_and_blocks_exclude_each_other() {
    let mut c = Chunk::new();
    c.set_block(3, 4, 5, BlockType::Stone);
    assert_eq!(c.cell_state()[index(3, 4, 5)], -1);
    c.set_fluid(3, 4, 5, 7);
    assert_eq!(c.get_block(3, 4, 5), BlockType::Air);
    assert_eq!(c.get_fluid(3, 4, 5), 7);
    assert_eq!(c.cell_state()[index(3, 4, 5)], 7);
    c.set_block(3, 4, 5, BlockType::Dirt);
    assert_eq!(c.get_fluid(3, 4, 5), 0);
    assert_eq!(c.cell_state()[index(3, 4, 5)], -1);
    c.set_block(3, 4, 5, BlockType::Leaves);
    assert_eq!(c.cell_state()[index(3, 4, 5)], 0);
    c.set_fluid(16, 0, 0, 5);
    assert_eq!(c.get_fluid(16, 0, 0), 0);
    assert_eq!(c.get_block(0, 300, 0), BlockType::Air);
}

#[test]
fn chunk_listings() {
    let mut c = Chunk::new();
    c.set_block(1, 2, 3, BlockType::Sand);
    c.set_fluid(4, 5, 6, 9);
    c.set_fluid(0, 0, 1, 2);
    assert_eq!(c.iter(), vec![(1, 2, 3, BlockType::Sand)]);
    assert_eq!(c.fluids_iter(), vec![(0, 0, 1, 2), (4, 5, 6, 9)]);
    assert_eq!(c.fluids()[index(4, 5, 6)], 9);
}

#[test]
fn apply_fluids_replaces_levels() {
    let mut c = Chunk::new();
    c.set_block(0, 0, 0, BlockType::Stone);
    c.set_block(1, 0, 0, BlockType::Stone);
    let mut levels = vec![0u8; CHUNK_VOLUME];
    levels[index(1, 0, 0)] = 4;
    c.apply_fluids(&levels);
    assert_eq!(c.get_block(0, 0, 0), BlockType::Stone);
    assert_eq!(c.get_block(1, 0, 0), BlockType::Air);
    assert_eq!(c.cell_state()[index(1, 0, 0)], 4);
    assert_eq!(c.cell_state()[index(0, 0, 0)], -1);
    c.apply_fluids(&levels[..10]);
    assert_eq!(c.get_fluid(1, 0, 0), 4);
}

#[test]
fn levels_are_clamped_to_a_full_cell() {
    let mut c = Chunk::new();
    c.set_fluid(1, 1, 1, 200);
    assert_eq!(c.get_fluid(1, 1, 1), 12);
    assert_eq!(c.cell_state()[index(1, 1, 1)], 12);
    let mut levels = vec![0u8; CHUNK_VOLUME];
    levels[index(2, 2, 2)] = 30;
    levels[index(3, 2, 2)] = 5;
    c.apply_fluids(&levels);
    assert_eq!(c.get_fluid(2, 2, 2), 12);
    assert_eq!(c.get_fluid(3, 2, 2), 5);
    assert_eq!(c.get_fluid(1, 1, 1), 0);
}
