use vstd::prelude::*;

verus! {

/// The kinds of block a chunk cell can hold.
#[derive(Clone, Copy, Debug, PartialEq, Eq, Structural)]
pub enum BlockType {
    Air,
    Grass,
    Dirt,
    Stone,
    Wood,
    Sand,
    Leaves,
    CoalOre,
    IronOre,
    Water,
    FlowerRose,
    FlowerTulip,
    GlowShroom,
    CaveCrystal,
    CaveMoss,
    Terracotta,
    LilyPad,
    Snow,
    CopperWire,
    Resistor,
    VoltageSource,
    Ground,
}

/// The six faces of a block.
#[derive(Clone, Copy, Debug, PartialEq, Eq, Structural, Hash)]
pub enum BlockFace {
    Top,
    Bottom,
    North,
    South,
    East,
    West,
}

/// The three world axes.
#[derive(Clone, Copy, Debug, PartialEq, Eq, Structural)]
pub enum Axis {
    X,
    Y,
    Z,
}

/// Spec view of the axis an index in `0..6` of a face pair belongs to.
pub open spec fn axis_of_connector(idx: int) -> Axis {
    if idx == 2 || idx == 3 {
        Axis::Y
    } else if idx == 4 || idx == 5 {
        Axis::Z
    } else {
        Axis::X
    }
}

pub open spec fn axis_index(a: Axis) -> usize {
    match a {
        Axis::X => 0,
        Axis::Y => 1,
        Axis::Z => 2,
    }
}

pub open spec fn face_axis(f: BlockFace) -> Axis {
    match f {
        BlockFace::Top | BlockFace::Bottom => Axis::Y,
        BlockFace::North | BlockFace::South => Axis::Z,
        BlockFace::East | BlockFace::West => Axis::X,
    }
}

impl Axis {
    /// The connector indices of the two faces along this axis.
    pub fn pair_indices(self) -> (r: (usize, usize))
        ensures
            r.0 == 2 * axis_index(self),
            r.1 == 2 * axis_index(self) + 1,
    {
        match self {
            Axis::X => (0, 1),
            Axis::Y => (2, 3),
            Axis::Z => (4, 5),
        }
    }

    /// The axis a connector index belongs to; indices past the last face map to `X`.
    pub fn from_connector_index(idx: usize) -> (r: Axis)
        ensures
            r == axis_of_connector(idx as int),
    {
        match idx {
            0 | 1 => Axis::X,
            2 | 3 => Axis::Y,
            4 | 5 => Axis::Z,
            _ => Axis::X,
        }
    }

    pub fn to_index(self) -> (r: usize)
        ensures
            r == axis_index(self),
            r < 3,
    {
        match self {
            Axis::X => 0,
            Axis::Y => 1,
            Axis::Z => 2,
        }
    }

    pub fn all() -> (r: [Axis; 3])
        ensures
            r@ == seq![Axis::X, Axis::Y, Axis::Z],
    {
        let r = [Axis::X, Axis::Y, Axis::Z];
        assert(r@ =~= seq![Axis::X, Axis::Y, Axis::Z]);
        r
    }

    /// The face whose outward normal points along the positive direction of this axis.
    pub fn positive_face(self) -> (r: BlockFace)
        ensures
            face_axis(r) == self,
            r == BlockFace::East || r == BlockFace::Top || r == BlockFace::South,
    {
        match self {
            Axis::X => BlockFace::East,
            Axis::Y => BlockFace::Top,
            Axis::Z => BlockFace::South,
        }
    }

    /// The face whose outward normal points along the negative direction of this axis.
    pub fn negative_face(self) -> (r: BlockFace)
        ensures
            face_axis(r) == self,
            r == BlockFace::West || r == BlockFace::Bottom || r == BlockFace::North,
    {
        match self {
            Axis::X => BlockFace::West,
            Axis::Y => BlockFace::Bottom,
            Axis::Z => BlockFace::North,
        }
    }
}

pub open spec fn face_opposite(f: BlockFace) -> BlockFace {
    match f {
        BlockFace::Top => BlockFace::Bottom,
        BlockFace::Bottom => BlockFace::Top,
        BlockFace::North => BlockFace::South,
        BlockFace::South => BlockFace::North,
        BlockFace::East => BlockFace::West,
        BlockFace::West => BlockFace::East,
    }
}

pub open spec fn face_normal(f: BlockFace) -> (i32, i32, i32) {
    match f {
        BlockFace::Top => (0, 1, 0),
        BlockFace::Bottom => (0, -1i32, 0),
        BlockFace::North => (0, 0, -1i32),
        BlockFace::South => (0, 0, 1),
        BlockFace::East => (1, 0, 0),
        BlockFace::West => (-1i32, 0, 0),
    }
}

impl BlockFace {
    pub fn axis(self) -> (r: Axis)
        ensures
            r == face_axis(self),
    {
        match self {
            BlockFace::Top | BlockFace::Bottom => Axis::Y,
            BlockFace::North | BlockFace::South => Axis::Z,
            BlockFace::East | BlockFace::West => Axis::X,
        }
    }

    /// The outward unit normal of this face, as `(x, y, z)`.
    pub fn normal(self) -> (r: (i32, i32, i32))
        ensures
            r == face_normal(self),
    {
        match self {
            BlockFace::Top => (0, 1, 0),
            BlockFace::Bottom => (0, -1, 0),
            BlockFace::North => (0, 0, -1),
            BlockFace::South => (0, 0, 1),
            BlockFace::East => (1, 0, 0),
            BlockFace::West => (-1, 0, 0),
        }
    }

    /// The face whose outward normal is `normal`, if it is one of the six.
    pub fn from_normal(normal: (i32, i32, i32)) -> (r: Option<BlockFace>)
        ensures
            r matches Some(f) ==> face_normal(f) == normal,
            r is None ==> forall|f: BlockFace| face_normal(f) != normal,
    {
        match normal {
            (0, 1, 0) => Some(BlockFace::Top),
            (0, -1, 0) => Some(BlockFace::Bottom),
            (0, 0, -1) => Some(BlockFace::North),
            (0, 0, 1) => Some(BlockFace::South),
            (1, 0, 0) => Some(BlockFace::East),
            (-1, 0, 0) => Some(BlockFace::West),
            _ => None,
        }
    }

    pub fn opposite(self) -> (r: BlockFace)
        ensures
            r == face_opposite(self),
            r != self,
            face_axis(r) == face_axis(self),
            face_opposite(r) == self,
    {
        match self {
            BlockFace::Top => BlockFace::Bottom,
            BlockFace::Bottom => BlockFace::Top,
            BlockFace::North => BlockFace::South,
            BlockFace::South => BlockFace::North,
            BlockFace::East => BlockFace::West,
            BlockFace::West => BlockFace::East,
        }
    }
}

/// The electrical component a block stands for.
#[derive(Clone, Copy, Debug, PartialEq, Eq, Structural)]
pub enum ElectricalKind {
    Wire,
    Resistor,
    VoltageSource,
    Ground,
}

/// How a block is drawn.
#[derive(Clone, Copy, Debug, PartialEq, Eq, Structural)]
pub enum RenderKind {
    Solid,
    Cross,
    Flat,
    Flower,
    Electrical(ElectricalKind),
}

/// Atlas coordinates of a block's faces: one default, with optional overrides for top and bottom.
#[derive(Clone, Copy, Debug)]
pub struct TextureRule {
    pub default: (u32, u32),
    pub top: Option<(u32, u32)>,
    pub bottom: Option<(u32, u32)>,
}

pub open spec fn rule_face(rule: TextureRule, face: BlockFace) -> (u32, u32) {
    match face {
        BlockFace::Top => match rule.top {
            Some(t) => t,
            None => rule.default,
        },
        BlockFace::Bottom => match rule.bottom {
            Some(b) => b,
            None => rule.default,
        },
        _ => rule.default,
    }
}

impl TextureRule {
    pub fn uniform(default: (u32, u32)) -> (r: TextureRule)
        ensures
            r == (TextureRule { default, top: None, bottom: None }),
    {
        TextureRule { default, top: None, bottom: None }
    }

    pub fn with_top_bottom(default: (u32, u32), top: (u32, u32), bottom: (u32, u32)) -> (r:
        TextureRule)
        ensures
            r == (TextureRule { default, top: Some(top), bottom: Some(bottom) }),
    {
        TextureRule { default, top: Some(top), bottom: Some(bottom) }
    }

    pub fn face(&self, face: BlockFace) -> (r: (u32, u32))
        ensures
            r == rule_face(*self, face),
    {
        match face {
            BlockFace::Top => match self.top {
                Some(t) => t,
                None => self.default,
            },
            BlockFace::Bottom => match self.bottom {
                Some(b) => b,
                None => self.default,
            },
            _ => self.default,
        }
    }
}

/// Blocks that stop movement (and fluid flow in the sequential engine).
pub open spec fn block_is_solid(b: BlockType) -> bool {
    match b {
        BlockType::Grass | BlockType::Dirt | BlockType::Stone | BlockType::Wood | BlockType::Sand
        | BlockType::Leaves | BlockType::CoalOre | BlockType::IronOre | BlockType::CaveCrystal
        | BlockType::CaveMoss | BlockType::Terracotta | BlockType::Snow => true,
        _ => false,
    }
}

/// Blocks that fill their cell completely; a cell holding one is closed to fluid.
pub open spec fn block_occludes(b: BlockType) -> bool {
    block_is_solid(b) && b != BlockType::Leaves
}

pub open spec fn block_name(b: BlockType) -> &'static str {
    match b {
        BlockType::Air => "Air",
        BlockType::Grass => "Grass",
        BlockType::Dirt => "Dirt",
        BlockType::Stone => "Stone",
        BlockType::Wood => "Wood",
        BlockType::Sand => "Sand",
        BlockType::Leaves => "Leaves",
        BlockType::CoalOre => "Coal Ore",
        BlockType::IronOre => "Iron Ore",
        BlockType::Water => "Water",
        BlockType::FlowerRose => "Rose",
        BlockType::FlowerTulip => "Tulip",
        BlockType::GlowShroom => "Glow Shroom",
        BlockType::CaveCrystal => "Cave Crystal",
        BlockType::CaveMoss => "Cave Moss",
        BlockType::Terracotta => "Terracotta",
        BlockType::LilyPad => "Lily Pad",
        BlockType::Snow => "Snow",
        BlockType::CopperWire => "Copper Wire",
        BlockType::Resistor => "Resistor",
        BlockType::VoltageSource => "Voltage Source",
        BlockType::Ground => "Ground Node",
    }
}

pub open spec fn block_textures(b: BlockType) -> TextureRule {
    let u = |c: (u32, u32)| TextureRule { default: c, top: None, bottom: None };
    match b {
        BlockType::Air => u((0, 0)),
        BlockType::Grass => TextureRule { default: (1, 0), top: Some((0, 0)), bottom: Some((2, 0)) },
        BlockType::Dirt => u((2, 0)),
        BlockType::Stone => u((3, 0)),
        BlockType::Wood => TextureRule { default: (4, 0), top: Some((5, 0)), bottom: Some((5, 0)) },
        BlockType::Sand => u((6, 0)),
        BlockType::Leaves => u((7, 0)),
        BlockType::CoalOre => u((8, 0)),
        BlockType::IronOre => u((9, 0)),
        BlockType::Water => u((10, 0)),
        BlockType::FlowerRose => u((11, 0)),
        BlockType::FlowerTulip => u((12, 0)),
        BlockType::GlowShroom => u((38, 0)),
        BlockType::CaveCrystal => u((15, 0)),
        BlockType::CaveMoss => u((6, 0)),
        BlockType::Terracotta => u((13, 0)),
        BlockType::LilyPad => u((14, 0)),
        BlockType::Snow => u((15, 0)),
        BlockType::CopperWire => u((16, 0)),
        BlockType::Resistor => u((17, 0)),
        BlockType::VoltageSource => u((18, 0)),
        BlockType::Ground => u((19, 0)),
    }
}

pub open spec fn block_electrical_kind(b: BlockType) -> Option<ElectricalKind> {
    match b {
        BlockType::CopperWire => Some(ElectricalKind::Wire),
        BlockType::Resistor => Some(ElectricalKind::Resistor),
        BlockType::VoltageSource => Some(ElectricalKind::VoltageSource),
        BlockType::Ground => Some(ElectricalKind::Ground),
        _ => None,
    }
}

pub open spec fn block_render_kind(b: BlockType) -> RenderKind {
    match b {
        BlockType::FlowerRose | BlockType::FlowerTulip | BlockType::GlowShroom => RenderKind::Flower,
        BlockType::CaveCrystal => RenderKind::Cross,
        BlockType::LilyPad => RenderKind::Flat,
        _ => match block_electrical_kind(b) {
            Some(k) => RenderKind::Electrical(k),
            None => RenderKind::Solid,
        },
    }
}

impl BlockType {
    pub fn is_solid(self) -> (r: bool)
        ensures
            r == block_is_solid(self),
    {
        match self {
            BlockType::Grass | BlockType::Dirt | BlockType::Stone | BlockType::Wood
            | BlockType::Sand | BlockType::Leaves | BlockType::CoalOre | BlockType::IronOre
            | BlockType::CaveCrystal | BlockType::CaveMoss | BlockType::Terracotta
            | BlockType::Snow => true,
            _ => false,
        }
    }

    pub fn occludes(self) -> (r: bool)
        ensures
            r == block_occludes(self),
    {
        match self {
            BlockType::Leaves => false,
            _ => self.is_solid(),
        }
    }

    pub fn name(self) -> (r: &'static str)
        ensures
            r == block_name(self),
    {
        match self {
            BlockType::Air => "Air",
            BlockType::Grass => "Grass",
            BlockType::Dirt => "Dirt",
            BlockType::Stone => "Stone",
            BlockType::Wood => "Wood",
            BlockType::Sand => "Sand",
            BlockType::Leaves => "Leaves",
            BlockType::CoalOre => "Coal Ore",
            BlockType::IronOre => "Iron Ore",
            BlockType::Water => "Water",
            BlockType::FlowerRose => "Rose",
            BlockType::FlowerTulip => "Tulip",
            BlockType::GlowShroom => "Glow Shroom",
            BlockType::CaveCrystal => "Cave Crystal",
            BlockType::CaveMoss => "Cave Moss",
            BlockType::Terracotta => "Terracotta",
            BlockType::LilyPad => "Lily Pad",
            BlockType::Snow => "Snow",
            BlockType::CopperWire => "Copper Wire",
            BlockType::Resistor => "Resistor",
            BlockType::VoltageSource => "Voltage Source",
            BlockType::Ground => "Ground Node",
        }
    }

    fn textures(self) -> (r: TextureRule)
        ensures
            r == block_textures(self),
    {
        match self {
            BlockType::Air => TextureRule::uniform((0, 0)),
            BlockType::Grass => TextureRule::with_top_bottom((1, 0), (0, 0), (2, 0)),
            BlockType::Dirt => TextureRule::uniform((2, 0)),
            BlockType::Stone => TextureRule::uniform((3, 0)),
            BlockType::Wood => TextureRule::with_top_bottom((4, 0), (5, 0), (5, 0)),
            BlockType::Sand => TextureRule::uniform((6, 0)),
            BlockType::Leaves => TextureRule::uniform((7, 0)),
            BlockType::CoalOre => TextureRule::uniform((8, 0)),
            BlockType::IronOre => TextureRule::uniform((9, 0)),
            BlockType::Water => TextureRule::uniform((10, 0)),
            BlockType::FlowerRose => TextureRule::uniform((11, 0)),
            BlockType::FlowerTulip => TextureRule::uniform((12, 0)),
            BlockType::GlowShroom => TextureRule::uniform((38, 0)),
            BlockType::CaveCrystal => TextureRule::uniform((15, 0)),
            BlockType::CaveMoss => TextureRule::uniform((6, 0)),
            BlockType::Terracotta => TextureRule::uniform((13, 0)),
            BlockType::LilyPad => TextureRule::uniform((14, 0)),
            BlockType::Snow => TextureRule::uniform((15, 0)),
            BlockType::CopperWire => TextureRule::uniform((16, 0)),
            BlockType::Resistor => TextureRule::uniform((17, 0)),
            BlockType::VoltageSource => TextureRule::uniform((18, 0)),
            BlockType::Ground => TextureRule::uniform((19, 0)),
        }
    }

    /// Atlas tile of the given face of this block.
    pub fn atlas_coords(self, face: BlockFace) -> (r: (u32, u32))
        ensures
            r == rule_face(block_textures(self), face),
    {
        self.textures().face(face)
    }

    pub fn render_kind(self) -> (r: RenderKind)
        ensures
            r == block_render_kind(self),
    {
        match self {
            BlockType::FlowerRose | BlockType::FlowerTulip | BlockType::GlowShroom => {
                RenderKind::Flower
            },
            BlockType::CaveCrystal => RenderKind::Cross,
            BlockType::LilyPad => RenderKind::Flat,
            _ => match self.electrical_kind() {
                Some(k) => RenderKind::Electrical(k),
                None => RenderKind::Solid,
            },
        }
    }

    pub fn electrical_kind(self) -> (r: Option<ElectricalKind>)
        ensures
            r == block_electrical_kind(self),
    {
        match self {
            BlockType::CopperWire => Some(ElectricalKind::Wire),
            BlockType::Resistor => Some(ElectricalKind::Resistor),
            BlockType::VoltageSource => Some(ElectricalKind::VoltageSource),
            BlockType::Ground => Some(ElectricalKind::Ground),
            _ => None,
        }
    }

    pub fn is_electrical(self) -> (r: bool)
        ensures
            r == block_electrical_kind(self).is_some(),
    {
        self.electrical_kind().is_some()
    }

    /// Orientation a freshly placed block takes: ground nodes stand along `Y`, all else along `X`.
    pub fn default_axis(self) -> (r: Axis)
        ensures
            r == (if self == BlockType::Ground {
                Axis::Y
            } else {
                Axis::X
            }),
    {
        match self.electrical_kind() {
            Some(ElectricalKind::Ground) => Axis::Y,
            _ => Axis::X,
        }
    }
}

/// One cell's block.
#[derive(Clone, Copy, Debug, PartialEq, Eq, Structural)]
pub struct Block {
    pub block_type: BlockType,
}

impl Block {
    pub fn new(block_type: BlockType) -> (r: Block)
        ensures
            r.block_type == block_type,
    {
        Block { block_type }
    }
}

impl Default for Block {
    fn default() -> (r: Block)
        ensures
            r.block_type == BlockType::Air,
    {
        Block::new(BlockType::Air)
    }
}

} // verus!
