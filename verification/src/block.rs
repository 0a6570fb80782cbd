use vstd::prelude::*;

verus! {

/// The kinds of block a world cell can hold.
#[derive(Clone, Copy, PartialEq, Eq, Debug, Structural)]
pub enum BlockType {
    Air,
    Grass,
    Dirt,
    Stone,
    Sand,
    Wood,
    Leaves,
    Water,
}

/// Blocks that the player cannot walk through.
pub open spec fn spec_solid(b: BlockType) -> bool {
    !(b == BlockType::Air || b == BlockType::Water)
}

/// Blocks that hide the faces of their neighbours.
pub open spec fn spec_opaque(b: BlockType) -> bool {
    !(b == BlockType::Air || b == BlockType::Water || b == BlockType::Leaves)
}

/// The block that a byte stands for; unknown bytes stand for air.
pub open spec fn spec_from_u8(v: u8) -> BlockType {
    if v == 1 {
        BlockType::Grass
    } else if v == 2 {
        BlockType::Dirt
    } else if v == 3 {
        BlockType::Stone
    } else if v == 4 {
        BlockType::Sand
    } else if v == 5 {
        BlockType::Wood
    } else if v == 6 {
        BlockType::Leaves
    } else if v == 7 {
        BlockType::Water
    } else {
        BlockType::Air
    }
}

/// The byte that stands for a block.
pub open spec fn spec_to_u8(b: BlockType) -> u8 {
    match b {
        BlockType::Air => 0,
        BlockType::Grass => 1,
        BlockType::Dirt => 2,
        BlockType::Stone => 3,
        BlockType::Sand => 4,
        BlockType::Wood => 5,
        BlockType::Leaves => 6,
        BlockType::Water => 7,
    }
}

impl BlockType {
    /// Whether the player collides with this block.
    pub fn is_solid(self) -> (r: bool)
        ensures
            r == spec_solid(self),
    {
        !(self == BlockType::Air || self == BlockType::Water)
    }

    /// Whether this block hides the faces of the blocks beside it.
    pub fn is_opaque(self) -> (r: bool)
        ensures
            r == spec_opaque(self),
    {
        !(self == BlockType::Air || self == BlockType::Water || self == BlockType::Leaves)
    }

    /// The block that byte `v` stands for; unknown bytes give air.
    pub fn from_u8(v: u8) -> (r: BlockType)
        ensures
            r == spec_from_u8(v),
    {
        match v {
            1 => BlockType::Grass,
            2 => BlockType::Dirt,
            3 => BlockType::Stone,
            4 => BlockType::Sand,
            5 => BlockType::Wood,
            6 => BlockType::Leaves,
            7 => BlockType::Water,
            _ => BlockType::Air,
        }
    }
}

impl Default for BlockType {
    fn default() -> (r: BlockType)
        ensures
            r == BlockType::Air,
    {
        BlockType::Air
    }
}

/// Every block survives the trip to its byte and back.
pub proof fn lemma_from_u8_inverts_byte(b: BlockType)
    ensures
        spec_from_u8(spec_to_u8(b)) == b,
{
}

/// The blocks of the hotbar, slot by slot.
pub const HOTBAR_TYPES: [BlockType; 8] = [
    BlockType::Grass,
    BlockType::Dirt,
    BlockType::Stone,
    BlockType::Sand,
    BlockType::Wood,
    BlockType::Leaves,
    BlockType::Water,
    BlockType::Stone,
];

} // verus!
