use vstd::prelude::*;

verus! {

/// The kinds of terrain a world tile can hold.
#[derive(Debug, Clone, Copy, PartialEq, Eq, Hash, Structural)]
pub enum TileType {
    Grass,
    Dirt,
    Sand,
    Water,
    Stone,
    DeepWater,
    Snow,
}

impl TileType {
    /// The numeric identifier of a tile kind, as sent to clients.
    pub open spec fn id(self) -> u8 {
        match self {
            TileType::Grass => 0,
            TileType::Dirt => 1,
            TileType::Sand => 2,
            TileType::Water => 3,
            TileType::Stone => 4,
            TileType::DeepWater => 5,
            TileType::Snow => 6,
        }
    }

    pub fn to_id(self) -> (id: u8)
        ensures
            id == self.id(),
    {
        match self {
            TileType::Grass => 0,
            TileType::Dirt => 1,
            TileType::Sand => 2,
            TileType::Water => 3,
            TileType::Stone => 4,
            TileType::DeepWater => 5,
            TileType::Snow => 6,
        }
    }
}

/// Distinct tile kinds have distinct identifiers, and every identifier is below 7.
pub proof fn lemma_tile_id_injective(a: TileType, b: TileType)
    ensures
        a.id() == b.id() <==> a == b,
        a.id() < 7,
{
}

} // verus!
