//! Core game vocabulary: terrains, resources, markers, harbours, and the
//! sides and vertices of a hexagonal tile.

use vstd::prelude::*;

verus! {

/// The five fundamental resources of the game.
#[derive(Debug, Clone, Copy, PartialEq, Eq, Structural)]
pub enum Resource {
    Wheat,
    Sheep,
    Wood,
    Brick,
    Ore,
}

/// The six tile terrains of the game.
#[derive(Debug, Clone, Copy, PartialEq, Eq, Structural)]
pub enum TileTerrain {
    Field,
    Pasture,
    Forest,
    Mesa,
    Mountains,
    Desert,
}

/// Occupancy of a settle place during gameplay.
#[derive(Debug, Clone, Copy, PartialEq, Eq, Structural)]
pub enum SettlePlace {
    Settlement(crate::ids::PlayerID),
    Town(crate::ids::PlayerID),
    Empty,
}

/// Markers put on top of tiles signifying possible outcomes of a two-dice
/// roll (except for seven, which is reserved for the robber's actions).
#[derive(Debug, Clone, Copy, PartialEq, Eq, Structural)]
pub enum DiceMarker {
    Two,
    Three,
    Four,
    Five,
    Six,
    Eight,
    Nine,
    Ten,
    Eleven,
    Twelve,
}

/// A map from each resource kind to a value of type `T`.
#[derive(Debug, Clone, Copy, PartialEq, Eq)]
pub struct ResourceMap<T> {
    pub wheat: T,
    pub sheep: T,
    pub wood: T,
    pub brick: T,
    pub ore: T,
}

impl<T> ResourceMap<T> {
    /// The entry associated with resource `r`.
    pub open spec fn spec_get(self, r: Resource) -> T {
        match r {
            Resource::Wheat => self.wheat,
            Resource::Sheep => self.sheep,
            Resource::Wood => self.wood,
            Resource::Brick => self.brick,
            Resource::Ore => self.ore,
        }
    }

    /// The entry associated with resource `r`.
    pub fn get(&self, r: Resource) -> (out: &T)
        ensures
            *out == self.spec_get(r),
    {
        match r {
            Resource::Wheat => &self.wheat,
            Resource::Sheep => &self.sheep,
            Resource::Wood => &self.wood,
            Resource::Brick => &self.brick,
            Resource::Ore => &self.ore,
        }
    }
}

/// Current resources, and objects left to place, of a given player.
#[derive(Debug, Clone, Copy, PartialEq, Eq)]
pub struct PlayerHand {
    pub resources: ResourceMap<u8>,
    pub settlements: u8,
    pub towns: u8,
    pub roads: u8,
}

/// The six sides of a hexagonal tile.
#[derive(Debug, Clone, Copy, PartialEq, Eq, Structural)]
pub enum HexSide {
    NorthWest,
    NorthEast,
    West,
    East,
    SouthWest,
    SouthEast,
}

/// The six vertices of a hexagonal tile.
#[derive(Debug, Clone, Copy, PartialEq, Eq, Structural)]
pub enum HexVertex {
    North,
    NorthWest,
    NorthEast,
    SouthWest,
    SouthEast,
    South,
}

impl HexSide {
    /// The side opposite to `self`: the side a neighboring tile shows to us
    /// when we show it `self`.
    pub open spec fn spec_opposite(self) -> HexSide {
        match self {
            HexSide::NorthWest => HexSide::SouthEast,
            HexSide::NorthEast => HexSide::SouthWest,
            HexSide::West => HexSide::East,
            HexSide::East => HexSide::West,
            HexSide::SouthWest => HexSide::NorthEast,
            HexSide::SouthEast => HexSide::NorthWest,
        }
    }

    /// Get the opposite side of the hexagonal tile.
    pub fn opposite(self) -> (r: Self)
        ensures
            r == self.spec_opposite(),
    {
        match self {
            HexSide::NorthWest => HexSide::SouthEast,
            HexSide::NorthEast => HexSide::SouthWest,
            HexSide::West => HexSide::East,
            HexSide::East => HexSide::West,
            HexSide::SouthWest => HexSide::NorthEast,
            HexSide::SouthEast => HexSide::NorthWest,
        }
    }

    /// The two vertices bounding side `self`, in a fixed orientation.
    pub open spec fn spec_connected_vertices(self) -> (HexVertex, HexVertex) {
        match self {
            HexSide::NorthWest => (HexVertex::NorthWest, HexVertex::North),
            HexSide::NorthEast => (HexVertex::North, HexVertex::NorthEast),
            HexSide::East => (HexVertex::NorthEast, HexVertex::SouthEast),
            HexSide::SouthEast => (HexVertex::SouthEast, HexVertex::South),
            HexSide::SouthWest => (HexVertex::South, HexVertex::SouthWest),
            HexSide::West => (HexVertex::SouthWest, HexVertex::NorthWest),
        }
    }

    /// Each side connects two vertices; this gives the two concrete
    /// vertices the specified side connects.
    pub fn connected_vertices(self) -> (r: [HexVertex; 2])
        ensures
            r[0] == self.spec_connected_vertices().0,
            r[1] == self.spec_connected_vertices().1,
    {
        match self {
            HexSide::NorthWest => [HexVertex::NorthWest, HexVertex::North],
            HexSide::NorthEast => [HexVertex::North, HexVertex::NorthEast],
            HexSide::East => [HexVertex::NorthEast, HexVertex::SouthEast],
            HexSide::SouthEast => [HexVertex::SouthEast, HexVertex::South],
            HexSide::SouthWest => [HexVertex::South, HexVertex::SouthWest],
            HexSide::West => [HexVertex::SouthWest, HexVertex::NorthWest],
        }
    }
}

/// The kinds of harbours a map can place along its coast.
#[derive(Debug, Clone, Copy, PartialEq, Eq, Structural)]
pub enum Harbour {
    Wheat,
    Sheep,
    Wood,
    Ore,
    Brick,
    Universal,
}

/// Where a harbour sits: the tile coordinate it belongs to and the side of
/// that tile it is attached to.
#[derive(Debug, Clone, Copy, PartialEq, Eq)]
pub struct HarbourPlacement {
    pub position: [u8; 2],
    pub side: HexSide,
}

} // verus!
