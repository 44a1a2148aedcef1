//! Fixed six-entry maps keyed by the sides and the vertices of a hexagonal
//! tile.  These stand in for heap-allocated maps: a tile always has exactly
//! six sides and six vertices, so one field per key suffices.

use vstd::prelude::*;
use crate::types::HexSide;
use crate::types::HexVertex;

verus! {

/// A map from each of the six sides of a hex tile to a value of type `T`.
#[derive(Debug, Clone, Copy, PartialEq, Eq)]
pub struct SideMap<T> {
    pub north_west: T,
    pub north_east: T,
    pub west: T,
    pub east: T,
    pub south_west: T,
    pub south_east: T,
}

impl<T> SideMap<T> {
    /// The entry associated with side `s`.
    pub open spec fn spec_get(self, s: HexSide) -> T {
        match s {
            HexSide::NorthWest => self.north_west,
            HexSide::NorthEast => self.north_east,
            HexSide::West => self.west,
            HexSide::East => self.east,
            HexSide::SouthWest => self.south_west,
            HexSide::SouthEast => self.south_east,
        }
    }

    /// The entry associated with side `s`.
    pub fn get(&self, s: HexSide) -> (out: &T)
        ensures
            *out == self.spec_get(s),
    {
        match s {
            HexSide::NorthWest => &self.north_west,
            HexSide::NorthEast => &self.north_east,
            HexSide::West => &self.west,
            HexSide::East => &self.east,
            HexSide::SouthWest => &self.south_west,
            HexSide::SouthEast => &self.south_east,
        }
    }
}

/// A map from each of the six vertices of a hex tile to a value of type `T`.
#[derive(Debug, Clone, Copy, PartialEq, Eq)]
pub struct VertexMap<T> {
    pub north: T,
    pub north_west: T,
    pub north_east: T,
    pub south_west: T,
    pub south_east: T,
    pub south: T,
}

impl<T> VertexMap<T> {
    /// The entry associated with vertex `v`.
    pub open spec fn spec_get(self, v: HexVertex) -> T {
        match v {
            HexVertex::North => self.north,
            HexVertex::NorthWest => self.north_west,
            HexVertex::NorthEast => self.north_east,
            HexVertex::SouthWest => self.south_west,
            HexVertex::SouthEast => self.south_east,
            HexVertex::South => self.south,
        }
    }

    /// The entry associated with vertex `v`.
    pub fn get(&self, v: HexVertex) -> (out: &T)
        ensures
            *out == self.spec_get(v),
    {
        match v {
            HexVertex::North => &self.north,
            HexVertex::NorthWest => &self.north_west,
            HexVertex::NorthEast => &self.north_east,
            HexVertex::SouthWest => &self.south_west,
            HexVertex::SouthEast => &self.south_east,
            HexVertex::South => &self.south,
        }
    }
}

} // verus!
