//! Typed identifiers for the five entity kinds of the board topology.
//!
//! Each kind of entity (tile, road, settle place, player, dice marker) is
//! referred to by a dense, zero-based integer handle.  The handles are
//! deliberately distinct nominal types so that an identifier of one kind
//! cannot be used where another kind is expected.

use vstd::prelude::*;

verus! {

/// An identifier kind that can serve as the key of a relation table.
///
/// A key is a thin wrapper around an unsigned integer; `key_index` exposes
/// the integer as a `usize` index and `key_from` mints the key for a fresh
/// index.  `key_bound` is the number of distinct keys the kind can hold.
pub trait EntityKey: Sized + Copy {
    /// The index this key stands for.
    spec fn key_spec(self) -> int;

    /// Number of distinct keys of this kind (one past the largest index).
    spec fn key_bound() -> int;

    /// Every key holds an index within the kind's bound.
    proof fn key_in_range(self)
        ensures
            0 <= self.key_spec() < Self::key_bound(),
            Self::key_bound() <= usize::MAX as int + 1,
    ;

    /// The array index this key designates.
    fn key_index(self) -> (r: usize)
        ensures
            r as int == self.key_spec(),
    ;

    /// The key for a freshly assigned index.
    fn key_from(i: usize) -> (r: Self)
        requires
            i < Self::key_bound(),
        ensures
            r.key_spec() == i as int,
    ;
}

/// Handle of a hexagonal board tile.
#[derive(Debug, Clone, Copy, PartialEq, Eq, Structural, Hash)]
pub struct TileID(pub u8);

/// Handle of a tile that carries a resource-producing terrain.
#[derive(Debug, Clone, Copy, PartialEq, Eq, Structural, Hash)]
pub struct ResourceTileID(pub u8);

/// Handle of an edge shared by at most two tiles.
#[derive(Debug, Clone, Copy, PartialEq, Eq, Structural, Hash)]
pub struct RoadID(pub u16);

/// Handle of a corner point shared by up to three tiles.
#[derive(Debug, Clone, Copy, PartialEq, Eq, Structural, Hash)]
pub struct SettlePlaceID(pub u16);

/// Handle of a dice marker placed on a tile.
#[derive(Debug, Clone, Copy, PartialEq, Eq, Structural, Hash)]
pub struct DiceMarkerID(pub u8);

/// Handle of a player.
#[derive(Debug, Clone, Copy, PartialEq, Eq, Structural, Hash)]
pub struct PlayerID(pub u8);

impl EntityKey for TileID {
    open spec fn key_spec(self) -> int {
        self.0 as int
    }

    open spec fn key_bound() -> int {
        u8::MAX as int + 1
    }

    proof fn key_in_range(self) {
    }

    fn key_index(self) -> usize {
        self.0 as usize
    }

    fn key_from(i: usize) -> Self {
        TileID(i as u8)
    }
}

impl EntityKey for ResourceTileID {
    open spec fn key_spec(self) -> int {
        self.0 as int
    }

    open spec fn key_bound() -> int {
        u8::MAX as int + 1
    }

    proof fn key_in_range(self) {
    }

    fn key_index(self) -> usize {
        self.0 as usize
    }

    fn key_from(i: usize) -> Self {
        ResourceTileID(i as u8)
    }
}

impl EntityKey for RoadID {
    open spec fn key_spec(self) -> int {
        self.0 as int
    }

    open spec fn key_bound() -> int {
        u16::MAX as int + 1
    }

    proof fn key_in_range(self) {
    }

    fn key_index(self) -> usize {
        self.0 as usize
    }

    fn key_from(i: usize) -> Self {
        RoadID(i as u16)
    }
}

impl EntityKey for SettlePlaceID {
    open spec fn key_spec(self) -> int {
        self.0 as int
    }

    open spec fn key_bound() -> int {
        u16::MAX as int + 1
    }

    proof fn key_in_range(self) {
    }

    fn key_index(self) -> usize {
        self.0 as usize
    }

    fn key_from(i: usize) -> Self {
        SettlePlaceID(i as u16)
    }
}

impl EntityKey for DiceMarkerID {
    open spec fn key_spec(self) -> int {
        self.0 as int
    }

    open spec fn key_bound() -> int {
        u8::MAX as int + 1
    }

    proof fn key_in_range(self) {
    }

    fn key_index(self) -> usize {
        self.0 as usize
    }

    fn key_from(i: usize) -> Self {
        DiceMarkerID(i as u8)
    }
}

impl EntityKey for PlayerID {
    open spec fn key_spec(self) -> int {
        self.0 as int
    }

    open spec fn key_bound() -> int {
        u8::MAX as int + 1
    }

    proof fn key_in_range(self) {
    }

    fn key_index(self) -> usize {
        self.0 as usize
    }

    fn key_from(i: usize) -> Self {
        PlayerID(i as u8)
    }
}

} // verus!
