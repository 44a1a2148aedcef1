//! The entity tables of a game state: all properties of all entities of a
//! kind, stored as relation tables keyed by that kind's identifier.

use vstd::prelude::*;
use crate::adjacency_list::AdjacencyList;
use crate::array_vec::ArrayVec;
use crate::hexmaps::SideMap;
use crate::hexmaps::VertexMap;
use crate::ids::DiceMarkerID;
use crate::ids::PlayerID;
use crate::ids::ResourceTileID;
use crate::ids::RoadID;
use crate::ids::SettlePlaceID;
use crate::ids::TileID;
use crate::types::DiceMarker;
use crate::types::PlayerHand;
use crate::types::TileTerrain;

verus! {

/// A relation table keyed by tile identifier.
pub type TileRelations<T> = AdjacencyList<TileID, T>;

/// All of the properties of all tile entities.
pub struct TileEntities {
    pub resource: TileRelations<TileTerrain>,
    pub roads: TileRelations<SideMap<RoadID>>,
    pub settle_places: TileRelations<VertexMap<SettlePlaceID>>,
}

/// A relation table keyed by road identifier.
pub type RoadRelations<T> = AdjacencyList<RoadID, T>;

/// All of the properties of all road entities.
pub struct RoadEntities {
    pub settle_places: RoadRelations<[SettlePlaceID; 2]>,
}

/// A relation table keyed by player identifier.
pub type PlayerRelations<T> = AdjacencyList<PlayerID, T>;

/// All of the properties of all player entities.
pub struct PlayerEntities {
    pub placed_roads: PlayerRelations<Vec<RoadID>>,
    pub towns: PlayerRelations<Vec<SettlePlaceID>>,
    pub settlements: PlayerRelations<Vec<SettlePlaceID>>,
    pub hand: PlayerRelations<PlayerHand>,
}

impl PlayerEntities {
    /// Tables with no players yet.
    pub fn new() -> (r: Self)
        ensures
            r.placed_roads@ == Seq::<Vec<RoadID>>::empty(),
            r.towns@ == Seq::<Vec<SettlePlaceID>>::empty(),
            r.settlements@ == Seq::<Vec<SettlePlaceID>>::empty(),
            r.hand@ == Seq::<PlayerHand>::empty(),
    {
        PlayerEntities {
            placed_roads: AdjacencyList::new(),
            towns: AdjacencyList::new(),
            settlements: AdjacencyList::new(),
            hand: AdjacencyList::new(),
        }
    }
}

/// A relation table keyed by settle-place identifier.
pub type SettleRelations<T> = AdjacencyList<SettlePlaceID, T>;

/// All of the properties of all settle-place entities.
pub struct SettlePlaceEntities {
    pub roads: SettleRelations<ArrayVec<RoadID, 3>>,
}

/// A relation table keyed by dice-marker identifier.
pub type DiceMarkerRelations<T> = AdjacencyList<DiceMarkerID, T>;

/// All of the properties of all dice-marker entities.
pub struct DiceMarkerEntities {
    pub values: DiceMarkerRelations<DiceMarker>,
    pub place: DiceMarkerRelations<ResourceTileID>,
}

/// The current state of the game, containing all of the relationships
/// between game objects and players.
pub struct GameState {
    pub tile: TileEntities,
    pub road: RoadEntities,
    pub player: PlayerEntities,
    pub settle_place: SettlePlaceEntities,
}

} // verus!
