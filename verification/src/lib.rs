//! Static topology of a hexagonal-tile board.
//!
//! From a sparse placement of hexagonal tiles on a 2D grid, this crate
//! derives the full set of shared edges ("roads") and shared corners
//! ("settle places"), assigning each a stable, densely packed identifier
//! that is the same no matter which of its owning tiles is visited first.
//!
//! The interesting problem is that a vertex of the hex grid is shared by
//! up to three tiles and an edge by up to two, while the input only gives
//! tile positions: the sharing is discovered by a breadth-first traversal,
//! and one canonical identifier is allocated per physical vertex and edge.
//! The contracts state exactly that: after [`decode_config`], settle-place
//! identifiers are in one-to-one correspondence with the physical corners
//! of the placed tiles and road identifiers with their physical edges
//! ([`topology_of`]), identifiers are dense, every road knows its two
//! endpoints, the settle-place → roads table is the exact inversion of the
//! road → endpoints table, and no settle place touches more than three
//! roads.

pub mod adjacency_list;
pub mod array_vec;
pub mod geometry;
pub mod grid;
pub mod hexmaps;
pub mod ids;
pub mod inverter;
pub mod relations;
pub mod topology;
pub mod traversal;
pub mod types;

use vstd::prelude::*;
use crate::adjacency_list::AdjacencyList;
use crate::grid::placement_fits;
use crate::hexmaps::SideMap;
use crate::hexmaps::VertexMap;
use crate::ids::RoadID;
use crate::ids::SettlePlaceID;
use crate::ids::TileID;
use crate::inverter::derive_settle_place_roads_relations;
use crate::inverter::incident_roads;
use crate::relations::GameState;
use crate::relations::PlayerEntities;
use crate::relations::RoadEntities;
use crate::relations::SettlePlaceEntities;
use crate::relations::TileEntities;
use crate::topology::as_entries;
use crate::topology::corners_ok;
use crate::topology::end_count;
use crate::topology::has_entry;
use crate::topology::roads_ok;
use crate::topology::spec_reachable;
use crate::traversal::spec_traverse;
use crate::traversal::traverse_tiles;
use crate::traversal::TileTraversalResult;
use crate::types::Harbour;
use crate::types::HarbourPlacement;
use crate::types::TileTerrain;

verus! {

/// A map from each tile terrain to a value of type `T`.
#[derive(Debug, Clone, Copy, PartialEq, Eq)]
pub struct TileMap<T> {
    pub field: T,
    pub pasture: T,
    pub forest: T,
    pub mesa: T,
    pub mountains: T,
    pub desert: T,
}

/// The configuration of a given map, as decoded from its stored form.
#[derive(Debug, Clone, PartialEq, Eq)]
pub struct MapConfig {
    /// The amount of each terrain in use in the specified map.
    pub tile_bank: TileMap<u8>,
    /// Width and height of the squared-off map.
    pub map_size: [u8; 2],
    /// Positions of all of the tiles.  The index signifies the tile's
    /// identifier, the value its coordinate on the squared-off map.
    pub tile_placement: Vec<[u8; 2]>,
    /// If randomization is turned off, how the distribution of terrains
    /// lays itself out.
    pub default_tiles: Vec<TileTerrain>,
    /// Terrains which should always be associated with specified tiles and
    /// not randomized when randomization is requested.
    pub fixed_tiles: TileMap<Vec<TileID>>,
    /// The positions of the harbours: the tile each one belongs to and the
    /// side of that tile it is attached to.
    pub harbour_placement: Vec<HarbourPlacement>,
    /// If randomization is turned off, how the distribution of harbours
    /// lays itself out.
    pub default_harbours: Vec<Harbour>,
}

/// Why a map configuration was rejected.
#[derive(Debug, Clone, Copy, PartialEq, Eq, Structural)]
pub enum DecodeConfigError {
    /// The requested number of players lies outside the supported range of
    /// two to four.
    InvalidPlayerCount(u8),
}

/// A map configuration whose placement this crate accepts: a non-empty
/// list of at most 256 distinct positions on a positive-sized board, one
/// terrain per tile, all tiles connected to tile zero through shared
/// sides.
pub open spec fn config_wf(config: MapConfig) -> bool {
    &&& config.map_size[0] > 0
    &&& config.map_size[1] > 0
    &&& 1 <= config.tile_placement@.len() <= 256
    &&& placement_fits(
        config.tile_placement@,
        config.map_size[0] as int,
        config.map_size[1] as int,
    )
    &&& config.default_tiles@.len() == config.tile_placement@.len()
    &&& forall|t: int|
        0 <= t < config.tile_placement@.len() ==> #[trigger] spec_reachable(
            config.tile_placement@,
            t,
        )
}

/// The game state `gs` is the faithful topology of `placement`: one row
/// per tile, settle-place identifiers naming the physical corners and road
/// identifiers the physical edges one-to-one and densely, every road row
/// holding its edge's endpoints, and the settle-place → roads table the
/// exact inversion of the road → endpoints table.
pub open spec fn topology_of(gs: GameState, placement: Seq<[u8; 2]>) -> bool {
    let tsp = as_entries(gs.tile.settle_places@);
    let trd = as_entries(gs.tile.roads@);
    let spc = gs.settle_place.roads@.len() as int;
    &&& gs.tile.settle_places@.len() == placement.len()
    &&& gs.tile.roads@.len() == placement.len()
    &&& corners_ok(placement, tsp, spc)
    &&& roads_ok(placement, tsp, trd, gs.road.settle_places@)
    &&& forall|id: int|
        0 <= id < spc ==> (#[trigger] gs.settle_place.roads@[id])@ == incident_roads(
            gs.road.settle_places@,
            SettlePlaceID(id as u16),
        )
    &&& forall|id: SettlePlaceID| #[trigger] end_count(gs.road.settle_places@, id) <= 3
}

/// Given a map config and a player count, generate the initial game state:
/// the full board topology, the tiles' terrains, and empty player tables.
/// The only rejection is a player count outside two to four.  The topology
/// equals the traversal model's tables — a function of the configuration
/// alone, so decoding the same configuration twice yields identical
/// identifier assignments.
pub fn decode_config(config: MapConfig, player_count: u8) -> (r: Result<
    GameState,
    DecodeConfigError,
>)
    requires
        config_wf(config),
    ensures
        (r is Ok) <==> (2 <= player_count <= 4),
        !(2 <= player_count <= 4) ==> r == Result::<GameState, DecodeConfigError>::Err(
            DecodeConfigError::InvalidPlayerCount(player_count),
        ),
        r matches Ok(gs) ==> ({
            // The tables are exactly the ones the traversal model assigns:
            // the result is a function of the configuration alone.
            let out = spec_traverse(config.tile_placement@);
            &&& as_entries(gs.tile.settle_places@) == out.tsp
            &&& as_entries(gs.tile.roads@) == out.trd
            &&& gs.road.settle_places@ == out.rsp
            &&& gs.settle_place.roads@.len() == out.spc
            &&& topology_of(gs, config.tile_placement@)
            &&& gs.tile.resource@ == config.default_tiles@
            &&& gs.player.placed_roads@.len() == 0
            &&& gs.player.towns@.len() == 0
            &&& gs.player.settlements@.len() == 0
            &&& gs.player.hand@.len() == 0
        }),
{
    if !(2 <= player_count && player_count <= 4) {
        return Err(DecodeConfigError::InvalidPlayerCount(player_count));
    }
    let ghost placement = config.tile_placement@;

    // Until randomization is implemented, just provide the default
    // distribution of terrains.
    let resource = AdjacencyList::from_vec(config.default_tiles);

    let traversal = traverse_tiles(config.map_size, &config.tile_placement);
    let TileTraversalResult {
        tile_settle_places,
        tile_roads,
        road_settle_places,
        settle_places_count,
    } = traversal;
    let ghost tspo = tile_settle_places@;
    let ghost trdo = tile_roads@;
    let ghost rsp = road_settle_places@;

    // The placement is connected, so the traversal reached every tile:
    // strip the per-tile tables down to their present entries.
    let n = config.tile_placement.len();
    proof {
        assert forall|j: int| 0 <= j < n implies has_entry(tspo, j) && has_entry(trdo, j) by {
            assert(spec_reachable(placement, j));
            assert(has_entry(tspo, j));
            assert(tspo[j] is Some);
            assert(trdo[j] is Some);
        }
    }
    let mut settle_rows: AdjacencyList<TileID, VertexMap<SettlePlaceID>> = AdjacencyList::new();
    let mut road_rows: AdjacencyList<TileID, SideMap<RoadID>> = AdjacencyList::new();
    let mut t: usize = 0;
    while t < n
        invariant
            t <= n,
            n == placement.len() <= 256,
            tspo.len() == n,
            trdo.len() == n,
            tile_settle_places@ == tspo,
            tile_roads@ == trdo,
            forall|j: int| 0 <= j < n ==> has_entry(tspo, j) && has_entry(trdo, j),
            settle_rows@.len() == t,
            road_rows@.len() == t,
            forall|j: int| 0 <= j < t ==> #[trigger] settle_rows@[j] == tspo[j]->Some_0,
            forall|j: int| 0 <= j < t ==> #[trigger] road_rows@[j] == trdo[j]->Some_0,
        decreases n - t,
    {
        proof {
            assert(has_entry(tspo, t as int));
            assert(has_entry(trdo, t as int));
        }
        let vm = match tile_settle_places.get(TileID(t as u8)) {
            Some(vm) => *vm,
            None => vstd::pervasive::unreached(),
        };
        let sm = match tile_roads.get(TileID(t as u8)) {
            Some(sm) => *sm,
            None => vstd::pervasive::unreached(),
        };
        settle_rows.push(vm);
        road_rows.push(sm);
        t = t + 1;
    }
    proof {
        assert forall|j: int| 0 <= j < n implies as_entries(settle_rows@)[j] == tspo[j]
            && as_entries(road_rows@)[j] == trdo[j] by {
            assert(settle_rows@.len() == n);
            assert(as_entries(settle_rows@)[j] == Some(settle_rows@[j]));
            assert(as_entries(road_rows@)[j] == Some(road_rows@[j]));
            assert(settle_rows@[j] == tspo[j]->Some_0);
            assert(road_rows@[j] == trdo[j]->Some_0);
            assert(has_entry(tspo, j));
            assert(has_entry(trdo, j));
        }
        assert(as_entries(settle_rows@) =~= tspo);
        assert(as_entries(road_rows@) =~= trdo);
        // Every road row names settle places below the allocation counter.
        crate::topology::lemma_row_endpoints_bounded(
            placement,
            tspo,
            trdo,
            rsp,
            settle_places_count as int,
        );
    }

    let settle_place_roads = derive_settle_place_roads_relations(
        &road_settle_places,
        settle_places_count,
    );

    let map = GameState {
        tile: TileEntities { resource, roads: road_rows, settle_places: settle_rows },
        road: RoadEntities { settle_places: road_settle_places },
        player: PlayerEntities::new(),
        settle_place: SettlePlaceEntities { roads: settle_place_roads },
    };
    Ok(map)
}

} // verus!
