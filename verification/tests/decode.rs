use catan::decode_config;
use catan::DecodeConfigError;
use catan::MapConfig;
use catan::TileMap;
use catan::hexmaps::SideMap;
use catan::hexmaps::VertexMap;
use catan::ids::RoadID;
use catan::ids::SettlePlaceID;
use catan::ids::TileID;
use catan::types::TileTerrain;

fn one_tile_config() -> MapConfig {
    MapConfig {
        tile_bank: TileMap { field: 0, pasture: 0, forest: 0, mesa: 0, mountains: 0, desert: 1 },
        map_size: [3, 3],
        tile_placement: vec![[1, 1]],
        default_tiles: vec![TileTerrain::Desert],
        fixed_tiles: TileMap {
            field: vec![],
            pasture: vec![],
            forest: vec![],
            mesa: vec![],
            mountains: vec![],
            desert: vec![],
        },
        harbour_placement: vec![],
        default_harbours: vec![],
    }
}

fn three_tile_config() -> MapConfig {
    MapConfig {
        tile_bank: TileMap { field: 0, pasture: 0, forest: 0, mesa: 0, mountains: 0, desert: 3 },
        map_size: [4, 4],
        tile_placement: vec![[1, 1], [2, 1], [2, 2]],
        default_tiles: vec![TileTerrain::Desert, TileTerrain::Desert, TileTerrain::Desert],
        fixed_tiles: TileMap {
            field: vec![],
            pasture: vec![],
            forest: vec![],
            mesa: vec![],
            mountains: vec![],
            desert: vec![],
        },
        harbour_placement: vec![],
        default_harbours: vec![],
    }
}

#[test]
fn decode_one_tile_map() {
    let config = one_tile_config();

    let res = decode_config(config, 2).unwrap();

    assert_eq!(res.tile.resource.len(), 1);
    assert_eq!(*res.tile.resource.get(TileID(0)), TileTerrain::Desert);

    assert_eq!(res.tile.settle_places.len(), 1);
    assert_eq!(
        *res.tile.settle_places.get(TileID(0)),
        VertexMap {
            north_west: SettlePlaceID(1),
            north: SettlePlaceID(0),
            north_east: SettlePlaceID(2),
            south_east: SettlePlaceID(4),
            south: SettlePlaceID(5),
            south_west: SettlePlaceID(3),
        }
    );

    assert_eq!(res.tile.roads.len(), 1);
    assert_eq!(
        *res.tile.roads.get(TileID(0)),
        SideMap {
            north_west: RoadID(0),
            north_east: RoadID(1),
            west: RoadID(2),
            east: RoadID(3),
            south_west: RoadID(4),
            south_east: RoadID(5),
        }
    );

    assert_eq!(res.road.settle_places.len(), 6);
    let expected_roads = [
        [SettlePlaceID(1), SettlePlaceID(0)],
        [SettlePlaceID(0), SettlePlaceID(2)],
        [SettlePlaceID(3), SettlePlaceID(1)],
        [SettlePlaceID(2), SettlePlaceID(4)],
        [SettlePlaceID(5), SettlePlaceID(3)],
        [SettlePlaceID(4), SettlePlaceID(5)],
    ];
    for (k, expected) in expected_roads.iter().enumerate() {
        assert_eq!(*res.road.settle_places.get(RoadID(k as u16)), *expected);
    }

    assert_eq!(res.settle_place.roads.len(), 6);
    let expected_incident = [
        vec![RoadID(0), RoadID(1)],
        vec![RoadID(0), RoadID(2)],
        vec![RoadID(1), RoadID(3)],
        vec![RoadID(2), RoadID(4)],
        vec![RoadID(3), RoadID(5)],
        vec![RoadID(4), RoadID(5)],
    ];
    for (id, expected) in expected_incident.iter().enumerate() {
        assert_eq!(res.settle_place.roads.get(SettlePlaceID(id as u16)).to_vec(), *expected);
    }
}

#[test]
fn decode_three_tile_map() {
    let config = three_tile_config();

    let res = decode_config(config, 2).unwrap();

    assert_eq!(res.tile.resource.len(), 3);
    for t in 0..3u8 {
        assert_eq!(*res.tile.resource.get(TileID(t)), TileTerrain::Desert);
    }

    assert_eq!(res.tile.settle_places.len(), 3);
    assert_eq!(
        *res.tile.settle_places.get(TileID(0)),
        VertexMap {
            north: SettlePlaceID(0),
            north_west: SettlePlaceID(1),
            north_east: SettlePlaceID(2),
            south_west: SettlePlaceID(3),
            south_east: SettlePlaceID(4),
            south: SettlePlaceID(5),
        }
    );
    assert_eq!(
        *res.tile.settle_places.get(TileID(1)),
        VertexMap {
            north: SettlePlaceID(6),
            north_west: SettlePlaceID(2),
            north_east: SettlePlaceID(7),
            south_west: SettlePlaceID(4),
            south_east: SettlePlaceID(8),
            south: SettlePlaceID(9),
        }
    );
    assert_eq!(
        *res.tile.settle_places.get(TileID(2)),
        VertexMap {
            north: SettlePlaceID(4),
            north_west: SettlePlaceID(5),
            north_east: SettlePlaceID(9),
            south_west: SettlePlaceID(10),
            south_east: SettlePlaceID(11),
            south: SettlePlaceID(12),
        }
    );

    assert_eq!(res.tile.roads.len(), 3);
    assert_eq!(
        *res.tile.roads.get(TileID(0)),
        SideMap {
            north_west: RoadID(0),
            north_east: RoadID(1),
            west: RoadID(2),
            east: RoadID(3),
            south_west: RoadID(4),
            south_east: RoadID(5),
        }
    );
    assert_eq!(
        *res.tile.roads.get(TileID(1)),
        SideMap {
            north_west: RoadID(6),
            north_east: RoadID(7),
            west: RoadID(3),
            east: RoadID(8),
            south_west: RoadID(9),
            south_east: RoadID(10),
        }
    );
    assert_eq!(
        *res.tile.roads.get(TileID(2)),
        SideMap {
            north_west: RoadID(5),
            north_east: RoadID(9),
            west: RoadID(11),
            east: RoadID(12),
            south_west: RoadID(13),
            south_east: RoadID(14),
        }
    );
}

#[test]
fn three_tile_counts_match_sharing() {
    // Three mutually adjacent tiles: 13 settle places and 15 roads in all.
    let res = decode_config(three_tile_config(), 2).unwrap();
    assert_eq!(res.settle_place.roads.len(), 13);
    assert_eq!(res.road.settle_places.len(), 15);
    // Tile 1's north-west vertex reuses tile 0's north-east settle place.
    let t0 = *res.tile.settle_places.get(TileID(0));
    let t1 = *res.tile.settle_places.get(TileID(1));
    assert_eq!(t1.north_west, t0.north_east);
}

#[test]
fn decode_rejects_bad_player_counts() {
    for count in [0u8, 1, 5, 6, 255] {
        match decode_config(one_tile_config(), count) {
            Err(e) => assert_eq!(e, DecodeConfigError::InvalidPlayerCount(count)),
            Ok(_) => panic!("player count {count} should be rejected"),
        }
    }
    for count in [2u8, 3, 4] {
        assert!(decode_config(one_tile_config(), count).is_ok());
    }
}

#[test]
fn decode_is_deterministic() {
    // Two runs over the same configuration produce identical topologies.
    let a = decode_config(three_tile_config(), 3).unwrap();
    let b = decode_config(three_tile_config(), 3).unwrap();
    assert_eq!(a.road.settle_places.len(), b.road.settle_places.len());
    assert_eq!(a.settle_place.roads.len(), b.settle_place.roads.len());
    for t in 0..3u8 {
        assert_eq!(
            *a.tile.settle_places.get(TileID(t)),
            *b.tile.settle_places.get(TileID(t))
        );
        assert_eq!(*a.tile.roads.get(TileID(t)), *b.tile.roads.get(TileID(t)));
    }
    for k in 0..a.road.settle_places.len() {
        assert_eq!(
            *a.road.settle_places.get(RoadID(k as u16)),
            *b.road.settle_places.get(RoadID(k as u16))
        );
    }
    for id in 0..a.settle_place.roads.len() {
        assert_eq!(
            a.settle_place.roads.get(SettlePlaceID(id as u16)).to_vec(),
            b.settle_place.roads.get(SettlePlaceID(id as u16)).to_vec()
        );
    }
}

#[test]
fn settle_place_ids_are_dense() {
    // Every identifier below the settle-place count occurs in some tile's
    // vertex table, and likewise for roads; no gaps, no extras.
    let res = decode_config(three_tile_config(), 2).unwrap();
    let settle_count = res.settle_place.roads.len();
    let road_count = res.road.settle_places.len();
    let mut seen_settle = vec![false; settle_count];
    let mut seen_road = vec![false; road_count];
    for t in 0..res.tile.settle_places.len() {
        let vm = *res.tile.settle_places.get(TileID(t as u8));
        for id in [vm.north, vm.north_west, vm.north_east, vm.south_west, vm.south_east, vm.south]
        {
            seen_settle[id.0 as usize] = true;
        }
        let sm = *res.tile.roads.get(TileID(t as u8));
        for rid in [sm.north_west, sm.north_east, sm.west, sm.east, sm.south_west, sm.south_east]
        {
            seen_road[rid.0 as usize] = true;
        }
    }
    assert!(seen_settle.iter().all(|&s| s));
    assert!(seen_road.iter().all(|&s| s));
}

#[test]
fn inversion_is_symmetric() {
    // Every road occurs in the road lists of both of its endpoints.
    let res = decode_config(three_tile_config(), 2).unwrap();
    for k in 0..res.road.settle_places.len() {
        let rid = RoadID(k as u16);
        let ends = *res.road.settle_places.get(rid);
        for end in ends {
            let incident = res.settle_place.roads.get(end).to_vec();
            assert!(incident.contains(&rid));
        }
    }
}

#[test]
fn full_grid_roads_and_corners_agree() {
    // A fully tiled 6x6 board: across every shared side the two tiles
    // store the same road, and the side's two corners carry the same
    // settle places on both tiles (in reverse order across the side).
    let mut placement = Vec::new();
    for y in 0..6u8 {
        for x in 0..6u8 {
            placement.push([x, y]);
        }
    }
    let config = MapConfig {
        tile_bank: TileMap { field: 36, pasture: 0, forest: 0, mesa: 0, mountains: 0, desert: 0 },
        map_size: [6, 6],
        tile_placement: placement.clone(),
        default_tiles: vec![TileTerrain::Field; 36],
        fixed_tiles: TileMap {
            field: vec![],
            pasture: vec![],
            forest: vec![],
            mesa: vec![],
            mountains: vec![],
            desert: vec![],
        },
        harbour_placement: vec![],
        default_harbours: vec![],
    };
    let res = decode_config(config, 4).unwrap();

    let tile_at = |x: i32, y: i32| -> Option<usize> {
        if !(0..6).contains(&x) || !(0..6).contains(&y) {
            return None;
        }
        placement.iter().position(|p| p[0] as i32 == x && p[1] as i32 == y)
    };
    let sides = [
        catan::types::HexSide::NorthWest,
        catan::types::HexSide::NorthEast,
        catan::types::HexSide::West,
        catan::types::HexSide::East,
        catan::types::HexSide::SouthWest,
        catan::types::HexSide::SouthEast,
    ];
    for (t1, pos) in placement.iter().enumerate() {
        let around = catan::geometry::neighbor_positions(*pos);
        for s in sides {
            let (nx, ny) = *around.get(s);
            if let Some(t2) = tile_at(nx, ny) {
                let roads1 = *res.tile.roads.get(TileID(t1 as u8));
                let roads2 = *res.tile.roads.get(TileID(t2 as u8));
                assert_eq!(*roads1.get(s), *roads2.get(s.opposite()));
                let corners1 = *res.tile.settle_places.get(TileID(t1 as u8));
                let corners2 = *res.tile.settle_places.get(TileID(t2 as u8));
                let [v1, v2] = s.connected_vertices();
                let [w1, w2] = s.opposite().connected_vertices();
                assert_eq!(*corners1.get(v1), *corners2.get(w2));
                assert_eq!(*corners1.get(v2), *corners2.get(w1));
            }
        }
    }
    // Each settle place touches at most three roads.
    for id in 0..res.settle_place.roads.len() {
        assert!(res.settle_place.roads.get(SettlePlaceID(id as u16)).len() <= 3);
    }
}
