use catan::adjacency_list::AdjacencyList;
use catan::array_vec::ArrayVec;
use catan::geometry::neighbor_positions;
use catan::geometry::settle_places_lookup;
use catan::grid::derive_2d_map;
use catan::grid::Matrix;
use catan::ids::RoadID;
use catan::ids::SettlePlaceID;
use catan::ids::TileID;
use catan::traversal::traverse_tiles;
use catan::traversal::VisitStatus;
use catan::types::HexSide;
use catan::types::HexVertex;

#[test]
fn array_vec_push_and_read() {
    let mut v: ArrayVec<RoadID, 3> = ArrayVec::new();
    assert_eq!(v.len(), 0);
    v.push(RoadID(4));
    v.push(RoadID(7));
    assert_eq!(v.len(), 2);
    assert_eq!(v.get(0), RoadID(4));
    assert_eq!(v.get(1), RoadID(7));
    assert_eq!(v.to_vec(), vec![RoadID(4), RoadID(7)]);
}

#[test]
fn array_vec_reports_overflow() {
    // Pushing beyond the capacity is reported, never silently truncated.
    let mut v: ArrayVec<RoadID, 3> = ArrayVec::new();
    assert!(v.try_push(RoadID(0)));
    assert!(v.try_push(RoadID(1)));
    assert!(v.try_push(RoadID(2)));
    assert!(!v.try_push(RoadID(3)));
    assert_eq!(v.len(), 3);
    assert_eq!(v.to_vec(), vec![RoadID(0), RoadID(1), RoadID(2)]);
}

#[test]
fn adjacency_list_assigns_dense_ids() {
    let mut list: AdjacencyList<TileID, u32> = AdjacencyList::new();
    assert_eq!(list.len(), 0);
    let a = list.push(10);
    let b = list.push(20);
    assert_eq!(a, TileID(0));
    assert_eq!(b, TileID(1));
    assert_eq!(*list.get(a), 10);
    assert_eq!(*list.get(b), 20);
    list.set(a, 11);
    assert_eq!(*list.get(a), 11);

    let mut iter = list.iter();
    assert_eq!(iter.next(), Some((TileID(0), &11)));
    assert_eq!(iter.next(), Some((TileID(1), &20)));
    assert_eq!(iter.next(), None);
}

#[test]
fn adjacency_list_from_vec_keys_by_index() {
    let list: AdjacencyList<SettlePlaceID, char> = AdjacencyList::from_vec(vec!['a', 'b', 'c']);
    assert_eq!(list.len(), 3);
    assert_eq!(*list.get(SettlePlaceID(2)), 'c');
}

#[test]
fn matrix_indexes_row_major() {
    let m: Matrix<u8> = Matrix::from_vec(vec![1, 2, 3, 4, 5, 6], 3);
    assert_eq!(m.get(0, 0), Some(&1));
    assert_eq!(m.get(2, 1), Some(&6));
    assert_eq!(m.get(3, 0), None);
    assert_eq!(m.get(0, 2), None);
    assert_eq!(m.get(-1, 0), None);
}

#[test]
fn grid_inverts_placement() {
    let placement = vec![[1, 1], [2, 1]];
    let grid = derive_2d_map([4, 4], &placement);
    assert_eq!(grid.get(1, 1), Some(&Some(TileID(0))));
    assert_eq!(grid.get(2, 1), Some(&Some(TileID(1))));
    assert_eq!(grid.get(0, 0), Some(&None));
    assert_eq!(grid.get(-1, 2), None);
    assert_eq!(grid.get(4, 0), None);
}

#[test]
fn opposite_is_an_involution() {
    let sides = [
        HexSide::NorthWest,
        HexSide::NorthEast,
        HexSide::West,
        HexSide::East,
        HexSide::SouthWest,
        HexSide::SouthEast,
    ];
    for s in sides {
        assert_eq!(s.opposite().opposite(), s);
    }
    assert_eq!(HexSide::NorthWest.opposite(), HexSide::SouthEast);
    assert_eq!(HexSide::West.opposite(), HexSide::East);
}

#[test]
fn connected_vertices_bound_each_side() {
    assert_eq!(
        HexSide::NorthWest.connected_vertices(),
        [HexVertex::NorthWest, HexVertex::North]
    );
    assert_eq!(
        HexSide::East.connected_vertices(),
        [HexVertex::NorthEast, HexVertex::SouthEast]
    );
    assert_eq!(
        HexSide::SouthWest.connected_vertices(),
        [HexVertex::South, HexVertex::SouthWest]
    );
}

#[test]
fn neighbor_positions_depend_on_row_parity() {
    // Even row: the upper neighbors sit one column to the left.
    let even = neighbor_positions([2, 2]);
    assert_eq!(*even.get(HexSide::NorthWest), (1, 1));
    assert_eq!(*even.get(HexSide::NorthEast), (2, 1));
    assert_eq!(*even.get(HexSide::West), (1, 2));
    assert_eq!(*even.get(HexSide::East), (3, 2));
    assert_eq!(*even.get(HexSide::SouthWest), (1, 3));
    assert_eq!(*even.get(HexSide::SouthEast), (2, 3));
    // Odd row: they sit straight above and to the right.
    let odd = neighbor_positions([2, 1]);
    assert_eq!(*odd.get(HexSide::NorthWest), (2, 0));
    assert_eq!(*odd.get(HexSide::NorthEast), (3, 0));
    assert_eq!(*odd.get(HexSide::SouthWest), (2, 2));
    assert_eq!(*odd.get(HexSide::SouthEast), (3, 2));
    // Coordinates may leave the map and become negative.
    let corner = neighbor_positions([0, 0]);
    assert_eq!(*corner.get(HexSide::NorthWest), (-1, -1));
    assert_eq!(*corner.get(HexSide::West), (-1, 0));
}

#[test]
fn lookup_pairs_share_the_corner() {
    let lookup = settle_places_lookup();
    assert_eq!(
        *lookup.get(HexVertex::North),
        [
            (HexSide::NorthWest, HexVertex::SouthEast),
            (HexSide::NorthEast, HexVertex::SouthWest),
        ]
    );
    assert_eq!(
        *lookup.get(HexVertex::NorthEast),
        [(HexSide::NorthEast, HexVertex::South), (HexSide::East, HexVertex::NorthWest)]
    );
}

#[test]
fn visit_status_not_visited_projects() {
    let some = VisitStatus::NotVisited(TileID(3), [1, 2]);
    assert_eq!(some.not_visited(), Some((TileID(3), [1, 2])));
    assert_eq!(VisitStatus::Processed(TileID(3)).not_visited(), None);
    assert_eq!(VisitStatus::NotATile.not_visited(), None);
}

#[test]
fn traversal_never_reaches_disconnected_tiles() {
    // Two placements with no shared side: the traversal from tile 0 never
    // reaches the second tile, which stays without tables.
    let placement = vec![[1, 1], [3, 3]];
    let res = traverse_tiles([6, 6], &placement);
    assert!(res.tile_settle_places.get(TileID(0)).is_some());
    assert!(res.tile_settle_places.get(TileID(1)).is_none());
    assert!(res.tile_roads.get(TileID(1)).is_none());
    // The reached tile alone accounts for all settle places and roads.
    assert_eq!(res.settle_places_count, 6);
    assert_eq!(res.road_settle_places.len(), 6);
}

#[test]
fn traversal_single_tile_makes_six_of_each() {
    let placement = vec![[1, 1]];
    let res = traverse_tiles([3, 3], &placement);
    assert_eq!(res.settle_places_count, 6);
    assert_eq!(res.road_settle_places.len(), 6);
    let vm = res.tile_settle_places.get(TileID(0)).unwrap();
    assert_eq!(vm.north, SettlePlaceID(0));
    assert_eq!(vm.south, SettlePlaceID(5));
}
