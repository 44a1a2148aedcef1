//! Hex-grid geometry: neighbor coordinates, and a canonical naming of the
//! physical corners and edges of the grid.
//!
//! Tiles sit on an offset grid: within an even row a tile's upper neighbors
//! lie one column to the left of where they lie within an odd row.  A corner
//! of the grid is shared by up to three tiles and an edge by up to two, so
//! neither can be named by a single (tile, vertex) or (tile, side) pair.
//! Instead every physical corner is the `North` or the `South` vertex of
//! exactly one cell coordinate, and every physical edge is the `NorthWest`,
//! `NorthEast` or `East` side of exactly one cell coordinate.  The spec
//! functions [`tile_corner`] and [`tile_edge`] map each local pair to that
//! canonical name; two local pairs denote the same physical corner or edge
//! exactly when their canonical names coincide.

use vstd::prelude::*;
use crate::types::HexSide;
use crate::types::HexVertex;
use crate::hexmaps::SideMap;
use crate::hexmaps::VertexMap;

verus! {

/// Coordinate of the cell adjacent to the cell at `p` across side `s`.
///
/// Rows are offset: moving to an upper or lower neighbor changes the column
/// differently depending on the parity of the row.
pub open spec fn hex_nbr(p: (int, int), s: HexSide) -> (int, int) {
    let x = p.0;
    let y = p.1;
    if y % 2 == 0 {
        match s {
            HexSide::NorthWest => (x - 1, y - 1),
            HexSide::NorthEast => (x, y - 1),
            HexSide::West => (x - 1, y),
            HexSide::East => (x + 1, y),
            HexSide::SouthWest => (x - 1, y + 1),
            HexSide::SouthEast => (x, y + 1),
        }
    } else {
        match s {
            HexSide::NorthWest => (x, y - 1),
            HexSide::NorthEast => (x + 1, y - 1),
            HexSide::West => (x - 1, y),
            HexSide::East => (x + 1, y),
            HexSide::SouthWest => (x, y + 1),
            HexSide::SouthEast => (x + 1, y + 1),
        }
    }
}

/// Canonical name of the physical corner at vertex `v` of the cell at `p`:
/// a cell coordinate together with `false` for that cell's `North` corner or
/// `true` for its `South` corner.
pub open spec fn tile_corner(p: (int, int), v: HexVertex) -> (int, int, bool) {
    match v {
        HexVertex::North => (p.0, p.1, false),
        HexVertex::South => (p.0, p.1, true),
        HexVertex::NorthEast => {
            let q = hex_nbr(p, HexSide::NorthEast);
            (q.0, q.1, true)
        },
        HexVertex::NorthWest => {
            let q = hex_nbr(p, HexSide::NorthWest);
            (q.0, q.1, true)
        },
        HexVertex::SouthEast => {
            let q = hex_nbr(p, HexSide::SouthEast);
            (q.0, q.1, false)
        },
        HexVertex::SouthWest => {
            let q = hex_nbr(p, HexSide::SouthWest);
            (q.0, q.1, false)
        },
    }
}

/// The sides that serve as canonical names for physical edges.
pub open spec fn is_canonical_side(s: HexSide) -> bool {
    s == HexSide::NorthWest || s == HexSide::NorthEast || s == HexSide::East
}

/// Canonical name of the physical edge at side `s` of the cell at `p`: the
/// same edge seen from whichever of its two cells sees it as a `NorthWest`,
/// `NorthEast` or `East` side.
pub open spec fn tile_edge(p: (int, int), s: HexSide) -> (int, int, HexSide) {
    if is_canonical_side(s) {
        (p.0, p.1, s)
    } else {
        let q = hex_nbr(p, s);
        (q.0, q.1, s.spec_opposite())
    }
}

/// For each vertex of a tile, the two (side, vertex) pairs under which the
/// neighboring tiles across those sides see the same physical corner.
pub open spec fn vertex_nbrs(v: HexVertex) -> ((HexSide, HexVertex), (HexSide, HexVertex)) {
    match v {
        HexVertex::North => (
            (HexSide::NorthWest, HexVertex::SouthEast),
            (HexSide::NorthEast, HexVertex::SouthWest),
        ),
        HexVertex::NorthEast => (
            (HexSide::NorthEast, HexVertex::South),
            (HexSide::East, HexVertex::NorthWest),
        ),
        HexVertex::SouthEast => (
            (HexSide::East, HexVertex::SouthWest),
            (HexSide::SouthEast, HexVertex::North),
        ),
        HexVertex::South => (
            (HexSide::SouthEast, HexVertex::NorthWest),
            (HexSide::SouthWest, HexVertex::NorthEast),
        ),
        HexVertex::SouthWest => (
            (HexSide::SouthWest, HexVertex::North),
            (HexSide::West, HexVertex::SouthEast),
        ),
        HexVertex::NorthWest => (
            (HexSide::West, HexVertex::NorthEast),
            (HexSide::NorthWest, HexVertex::South),
        ),
    }
}

/// The tile at `q` sees the corner `(p, v)` under vertex `w`: either the two
/// local pairs are the same pair, or `q` is one of the two neighbors that
/// `vertex_nbrs` names for `v`.
pub open spec fn corner_shared(p: (int, int), v: HexVertex, q: (int, int), w: HexVertex) -> bool {
    ||| (q == p && w == v)
    ||| (q == hex_nbr(p, vertex_nbrs(v).0.0) && w == vertex_nbrs(v).0.1)
    ||| (q == hex_nbr(p, vertex_nbrs(v).1.0) && w == vertex_nbrs(v).1.1)
}

/// The tile at `q` sees the edge `(p, s)` under side `t`: either the same
/// local pair, or the neighbor across `s` under the opposite side.
pub open spec fn edge_shared(p: (int, int), s: HexSide, q: (int, int), t: HexSide) -> bool {
    ||| (q == p && t == s)
    ||| (q == hex_nbr(p, s) && t == s.spec_opposite())
}

/// Two local (cell, vertex) pairs name the same physical corner exactly when
/// `corner_shared` relates them: a corner belongs to at most three cells,
/// and those cells are the ones `vertex_nbrs` points at.
pub proof fn lemma_corner_owners(p: (int, int), v: HexVertex, q: (int, int), w: HexVertex)
    ensures
        (tile_corner(p, v) == tile_corner(q, w)) <==> corner_shared(p, v, q, w),
{
}

/// Two local (cell, side) pairs name the same physical edge exactly when
/// `edge_shared` relates them: an edge belongs to exactly two cells.
pub proof fn lemma_edge_owners(p: (int, int), s: HexSide, q: (int, int), t: HexSide)
    ensures
        (tile_edge(p, s) == tile_edge(q, t)) <==> edge_shared(p, s, q, t),
{
}

/// The six edges of one tile are pairwise distinct physical edges.
pub proof fn lemma_tile_edges_distinct(p: (int, int))
    ensures
        forall|s1: HexSide, s2: HexSide|
            s1 != s2 ==> #[trigger] tile_edge(p, s1) != #[trigger] tile_edge(p, s2),
{
    assert forall|s1: HexSide, s2: HexSide| s1 != s2 implies #[trigger] tile_edge(p, s1)
        != #[trigger] tile_edge(p, s2) by {
        lemma_edge_owners(p, s1, p, s2);
    }
}

/// Canonical name of the corner at the first bounding vertex of edge `e`.
pub open spec fn edge_end_a(e: (int, int, HexSide)) -> (int, int, bool) {
    tile_corner((e.0, e.1), e.2.spec_connected_vertices().0)
}

/// Canonical name of the corner at the second bounding vertex of edge `e`.
pub open spec fn edge_end_b(e: (int, int, HexSide)) -> (int, int, bool) {
    tile_corner((e.0, e.1), e.2.spec_connected_vertices().1)
}

/// The canonical names of the three physical edges that meet at corner `c`.
pub open spec fn corner_edges(c: (int, int, bool)) -> (
    (int, int, HexSide),
    (int, int, HexSide),
    (int, int, HexSide),
) {
    let p = (c.0, c.1);
    if !c.2 {
        // North corner of `p`: its NW and NE sides, and the edge between
        // the two upper neighbors, which the upper-left neighbor sees as
        // its East side.
        let ul = hex_nbr(p, HexSide::NorthWest);
        ((c.0, c.1, HexSide::NorthWest), (c.0, c.1, HexSide::NorthEast), (ul.0, ul.1, HexSide::East))
    } else {
        // South corner of `p`: its SE and SW sides in canonical form, and
        // the edge between the two lower neighbors.
        let dr = hex_nbr(p, HexSide::SouthEast);
        let dl = hex_nbr(p, HexSide::SouthWest);
        ((dr.0, dr.1, HexSide::NorthWest), (dl.0, dl.1, HexSide::NorthEast), (dl.0, dl.1, HexSide::East))
    }
}

/// A corner is an end of an edge exactly when that edge is one of the three
/// edges meeting at the corner.
pub proof fn lemma_corner_edge_incidence(p: (int, int), s: HexSide, c: (int, int, bool))
    ensures
        ({
            let e = tile_edge(p, s);
            (edge_end_a(e) == c || edge_end_b(e) == c) <==> (e == corner_edges(c).0 || e
                == corner_edges(c).1 || e == corner_edges(c).2)
        }),
{
}

/// The three edges meeting at a corner are pairwise distinct.
pub proof fn lemma_corner_edges_distinct(c: (int, int, bool))
    ensures
        corner_edges(c).0 != corner_edges(c).1,
        corner_edges(c).0 != corner_edges(c).2,
        corner_edges(c).1 != corner_edges(c).2,
{
}

/// The two ends of an edge are distinct corners, and they are the corners
/// of the two vertices that the side `s` connects, in some order.
pub proof fn lemma_edge_ends(p: (int, int), s: HexSide)
    ensures
        ({
            let e = tile_edge(p, s);
            let vs = s.spec_connected_vertices();
            &&& edge_end_a(e) != edge_end_b(e)
            &&& ((edge_end_a(e) == tile_corner(p, vs.0) && edge_end_b(e) == tile_corner(p, vs.1))
                || (edge_end_a(e) == tile_corner(p, vs.1) && edge_end_b(e) == tile_corner(
                p,
                vs.0,
            )))
        }),
{
    lemma_side_corners(p, s);
}

/// Across a shared side the bounding vertices correspond in reverse order:
/// the first vertex of `s` meets the second vertex of the opposite side.
pub proof fn lemma_side_corners(p: (int, int), s: HexSide)
    ensures
        ({
            let q = hex_nbr(p, s);
            let vs = s.spec_connected_vertices();
            let ws = s.spec_opposite().spec_connected_vertices();
            tile_corner(p, vs.0) == tile_corner(q, ws.1) && tile_corner(p, vs.1) == tile_corner(
                q,
                ws.0,
            )
        }),
{
}

/// Given the coordinate of a tile, the coordinates of its six neighbors,
/// keyed by the side each neighbor touches.  Coordinates may leave the map
/// (become negative); such positions simply hold no tile.
pub fn neighbor_positions(pos: [u8; 2]) -> (r: SideMap<(i32, i32)>)
    ensures
        forall|s: HexSide|
            (#[trigger] r.spec_get(s).0 as int, r.spec_get(s).1 as int) == hex_nbr(
                (pos[0] as int, pos[1] as int),
                s,
            ),
{
    let x: i32 = pos[0] as i32;
    let y: i32 = pos[1] as i32;
    if y % 2 == 0 {
        SideMap {
            north_west: (x - 1, y - 1),
            north_east: (x, y - 1),
            west: (x - 1, y),
            east: (x + 1, y),
            south_west: (x - 1, y + 1),
            south_east: (x, y + 1),
        }
    } else {
        SideMap {
            north_west: (x, y - 1),
            north_east: (x + 1, y - 1),
            west: (x - 1, y),
            east: (x + 1, y),
            south_west: (x, y + 1),
            south_east: (x + 1, y + 1),
        }
    }
}

/// The mapping of each tile vertex to the pair of (neighboring side,
/// neighbor's local vertex) under which the two adjacent tiles hold the
/// same physical corner.
pub fn settle_places_lookup() -> (r: VertexMap<[(HexSide, HexVertex); 2]>)
    ensures
        forall|v: HexVertex| #[trigger] r.spec_get(v)[0] == vertex_nbrs(v).0,
        forall|v: HexVertex| #[trigger] r.spec_get(v)[1] == vertex_nbrs(v).1,
{
    VertexMap {
        north: [
            (HexSide::NorthWest, HexVertex::SouthEast),
            (HexSide::NorthEast, HexVertex::SouthWest),
        ],
        north_east: [(HexSide::NorthEast, HexVertex::South), (HexSide::East, HexVertex::NorthWest)],
        south_east: [(HexSide::East, HexVertex::SouthWest), (HexSide::SouthEast, HexVertex::North)],
        south: [
            (HexSide::SouthEast, HexVertex::NorthWest),
            (HexSide::SouthWest, HexVertex::NorthEast),
        ],
        south_west: [(HexSide::SouthWest, HexVertex::North), (HexSide::West, HexVertex::SouthEast)],
        north_west: [(HexSide::West, HexVertex::NorthEast), (HexSide::NorthWest, HexVertex::South)],
    }
}

} // verus!
