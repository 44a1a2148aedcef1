//! The topology builder: a breadth-first traversal of the placed tiles
//! that fills in the relations between tiles, roads and settle places,
//! assigning each physical corner and edge exactly one identifier no
//! matter which of its owning tiles is visited first.
//!
//! The traversal has a complete model on the specification side: the
//! spec functions around [`spec_traverse`] replay the same breadth-first
//! walk — queue seeded with tile `0`, sides visited in the fixed order
//! NW, NE, W, E, SW, SE, vertices in the fixed order N, NW, NE, SW, SE, S
//! — and [`traverse_tiles`] is proved to return exactly the model's
//! tables, which pins every identifier bit for bit.

use vstd::prelude::*;
use crate::adjacency_list::AdjacencyList;
use crate::geometry::corner_shared;
use crate::geometry::edge_shared;
use crate::geometry::hex_nbr;
use crate::geometry::neighbor_positions;
use crate::geometry::tile_corner;
use crate::geometry::tile_edge;
use crate::geometry::vertex_nbrs;
use crate::grid::derive_2d_map;
use crate::grid::grid_matches;
use crate::grid::placement_distinct;
use crate::grid::placement_fits;
use crate::grid::placement_pos;
use crate::grid::Matrix;
use crate::hexmaps::SideMap;
use crate::hexmaps::VertexMap;
use crate::ids::RoadID;
use crate::ids::SettlePlaceID;
use crate::ids::TileID;
use crate::topology::alloc_set;
use crate::topology::corner_id;
use crate::topology::corners_ok;
use crate::topology::count_some;
use crate::topology::counts_ok;
use crate::topology::edge_allocated;
use crate::topology::end_count;
use crate::topology::has_entry;
use crate::topology::road_id;
use crate::topology::roads_ok;
use crate::topology::side_choice;
use crate::topology::vertex_choice;
use crate::types::HexSide;
use crate::types::HexVertex;

verus! {

/// What the traversal knows about the cell on one side of the tile it is
/// processing.
#[derive(Debug, Clone, Copy)]
pub enum VisitStatus {
    /// A tile lives there and has already been processed.
    Processed(TileID),
    /// A tile lives there, at the recorded position, but has not been
    /// processed yet.
    NotVisited(TileID, [u8; 2]),
    /// No tile lives there.
    NotATile,
}

impl VisitStatus {
    /// The tile and position of a not-yet-visited neighbor.
    pub open spec fn spec_not_visited(self) -> Option<(TileID, [u8; 2])> {
        match self {
            VisitStatus::NotVisited(id, pos) => Some((id, pos)),
            _ => None,
        }
    }

    /// The tile and position of a not-yet-visited neighbor.
    pub fn not_visited(self) -> (r: Option<(TileID, [u8; 2])>)
        ensures
            r == self.spec_not_visited(),
    {
        if let VisitStatus::NotVisited(id, pos) = self {
            Some((id, pos))
        } else {
            None
        }
    }
}

/// The status `st` correctly describes, against the processed-markers of
/// `table`, the cell adjacent to `p` across side `s`.
pub open spec fn status_ok<A>(
    placement: Seq<[u8; 2]>,
    table: Seq<Option<A>>,
    p: (int, int),
    s: HexSide,
    st: VisitStatus,
) -> bool {
    match st {
        VisitStatus::Processed(u) => {
            &&& 0 <= u.0 < placement.len()
            &&& has_entry(table, u.0 as int)
            &&& placement_pos(placement, u.0 as int) == hex_nbr(p, s)
        },
        VisitStatus::NotVisited(u, q) => {
            &&& 0 <= u.0 < placement.len()
            &&& !has_entry(table, u.0 as int)
            &&& placement_pos(placement, u.0 as int) == hex_nbr(p, s)
            &&& q == placement[u.0 as int]
        },
        VisitStatus::NotATile => forall|j: int|
            0 <= j < placement.len() ==> placement_pos(placement, j) != hex_nbr(p, s),
    }
}

/// The tile of the placement list occupying cell `q`, if any.  Under
/// `placement_distinct` at most one tile can.
pub open spec fn tile_at(placement: Seq<[u8; 2]>, q: (int, int)) -> Option<int> {
    if exists|i: int| 0 <= i < placement.len() && placement_pos(placement, i) == q {
        Some(choose|i: int| 0 <= i < placement.len() && placement_pos(placement, i) == q)
    } else {
        None
    }
}

/// What the traversal, in a state with processed-markers `table`, sees in
/// cell `q`.
pub open spec fn spec_classify<A>(
    placement: Seq<[u8; 2]>,
    table: Seq<Option<A>>,
    q: (int, int),
) -> VisitStatus {
    match tile_at(placement, q) {
        Some(u) => if has_entry(table, u) {
            VisitStatus::Processed(TileID(u as u8))
        } else {
            VisitStatus::NotVisited(TileID(u as u8), placement[u])
        },
        None => VisitStatus::NotATile,
    }
}

/// The settle-place identifier the traversal picks for vertex `v` of tile
/// `t`, together with the allocation counter afterwards: copied from the
/// first processed neighbor named by `vertex_nbrs`, else freshly allocated.
pub open spec fn spec_vertex_id(
    placement: Seq<[u8; 2]>,
    tsp: Seq<Option<VertexMap<SettlePlaceID>>>,
    t: int,
    v: HexVertex,
    spc: int,
) -> (SettlePlaceID, int) {
    let p = placement_pos(placement, t);
    let a = spec_classify(placement, tsp, hex_nbr(p, vertex_nbrs(v).0.0));
    let b = spec_classify(placement, tsp, hex_nbr(p, vertex_nbrs(v).1.0));
    if a is Processed {
        (corner_id(tsp, a->Processed_0.0 as int, vertex_nbrs(v).0.1), spc)
    } else if b is Processed {
        (corner_id(tsp, b->Processed_0.0 as int, vertex_nbrs(v).1.1), spc)
    } else {
        (SettlePlaceID(spc as u16), spc + 1)
    }
}

/// The vertex table the traversal builds for tile `t`, deciding the six
/// vertices in the fixed order N, NW, NE, SW, SE, S, and the allocation
/// counter afterwards.
pub open spec fn spec_vertices(
    placement: Seq<[u8; 2]>,
    tsp: Seq<Option<VertexMap<SettlePlaceID>>>,
    t: int,
    spc: int,
) -> (VertexMap<SettlePlaceID>, int) {
    let rn = spec_vertex_id(placement, tsp, t, HexVertex::North, spc);
    let rnw = spec_vertex_id(placement, tsp, t, HexVertex::NorthWest, rn.1);
    let rne = spec_vertex_id(placement, tsp, t, HexVertex::NorthEast, rnw.1);
    let rsw = spec_vertex_id(placement, tsp, t, HexVertex::SouthWest, rne.1);
    let rse = spec_vertex_id(placement, tsp, t, HexVertex::SouthEast, rsw.1);
    let rs = spec_vertex_id(placement, tsp, t, HexVertex::South, rse.1);
    (
        VertexMap {
            north: rn.0,
            north_west: rnw.0,
            north_east: rne.0,
            south_west: rsw.0,
            south_east: rse.0,
            south: rs.0,
        },
        rs.1,
    )
}

/// The road identifier the traversal picks for side `s` of tile `t`, and
/// the road table afterwards: copied from the processed neighbor across
/// `s`, else freshly allocated together with its endpoint row.
pub open spec fn spec_side(
    placement: Seq<[u8; 2]>,
    tsp: Seq<Option<VertexMap<SettlePlaceID>>>,
    trd: Seq<Option<SideMap<RoadID>>>,
    t: int,
    s: HexSide,
    rsp: Seq<[SettlePlaceID; 2]>,
) -> (RoadID, Seq<[SettlePlaceID; 2]>) {
    let p = placement_pos(placement, t);
    let st = spec_classify(placement, trd, hex_nbr(p, s));
    if st is Processed {
        (road_id(trd, st->Processed_0.0 as int, s.spec_opposite()), rsp)
    } else {
        let vs = s.spec_connected_vertices();
        (
            RoadID(rsp.len() as u16),
            rsp.push([corner_id(tsp, t, vs.0), corner_id(tsp, t, vs.1)]),
        )
    }
}

/// The side table the traversal builds for tile `t`, deciding the six
/// sides in the fixed order NW, NE, W, E, SW, SE, and the road table
/// afterwards.
pub open spec fn spec_sides(
    placement: Seq<[u8; 2]>,
    tsp: Seq<Option<VertexMap<SettlePlaceID>>>,
    trd: Seq<Option<SideMap<RoadID>>>,
    t: int,
    rsp: Seq<[SettlePlaceID; 2]>,
) -> (SideMap<RoadID>, Seq<[SettlePlaceID; 2]>) {
    let rnw = spec_side(placement, tsp, trd, t, HexSide::NorthWest, rsp);
    let rne = spec_side(placement, tsp, trd, t, HexSide::NorthEast, rnw.1);
    let rw = spec_side(placement, tsp, trd, t, HexSide::West, rne.1);
    let re = spec_side(placement, tsp, trd, t, HexSide::East, rw.1);
    let rsw = spec_side(placement, tsp, trd, t, HexSide::SouthWest, re.1);
    let rse = spec_side(placement, tsp, trd, t, HexSide::SouthEast, rsw.1);
    (
        SideMap {
            north_west: rnw.0,
            north_east: rne.0,
            west: rw.0,
            east: re.0,
            south_west: rsw.0,
            south_east: rse.0,
        },
        rse.1,
    )
}

/// The queue entry one side of tile `t` contributes: the neighbor across
/// it, when that neighbor exists and is not yet processed.
pub open spec fn spec_nbr_entry(
    placement: Seq<[u8; 2]>,
    tsp: Seq<Option<VertexMap<SettlePlaceID>>>,
    t: int,
    s: HexSide,
) -> Seq<(TileID, [u8; 2])> {
    match spec_classify(placement, tsp, hex_nbr(placement_pos(placement, t), s)) {
        VisitStatus::NotVisited(u, q) => seq![(u, q)],
        _ => Seq::empty(),
    }
}

/// The unvisited neighbors of tile `t`, in the fixed side order.
pub open spec fn spec_nbrs(
    placement: Seq<[u8; 2]>,
    tsp: Seq<Option<VertexMap<SettlePlaceID>>>,
    t: int,
) -> Seq<(TileID, [u8; 2])> {
    spec_nbr_entry(placement, tsp, t, HexSide::NorthWest) + spec_nbr_entry(
        placement,
        tsp,
        t,
        HexSide::NorthEast,
    ) + spec_nbr_entry(placement, tsp, t, HexSide::West) + spec_nbr_entry(
        placement,
        tsp,
        t,
        HexSide::East,
    ) + spec_nbr_entry(placement, tsp, t, HexSide::SouthWest) + spec_nbr_entry(
        placement,
        tsp,
        t,
        HexSide::SouthEast,
    )
}

/// The complete state of the traversal, as its model sees it.
pub struct BfsState {
    pub tsp: Seq<Option<VertexMap<SettlePlaceID>>>,
    pub trd: Seq<Option<SideMap<RoadID>>>,
    pub rsp: Seq<[SettlePlaceID; 2]>,
    pub spc: int,
    pub queue: Seq<(TileID, [u8; 2])>,
    pub head: int,
}

/// The traversal state with the given components.
pub open spec fn bfs_state_of(
    tsp: Seq<Option<VertexMap<SettlePlaceID>>>,
    trd: Seq<Option<SideMap<RoadID>>>,
    rsp: Seq<[SettlePlaceID; 2]>,
    spc: int,
    queue: Seq<(TileID, [u8; 2])>,
    head: int,
) -> BfsState {
    BfsState { tsp, trd, rsp, spc, queue, head }
}

/// A state the traversal can actually be in: tables of one row per tile,
/// the cursor within the queue, and every queue entry a valid tile with
/// its recorded position.
pub open spec fn bfs_wf(placement: Seq<[u8; 2]>, st: BfsState) -> bool {
    &&& st.tsp.len() == placement.len()
    &&& st.trd.len() == placement.len()
    &&& 0 <= st.head <= st.queue.len()
    &&& forall|k: int|
        0 <= k < st.queue.len() ==> ((#[trigger] st.queue[k]).0.0 as int) < placement.len()
            && st.queue[k].1 == placement[st.queue[k].0.0 as int]
}

/// One processing step of the traversal on the unprocessed tile `t`: its
/// vertex and side tables are decided and installed, and its unvisited
/// neighbors join the queue.
pub open spec fn spec_step(placement: Seq<[u8; 2]>, st: BfsState, t: int) -> BfsState {
    let vr = spec_vertices(placement, st.tsp, t, st.spc);
    let tsp1 = st.tsp.update(t, Some(vr.0));
    let sr = spec_sides(placement, tsp1, st.trd, t, st.rsp);
    BfsState {
        tsp: tsp1,
        trd: st.trd.update(t, Some(sr.0)),
        rsp: sr.1,
        spc: vr.1,
        queue: st.queue + spec_nbrs(placement, st.tsp, t),
        head: st.head + 1,
    }
}

/// Run the traversal to completion from state `st`: pop the head of the
/// queue, skip it if already processed, otherwise process it, until the
/// queue is exhausted.
pub open spec fn spec_bfs(placement: Seq<[u8; 2]>, st: BfsState) -> BfsState
    decreases placement.len() - count_some(st.tsp), st.queue.len() - st.head,
        when bfs_wf(placement, st)
        via spec_bfs_decreases
{
    if st.head >= st.queue.len() {
        st
    } else {
        let t = st.queue[st.head].0.0 as int;
        if has_entry(st.tsp, t) {
            spec_bfs(
                placement,
                BfsState {
                    tsp: st.tsp,
                    trd: st.trd,
                    rsp: st.rsp,
                    spc: st.spc,
                    queue: st.queue,
                    head: st.head + 1,
                },
            )
        } else {
            spec_bfs(placement, spec_step(placement, st, t))
        }
    }
}

#[via_fn]
proof fn spec_bfs_decreases(placement: Seq<[u8; 2]>, st: BfsState) {
    crate::topology::lemma_count_some_bounds(st.tsp);
    if st.head < st.queue.len() {
        let t = st.queue[st.head].0.0 as int;
        if !has_entry(st.tsp, t) {
            crate::topology::lemma_count_some_missing(st.tsp, t);
            crate::topology::lemma_count_some_update(
                st.tsp,
                t,
                spec_vertices(placement, st.tsp, t, st.spc).0,
            );
        }
    }
}

/// The state the traversal starts from: empty tables and tile `0` queued.
pub open spec fn init_state(placement: Seq<[u8; 2]>) -> BfsState {
    BfsState {
        tsp: Seq::new(placement.len(), |i: int| None),
        trd: Seq::new(placement.len(), |i: int| None),
        rsp: Seq::empty(),
        spc: 0,
        queue: seq![(TileID(0), placement[0])],
        head: 0,
    }
}

/// The finished traversal of `placement`: the unique tables the
/// breadth-first construction assigns.  This function of the placement
/// alone is what [`traverse_tiles`] computes.
pub open spec fn spec_traverse(placement: Seq<[u8; 2]>) -> BfsState {
    spec_bfs(placement, init_state(placement))
}

/// Classify the cell adjacent to `p` across one side: processed tile,
/// unvisited tile, or no tile at all.
fn classify_side(
    grid: &Matrix<Option<TileID>>,
    tsp: &Vec<Option<VertexMap<SettlePlaceID>>>,
    nx: i32,
    ny: i32,
    Ghost(placement): Ghost<Seq<[u8; 2]>>,
    Ghost(p): Ghost<(int, int)>,
    Ghost(s): Ghost<HexSide>,
) -> (st: VisitStatus)
    requires
        grid_matches(grid, grid.spec_width(), grid.spec_height(), placement),
        placement_fits(placement, grid.spec_width(), grid.spec_height()),
        grid.spec_width() <= 256,
        grid.spec_height() <= 256,
        tsp@.len() == placement.len(),
        (nx as int, ny as int) == hex_nbr(p, s),
    ensures
        status_ok(placement, tsp@, p, s, st),
        st == spec_classify(placement, tsp@, hex_nbr(p, s)),
{
    match grid.get(nx, ny) {
        Some(cell) => match *cell {
            Some(u) => {
                proof {
                    let q = (nx as int, ny as int);
                    assert(placement_pos(placement, u.0 as int) == q);
                    let w = choose|i: int|
                        0 <= i < placement.len() && placement_pos(placement, i) == q;
                    assert(w == u.0 as int);
                    assert(tile_at(placement, q) == Some(u.0 as int));
                    assert(TileID((u.0 as int) as u8) == u);
                }
                if tsp[u.0 as usize].is_some() {
                    VisitStatus::Processed(u)
                } else {
                    let q = [nx as u8, ny as u8];
                    proof {
                        assert(q =~= placement[u.0 as int]);
                    }
                    VisitStatus::NotVisited(u, q)
                }
            },
            None => {
                proof {
                    assert forall|j: int|
                        0 <= j < placement.len() implies placement_pos(placement, j) != hex_nbr(
                        p,
                        s,
                    ) by {
                        if placement_pos(placement, j) == (nx as int, ny as int) {
                            assert(grid.spec_at(
                                placement_pos(placement, j).0,
                                placement_pos(placement, j).1,
                            ) == Some(TileID(j as u8)));
                        }
                    }
                }
                VisitStatus::NotATile
            },
        },
        None => {
            proof {
                assert forall|j: int|
                    0 <= j < placement.len() implies placement_pos(placement, j) != hex_nbr(
                    p,
                    s,
                ) by {
                    assert(placement_pos(placement, j).0 < grid.spec_width());
                    assert(placement_pos(placement, j).1 < grid.spec_height());
                }
            }
            VisitStatus::NotATile
        },
    }
}

/// Read the settle-place identifier a processed tile stores for vertex `w`.
fn copy_corner(
    tsp: &Vec<Option<VertexMap<SettlePlaceID>>>,
    u: TileID,
    w: HexVertex,
) -> (id: SettlePlaceID)
    requires
        (u.0 as int) < tsp@.len(),
        has_entry(tsp@, u.0 as int),
    ensures
        id == corner_id(tsp@, u.0 as int, w),
{
    match &tsp[u.0 as usize] {
        Some(vm) => *vm.get(w),
        None => vstd::pervasive::unreached(),
    }
}

/// Read the road identifier a processed tile stores for side `s`.
fn copy_road(trd: &Vec<Option<SideMap<RoadID>>>, u: TileID, s: HexSide) -> (rid: RoadID)
    requires
        (u.0 as int) < trd@.len(),
        has_entry(trd@, u.0 as int),
    ensures
        rid == road_id(trd@, u.0 as int, s),
{
    match &trd[u.0 as usize] {
        Some(sm) => *sm.get(s),
        None => vstd::pervasive::unreached(),
    }
}

/// Decide the settle-place identifier for one vertex of the tile being
/// processed: copy it from a processed neighbor that shares the corner, or
/// allocate the next fresh identifier.
fn decide_vertex(
    tsp: &Vec<Option<VertexMap<SettlePlaceID>>>,
    st_a: VisitStatus,
    st_b: VisitStatus,
    w1: HexVertex,
    w2: HexVertex,
    spc: &mut u16,
    Ghost(placement): Ghost<Seq<[u8; 2]>>,
    Ghost(t): Ghost<int>,
    Ghost(v): Ghost<HexVertex>,
) -> (id: SettlePlaceID)
    requires
        tsp@.len() == placement.len(),
        placement_distinct(placement),
        forall|t2: int, v2: HexVertex|
            has_entry(tsp@, t2) ==> (#[trigger] corner_id(tsp@, t2, v2)).0 < *old(spc),
        0 <= t < placement.len(),
        !has_entry(tsp@, t),
        vertex_nbrs(v).0.1 == w1,
        vertex_nbrs(v).1.1 == w2,
        status_ok(placement, tsp@, placement_pos(placement, t), vertex_nbrs(v).0.0, st_a),
        status_ok(placement, tsp@, placement_pos(placement, t), vertex_nbrs(v).1.0, st_b),
        st_a == spec_classify(
            placement,
            tsp@,
            hex_nbr(placement_pos(placement, t), vertex_nbrs(v).0.0),
        ),
        st_b == spec_classify(
            placement,
            tsp@,
            hex_nbr(placement_pos(placement, t), vertex_nbrs(v).1.0),
        ),
        *old(spc) < 65535,
    ensures
        ({
            let r = spec_vertex_id(placement, tsp@, t, v, *old(spc) as int);
            id == r.0 && *final(spc) as int == r.1
        }),
        *final(spc) == *old(spc) || *final(spc) == *old(spc) + 1,
        *final(spc) == *old(spc) + 1 ==> ({
            &&& id.0 == *old(spc)
            &&& forall|t2: int, v2: HexVertex|
                has_entry(tsp@, t2) ==> #[trigger] tile_corner(placement_pos(placement, t2), v2)
                    != tile_corner(placement_pos(placement, t), v)
        }),
        *final(spc) == *old(spc) ==> ({
            &&& id.0 < *old(spc)
            &&& exists|t2: int, v2: HexVertex|
                has_entry(tsp@, t2) && #[trigger] tile_corner(placement_pos(placement, t2), v2)
                    == tile_corner(placement_pos(placement, t), v) && id == corner_id(tsp@, t2, v2)
        }),
{
    let ghost pt = placement_pos(placement, t);
    let ghost s1 = vertex_nbrs(v).0.0;
    let ghost s2 = vertex_nbrs(v).1.0;
    if let VisitStatus::Processed(u) = st_a {
        let id = copy_corner(tsp, u, w1);
        proof {
            let pu = placement_pos(placement, u.0 as int);
            crate::geometry::lemma_corner_owners(pt, v, pu, w1);
            assert(corner_shared(pt, v, pu, w1));
            assert(tile_corner(pu, w1) == tile_corner(pt, v));
        }
        id
    } else if let VisitStatus::Processed(u) = st_b {
        let id = copy_corner(tsp, u, w2);
        proof {
            let pu = placement_pos(placement, u.0 as int);
            crate::geometry::lemma_corner_owners(pt, v, pu, w2);
            assert(corner_shared(pt, v, pu, w2));
            assert(tile_corner(pu, w2) == tile_corner(pt, v));
        }
        id
    } else {
        let id = SettlePlaceID(*spc);
        *spc = *spc + 1;
        proof {
            assert forall|t2: int, v2: HexVertex|
                has_entry(tsp@, t2) implies #[trigger] tile_corner(
                placement_pos(placement, t2),
                v2,
            ) != tile_corner(pt, v) by {
                let p2 = placement_pos(placement, t2);
                if tile_corner(p2, v2) == tile_corner(pt, v) {
                    crate::geometry::lemma_corner_owners(pt, v, p2, v2);
                    assert(corner_shared(pt, v, p2, v2));
                    if p2 == pt {
                        assert(t2 == t);
                    } else if p2 == hex_nbr(pt, s1) && v2 == w1 {
                        assert(false);
                    } else {
                        assert(p2 == hex_nbr(pt, s2) && v2 == w2);
                        assert(false);
                    }
                }
            }
        }
        id
    }
}

/// Decide the road identifier for one side of the tile being processed:
/// copy it from the processed neighbor across that side, or allocate a new
/// road connecting the side's two settle places.
fn decide_side(
    tsp: &Vec<Option<VertexMap<SettlePlaceID>>>,
    trd: &Vec<Option<SideMap<RoadID>>>,
    st: VisitStatus,
    s: HexSide,
    a: SettlePlaceID,
    b: SettlePlaceID,
    rsp: &mut Vec<[SettlePlaceID; 2]>,
    Ghost(placement): Ghost<Seq<[u8; 2]>>,
    Ghost(t): Ghost<int>,
) -> (rid: RoadID)
    requires
        tsp@.len() == placement.len(),
        trd@.len() == placement.len(),
        placement_distinct(placement),
        forall|t2: int, s2: HexSide|
            has_entry(trd@, t2) ==> (#[trigger] road_id(trd@, t2, s2)).0 < old(rsp)@.len(),
        0 <= t < placement.len(),
        !has_entry(trd@, t),
        has_entry(tsp@, t),
        a == corner_id(tsp@, t, s.spec_connected_vertices().0),
        b == corner_id(tsp@, t, s.spec_connected_vertices().1),
        status_ok(placement, trd@, placement_pos(placement, t), s, st),
        st == spec_classify(placement, trd@, hex_nbr(placement_pos(placement, t), s)),
        old(rsp)@.len() < 65535,
    ensures
        ({
            let r = spec_side(placement, tsp@, trd@, t, s, old(rsp)@);
            rid == r.0 && final(rsp)@ == r.1
        }),
        final(rsp)@.len() == old(rsp)@.len() || final(rsp)@.len() == old(rsp)@.len() + 1,
        forall|k: int| 0 <= k < old(rsp)@.len() ==> final(rsp)@[k] == old(rsp)@[k],
        final(rsp)@.len() == old(rsp)@.len() + 1 ==> ({
            &&& rid.0 == old(rsp)@.len()
            &&& final(rsp)@.last() == [a, b]
            &&& forall|t2: int, s2: HexSide|
                has_entry(trd@, t2) ==> #[trigger] tile_edge(placement_pos(placement, t2), s2)
                    != tile_edge(placement_pos(placement, t), s)
        }),
        final(rsp)@.len() == old(rsp)@.len() ==> ({
            &&& rid.0 < old(rsp)@.len()
            &&& exists|t2: int, s2: HexSide|
                has_entry(trd@, t2) && #[trigger] tile_edge(placement_pos(placement, t2), s2)
                    == tile_edge(placement_pos(placement, t), s) && rid == road_id(trd@, t2, s2)
        }),
{
    let ghost pt = placement_pos(placement, t);
    if let VisitStatus::Processed(u) = st {
        let rid = copy_road(trd, u, s.opposite());
        proof {
            let pu = placement_pos(placement, u.0 as int);
            crate::geometry::lemma_edge_owners(pt, s, pu, s.spec_opposite());
            assert(edge_shared(pt, s, pu, s.spec_opposite()));
            assert(tile_edge(pu, s.spec_opposite()) == tile_edge(pt, s));
        }
        rid
    } else {
        let rid = RoadID(rsp.len() as u16);
        rsp.push([a, b]);
        proof {
            assert forall|t2: int, s2: HexSide|
                has_entry(trd@, t2) implies #[trigger] tile_edge(placement_pos(placement, t2), s2)
                != tile_edge(pt, s) by {
                let p2 = placement_pos(placement, t2);
                if tile_edge(p2, s2) == tile_edge(pt, s) {
                    crate::geometry::lemma_edge_owners(pt, s, p2, s2);
                    assert(edge_shared(pt, s, p2, s2));
                    if p2 == pt {
                        assert(t2 == t);
                    } else {
                        assert(p2 == hex_nbr(pt, s) && s2 == s.spec_opposite());
                        assert(false);
                    }
                }
            }
        }
        rid
    }
}

/// An entry of the neighbor list produced while processing tile `t`: a
/// valid, not yet processed tile adjacent to `t`, with its position.
pub open spec fn nbr_entry_ok(
    placement: Seq<[u8; 2]>,
    tsp0: Seq<Option<VertexMap<SettlePlaceID>>>,
    entry: (TileID, [u8; 2]),
    t: int,
) -> bool {
    &&& 0 <= entry.0.0 < placement.len()
    &&& entry.1 == placement[entry.0.0 as int]
    &&& !has_entry(tsp0, entry.0.0 as int)
    &&& crate::topology::adjacent_tiles(placement, t, entry.0.0 as int)
}

/// Tile `j` occurs in the list of tiles to enqueue.
pub open spec fn in_list(nbrs: Seq<(TileID, [u8; 2])>, j: int) -> bool {
    exists|k: int| 0 <= k < nbrs.len() && (#[trigger] nbrs[k]).0.0 as int == j
}

/// Membership in a list survives appending to it.
proof fn lemma_in_list_mono(nbrs0: Seq<(TileID, [u8; 2])>, nbrs1: Seq<(TileID, [u8; 2])>, j: int)
    requires
        in_list(nbrs0, j),
        nbrs0.len() <= nbrs1.len(),
        forall|k: int| 0 <= k < nbrs0.len() ==> nbrs1[k] == nbrs0[k],
    ensures
        in_list(nbrs1, j),
{
    let k = choose|k: int| 0 <= k < nbrs0.len() && (#[trigger] nbrs0[k]).0.0 as int == j;
    assert(nbrs1[k] == nbrs0[k]);
}

/// Decide the six settle places of the tile being processed, in vertex
/// order: each is copied from a processed neighbor sharing the corner or
/// freshly allocated, and the fresh ones fill the identifier interval
/// `[old(spc), final(spc))`.
fn build_vertices(
    tsp: &Vec<Option<VertexMap<SettlePlaceID>>>,
    st_nw: VisitStatus,
    st_ne: VisitStatus,
    st_w: VisitStatus,
    st_e: VisitStatus,
    st_sw: VisitStatus,
    st_se: VisitStatus,
    spc: &mut u16,
    Ghost(placement): Ghost<Seq<[u8; 2]>>,
    Ghost(t): Ghost<int>,
) -> (vm: VertexMap<SettlePlaceID>)
    requires
        tsp@.len() == placement.len(),
        placement_distinct(placement),
        corners_ok(placement, tsp@, *old(spc) as int),
        0 <= t < placement.len(),
        !has_entry(tsp@, t),
        status_ok(placement, tsp@, placement_pos(placement, t), HexSide::NorthWest, st_nw),
        status_ok(placement, tsp@, placement_pos(placement, t), HexSide::NorthEast, st_ne),
        status_ok(placement, tsp@, placement_pos(placement, t), HexSide::West, st_w),
        status_ok(placement, tsp@, placement_pos(placement, t), HexSide::East, st_e),
        status_ok(placement, tsp@, placement_pos(placement, t), HexSide::SouthWest, st_sw),
        status_ok(placement, tsp@, placement_pos(placement, t), HexSide::SouthEast, st_se),
        st_nw == spec_classify(
            placement,
            tsp@,
            hex_nbr(placement_pos(placement, t), HexSide::NorthWest),
        ),
        st_ne == spec_classify(
            placement,
            tsp@,
            hex_nbr(placement_pos(placement, t), HexSide::NorthEast),
        ),
        st_w == spec_classify(placement, tsp@, hex_nbr(placement_pos(placement, t), HexSide::West)),
        st_e == spec_classify(placement, tsp@, hex_nbr(placement_pos(placement, t), HexSide::East)),
        st_sw == spec_classify(
            placement,
            tsp@,
            hex_nbr(placement_pos(placement, t), HexSide::SouthWest),
        ),
        st_se == spec_classify(
            placement,
            tsp@,
            hex_nbr(placement_pos(placement, t), HexSide::SouthEast),
        ),
        *old(spc) as int + 6 <= u16::MAX as int,
    ensures
        ({
            let r = spec_vertices(placement, tsp@, t, *old(spc) as int);
            vm == r.0 && *final(spc) as int == r.1
        }),
        *old(spc) <= *final(spc),
        *final(spc) as int <= *old(spc) as int + 6,
        forall|v: HexVertex|
            vertex_choice(
                placement,
                tsp@,
                t,
                v,
                #[trigger] vm.spec_get(v),
                *old(spc) as int,
                *final(spc) as int,
            ),
        forall|v1: HexVertex, v2: HexVertex|
            #![trigger vm.spec_get(v1), vm.spec_get(v2)]
            v1 != v2 && vm.spec_get(v1).0 >= *old(spc) && vm.spec_get(v2).0 >= *old(spc)
                ==> vm.spec_get(v1) != vm.spec_get(v2),
        forall|id: int|
            *old(spc) as int <= id < *final(spc) as int ==> #[trigger] crate::topology::vm_covers(
                vm,
                id,
            ),
{
    let ghost spc0 = *spc;
    proof {
        crate::topology::lemma_corners_bound(placement, tsp@, *spc as int);
    }
    let id_n = decide_vertex(
        tsp,
        st_nw,
        st_ne,
        HexVertex::SouthEast,
        HexVertex::SouthWest,
        spc,
        Ghost(placement),
        Ghost(t),
        Ghost(HexVertex::North),
    );
    let id_nw = decide_vertex(
        tsp,
        st_w,
        st_nw,
        HexVertex::NorthEast,
        HexVertex::South,
        spc,
        Ghost(placement),
        Ghost(t),
        Ghost(HexVertex::NorthWest),
    );
    let id_ne = decide_vertex(
        tsp,
        st_ne,
        st_e,
        HexVertex::South,
        HexVertex::NorthWest,
        spc,
        Ghost(placement),
        Ghost(t),
        Ghost(HexVertex::NorthEast),
    );
    let id_sw = decide_vertex(
        tsp,
        st_sw,
        st_w,
        HexVertex::North,
        HexVertex::SouthEast,
        spc,
        Ghost(placement),
        Ghost(t),
        Ghost(HexVertex::SouthWest),
    );
    let id_se = decide_vertex(
        tsp,
        st_e,
        st_se,
        HexVertex::SouthWest,
        HexVertex::North,
        spc,
        Ghost(placement),
        Ghost(t),
        Ghost(HexVertex::SouthEast),
    );
    let id_s = decide_vertex(
        tsp,
        st_se,
        st_sw,
        HexVertex::NorthWest,
        HexVertex::NorthEast,
        spc,
        Ghost(placement),
        Ghost(t),
        Ghost(HexVertex::South),
    );
    let vm = VertexMap {
        north: id_n,
        north_west: id_nw,
        north_east: id_ne,
        south_west: id_sw,
        south_east: id_se,
        south: id_s,
    };
    proof {
        assert forall|v: HexVertex|
            vertex_choice(
                placement,
                tsp@,
                t,
                v,
                #[trigger] vm.spec_get(v),
                spc0 as int,
                *spc as int,
            ) by {
        }
        assert forall|id: int|
            spc0 as int <= id < *spc as int implies #[trigger] crate::topology::vm_covers(
            vm,
            id,
        ) by {
            assert(vm.spec_get(HexVertex::North) == id_n);
            assert(vm.spec_get(HexVertex::NorthWest) == id_nw);
            assert(vm.spec_get(HexVertex::NorthEast) == id_ne);
            assert(vm.spec_get(HexVertex::SouthWest) == id_sw);
            assert(vm.spec_get(HexVertex::SouthEast) == id_se);
            assert(vm.spec_get(HexVertex::South) == id_s);
            assert(id == id_n.0 || id == id_nw.0 || id == id_ne.0 || id == id_sw.0 || id == id_se.0
                || id == id_s.0);
        }
    }
    vm
}

/// Decide the road for one side of the tile being processed and keep the
/// count bookkeeping in step: a fresh road adds its physical edge to the
/// tracked set, a copied road leaves it unchanged.
fn side_step(
    tsp: &Vec<Option<VertexMap<SettlePlaceID>>>,
    trd: &Vec<Option<SideMap<RoadID>>>,
    st: VisitStatus,
    s: HexSide,
    a: SettlePlaceID,
    b: SettlePlaceID,
    rsp: &mut Vec<[SettlePlaceID; 2]>,
    Ghost(placement): Ghost<Seq<[u8; 2]>>,
    Ghost(t): Ghost<int>,
    Ghost(spc1): Ghost<int>,
    Ghost(alloc): Ghost<Set<(int, int, HexSide)>>,
) -> (out: (RoadID, Ghost<Set<(int, int, HexSide)>>))
    requires
        tsp@.len() == placement.len(),
        trd@.len() == placement.len(),
        placement_distinct(placement),
        forall|t2: int, s2: HexSide|
            has_entry(trd@, t2) ==> (#[trigger] road_id(trd@, t2, s2)).0 < old(rsp)@.len(),
        corners_ok(placement, tsp@, spc1),
        counts_ok(placement, tsp@, old(rsp)@, alloc),
        alloc.contains(tile_edge(placement_pos(placement, t), s)) <==> edge_allocated(
            placement,
            trd@,
            tile_edge(placement_pos(placement, t), s),
        ),
        0 <= t < placement.len(),
        !has_entry(trd@, t),
        has_entry(tsp@, t),
        a == corner_id(tsp@, t, s.spec_connected_vertices().0),
        b == corner_id(tsp@, t, s.spec_connected_vertices().1),
        status_ok(placement, trd@, placement_pos(placement, t), s, st),
        st == spec_classify(placement, trd@, hex_nbr(placement_pos(placement, t), s)),
        old(rsp)@.len() < 65535,
    ensures
        ({
            let r = spec_side(placement, tsp@, trd@, t, s, old(rsp)@);
            out.0 == r.0 && final(rsp)@ == r.1
        }),
        final(rsp)@.len() == old(rsp)@.len() || final(rsp)@.len() == old(rsp)@.len() + 1,
        forall|k: int| 0 <= k < old(rsp)@.len() ==> final(rsp)@[k] == old(rsp)@[k],
        counts_ok(placement, tsp@, final(rsp)@, out.1@),
        final(rsp)@.len() == old(rsp)@.len() + 1 ==> ({
            &&& out.0.0 == old(rsp)@.len()
            &&& final(rsp)@.last() == [a, b]
            &&& forall|t2: int, s2: HexSide|
                has_entry(trd@, t2) ==> #[trigger] tile_edge(placement_pos(placement, t2), s2)
                    != tile_edge(placement_pos(placement, t), s)
            &&& out.1@ == alloc.insert(tile_edge(placement_pos(placement, t), s))
        }),
        final(rsp)@.len() == old(rsp)@.len() ==> ({
            &&& out.0.0 < old(rsp)@.len()
            &&& (exists|t2: int, s2: HexSide|
                has_entry(trd@, t2) && #[trigger] tile_edge(placement_pos(placement, t2), s2)
                    == tile_edge(placement_pos(placement, t), s) && out.0 == road_id(trd@, t2, s2))
            &&& out.1@ == alloc
        }),
{
    let ghost rp = rsp@;
    let ghost pt = placement_pos(placement, t);
    let rid = decide_side(tsp, trd, st, s, a, b, rsp, Ghost(placement), Ghost(t));
    let ghost mut alloc2 = alloc;
    proof {
        crate::geometry::lemma_tile_edges_distinct(pt);
        if rsp@.len() > rp.len() {
            let e = tile_edge(pt, s);
            assert(!edge_allocated(placement, trd@, e)) by {
                if edge_allocated(placement, trd@, e) {
                    let (t2, s2) = choose|t2: int, s2: HexSide|
                        #[trigger] tile_edge(placement_pos(placement, t2), s2) == e && has_entry(
                            trd@,
                            t2,
                        );
                    assert(false);
                }
            }
            assert(!alloc.contains(e));
            crate::topology::lemma_alloc_step(placement, tsp@, rp, alloc, t, s, spc1);
            assert([a, b] =~= [
                corner_id(tsp@, t, s.spec_connected_vertices().0),
                corner_id(tsp@, t, s.spec_connected_vertices().1),
            ]);
            assert(rsp@ =~= rp.push([a, b]));
            alloc2 = alloc.insert(tile_edge(pt, s));
        } else {
            assert(rsp@ =~= rp);
        }
        assert(counts_ok(placement, tsp@, rsp@, alloc2));
    }
    (rid, Ghost(alloc2))
}

/// Install the finished side table of the tile being processed and restore
/// the road and count invariants over it.
#[verifier::rlimit(100)]
fn install_sides(
    tsp: &Vec<Option<VertexMap<SettlePlaceID>>>,
    trd: &mut Vec<Option<SideMap<RoadID>>>,
    rsp: &Vec<[SettlePlaceID; 2]>,
    sm: SideMap<RoadID>,
    tile: TileID,
    Ghost(placement): Ghost<Seq<[u8; 2]>>,
    Ghost(spc1): Ghost<int>,
    Ghost(len0): Ghost<int>,
    Ghost(alloc): Ghost<Set<(int, int, HexSide)>>,
)
    requires
        tsp@.len() == placement.len(),
        old(trd)@.len() == placement.len(),
        (tile.0 as int) < placement.len(),
        !has_entry(old(trd)@, tile.0 as int),
        has_entry(tsp@, tile.0 as int),
        forall|t2: int|
            0 <= t2 < placement.len() && t2 != tile.0 as int ==> (has_entry(old(trd)@, t2)
                ==> has_entry(tsp@, t2)),
        0 <= len0 <= rsp@.len(),
        roads_ok(placement, tsp@, old(trd)@, rsp@.subrange(0, len0)),
        corners_ok(placement, tsp@, spc1),
        counts_ok(placement, tsp@, rsp@, alloc),
        forall|s: HexSide|
            side_choice(placement, tsp@, old(trd)@, rsp@, tile.0 as int, s, #[trigger] sm.spec_get(s), len0),
        forall|s1: HexSide, s2: HexSide|
            #![trigger sm.spec_get(s1), sm.spec_get(s2)]
            s1 != s2 && sm.spec_get(s1).0 >= len0 && sm.spec_get(s2).0 >= len0 ==> sm.spec_get(s1)
                != sm.spec_get(s2),
        forall|rid: int|
            len0 <= rid < rsp@.len() ==> #[trigger] crate::topology::sm_covers(sm, rid),
        forall|e: (int, int, HexSide)|
            alloc.contains(e) ==> edge_allocated(placement, old(trd)@, e) || (exists|s: HexSide|
                e == #[trigger] tile_edge(placement_pos(placement, tile.0 as int), s)),
        forall|e: (int, int, HexSide)|
            edge_allocated(placement, old(trd)@, e) ==> alloc.contains(e),
        forall|s: HexSide|
            (#[trigger] sm.spec_get(s)).0 >= len0 ==> alloc.contains(
                tile_edge(placement_pos(placement, tile.0 as int), s),
            ),
    ensures
        final(trd)@ == old(trd)@.update(tile.0 as int, Some(sm)),
        final(trd)@.len() == placement.len(),
        final(trd)@[tile.0 as int] is Some,
        forall|t2: int|
            0 <= t2 < placement.len() && t2 != tile.0 as int ==> final(trd)@[t2] == old(trd)@[t2],
        roads_ok(placement, tsp@, final(trd)@, rsp@),
        counts_ok(placement, tsp@, rsp@, alloc_set(placement, final(trd)@)),
{
    let ghost trd0 = trd@;
    let ghost tt = tile.0 as int;
    let ghost pt = placement_pos(placement, tt);
    let ghost rsp0 = rsp@.subrange(0, len0);
    trd.set(tile.0 as usize, Some(sm));
    proof {
        assert(trd@ == trd0.update(tt, Some(sm)));
        crate::topology::lemma_roads_extend(placement, tsp@, trd0, rsp0, rsp@, tt, sm, spc1);
        assert forall|e: (int, int, HexSide)| alloc.contains(e) implies alloc_set(
            placement,
            trd@,
        ).contains(e) by {
            if edge_allocated(placement, trd0, e) {
                let (t2, s2) = choose|t2: int, s2: HexSide|
                    #[trigger] tile_edge(placement_pos(placement, t2), s2) == e && has_entry(
                        trd0,
                        t2,
                    );
                assert(has_entry(trd@, t2));
                assert(edge_allocated(placement, trd@, e));
            } else {
                let s = choose|s: HexSide| e == #[trigger] tile_edge(pt, s);
                assert(has_entry(trd@, tt));
                assert(edge_allocated(placement, trd@, e));
            }
        }
        assert forall|e: (int, int, HexSide)|
            alloc_set(placement, trd@).contains(e) implies alloc.contains(e) by {
            let (t2, s2) = choose|t2: int, s2: HexSide|
                #[trigger] tile_edge(placement_pos(placement, t2), s2) == e && has_entry(trd@, t2);
            if t2 != tt {
                assert(has_entry(trd0, t2));
                assert(edge_allocated(placement, trd0, e));
            } else {
                assert(side_choice(placement, tsp@, trd0, rsp@, tt, s2, sm.spec_get(s2), len0));
                if sm.spec_get(s2).0 < len0 {
                    let (t3, s3) = choose|t3: int, s3: HexSide|
                        has_entry(trd0, t3) && #[trigger] tile_edge(
                            placement_pos(placement, t3),
                            s3,
                        ) == tile_edge(pt, s2) && sm.spec_get(s2) == road_id(trd0, t3, s3);
                    assert(edge_allocated(placement, trd0, e));
                }
            }
        }
        assert(alloc =~= alloc_set(placement, trd@));
        assert(counts_ok(placement, tsp@, rsp@, alloc_set(placement, trd@)));
    }
}

/// Decide the six roads of the tile being processed, in side order, append
/// the rows of the freshly allocated ones, and install the side table,
/// restoring the road and count invariants.
#[verifier::rlimit(100)]
#[verifier::spinoff_prover]
fn build_sides(
    tsp: &Vec<Option<VertexMap<SettlePlaceID>>>,
    trd: &mut Vec<Option<SideMap<RoadID>>>,
    rsp: &mut Vec<[SettlePlaceID; 2]>,
    vm: VertexMap<SettlePlaceID>,
    st_nw: VisitStatus,
    st_ne: VisitStatus,
    st_w: VisitStatus,
    st_e: VisitStatus,
    st_sw: VisitStatus,
    st_se: VisitStatus,
    tile: TileID,
    Ghost(placement): Ghost<Seq<[u8; 2]>>,
    Ghost(spc1): Ghost<int>,
)
    requires
        tsp@.len() == placement.len(),
        old(trd)@.len() == placement.len(),
        placement_distinct(placement),
        corners_ok(placement, tsp@, spc1),
        roads_ok(placement, tsp@, old(trd)@, old(rsp)@),
        counts_ok(placement, tsp@, old(rsp)@, alloc_set(placement, old(trd)@)),
        (tile.0 as int) < placement.len(),
        !has_entry(old(trd)@, tile.0 as int),
        has_entry(tsp@, tile.0 as int),
        tsp@[tile.0 as int] == Some(vm),
        forall|t2: int|
            0 <= t2 < placement.len() && t2 != tile.0 as int ==> (has_entry(old(trd)@, t2)
                ==> has_entry(tsp@, t2)),
        status_ok(placement, old(trd)@, placement_pos(placement, tile.0 as int), HexSide::NorthWest, st_nw),
        status_ok(placement, old(trd)@, placement_pos(placement, tile.0 as int), HexSide::NorthEast, st_ne),
        status_ok(placement, old(trd)@, placement_pos(placement, tile.0 as int), HexSide::West, st_w),
        status_ok(placement, old(trd)@, placement_pos(placement, tile.0 as int), HexSide::East, st_e),
        status_ok(placement, old(trd)@, placement_pos(placement, tile.0 as int), HexSide::SouthWest, st_sw),
        status_ok(placement, old(trd)@, placement_pos(placement, tile.0 as int), HexSide::SouthEast, st_se),
        st_nw == spec_classify(
            placement,
            old(trd)@,
            hex_nbr(placement_pos(placement, tile.0 as int), HexSide::NorthWest),
        ),
        st_ne == spec_classify(
            placement,
            old(trd)@,
            hex_nbr(placement_pos(placement, tile.0 as int), HexSide::NorthEast),
        ),
        st_w == spec_classify(
            placement,
            old(trd)@,
            hex_nbr(placement_pos(placement, tile.0 as int), HexSide::West),
        ),
        st_e == spec_classify(
            placement,
            old(trd)@,
            hex_nbr(placement_pos(placement, tile.0 as int), HexSide::East),
        ),
        st_sw == spec_classify(
            placement,
            old(trd)@,
            hex_nbr(placement_pos(placement, tile.0 as int), HexSide::SouthWest),
        ),
        st_se == spec_classify(
            placement,
            old(trd)@,
            hex_nbr(placement_pos(placement, tile.0 as int), HexSide::SouthEast),
        ),
        old(rsp)@.len() as int + 6 <= u16::MAX as int,
    ensures
        ({
            let r = spec_sides(placement, tsp@, old(trd)@, tile.0 as int, old(rsp)@);
            final(trd)@ == old(trd)@.update(tile.0 as int, Some(r.0)) && final(rsp)@ == r.1
        }),
        final(trd)@.len() == placement.len(),
        final(trd)@[tile.0 as int] is Some,
        forall|t2: int|
            0 <= t2 < placement.len() && t2 != tile.0 as int ==> final(trd)@[t2] == old(trd)@[t2],
        old(rsp)@.len() <= final(rsp)@.len(),
        final(rsp)@.len() as int <= old(rsp)@.len() as int + 6,
        forall|k: int| 0 <= k < old(rsp)@.len() ==> final(rsp)@[k] == old(rsp)@[k],
        roads_ok(placement, tsp@, final(trd)@, final(rsp)@),
        counts_ok(placement, tsp@, final(rsp)@, alloc_set(placement, final(trd)@)),
{
    let ghost rsp0 = rsp@;
    let ghost tt = tile.0 as int;
    let ghost pt = placement_pos(placement, tt);
    proof {
        crate::topology::lemma_roads_bound(placement, tsp@, trd@, rsp@);
    }
    let id_n = vm.north;
    let id_nw = vm.north_west;
    let id_ne = vm.north_east;
    let id_sw = vm.south_west;
    let id_se = vm.south_east;
    let id_s = vm.south;
    proof {
        crate::geometry::lemma_tile_edges_distinct(pt);
    }
    let ghost alloc0 = alloc_set(placement, trd@);
    proof {
        assert(alloc0.contains(tile_edge(pt, HexSide::NorthWest)) <==> edge_allocated(
            placement,
            trd@,
            tile_edge(pt, HexSide::NorthWest),
        ));
    }
    let (rid_nw, Ghost(al_nw)) = side_step(
        tsp,
        trd,
        st_nw,
        HexSide::NorthWest,
        id_nw,
        id_n,
        rsp,
        Ghost(placement),
        Ghost(tt),
        Ghost(spc1),
        Ghost(alloc0),
    );
    proof {
        assert(al_nw.contains(tile_edge(pt, HexSide::NorthEast)) <==> edge_allocated(
            placement,
            trd@,
            tile_edge(pt, HexSide::NorthEast),
        ));
    }
    let ghost rp_ne = rsp@;
    let (rid_ne, Ghost(al_ne)) = side_step(
        tsp,
        trd,
        st_ne,
        HexSide::NorthEast,
        id_n,
        id_ne,
        rsp,
        Ghost(placement),
        Ghost(tt),
        Ghost(spc1),
        Ghost(al_nw),
    );
    proof {
        assert(al_ne.contains(tile_edge(pt, HexSide::West)) <==> edge_allocated(
            placement,
            trd@,
            tile_edge(pt, HexSide::West),
        ));
    }
    let ghost rp_w = rsp@;
    let (rid_w, Ghost(al_w)) = side_step(
        tsp,
        trd,
        st_w,
        HexSide::West,
        id_sw,
        id_nw,
        rsp,
        Ghost(placement),
        Ghost(tt),
        Ghost(spc1),
        Ghost(al_ne),
    );
    proof {
        assert(al_w.contains(tile_edge(pt, HexSide::East)) <==> edge_allocated(
            placement,
            trd@,
            tile_edge(pt, HexSide::East),
        ));
    }
    let ghost rp_e = rsp@;
    let (rid_e, Ghost(al_e)) = side_step(
        tsp,
        trd,
        st_e,
        HexSide::East,
        id_ne,
        id_se,
        rsp,
        Ghost(placement),
        Ghost(tt),
        Ghost(spc1),
        Ghost(al_w),
    );
    proof {
        assert(al_e.contains(tile_edge(pt, HexSide::SouthWest)) <==> edge_allocated(
            placement,
            trd@,
            tile_edge(pt, HexSide::SouthWest),
        ));
    }
    let ghost rp_sw = rsp@;
    let (rid_sw, Ghost(al_sw)) = side_step(
        tsp,
        trd,
        st_sw,
        HexSide::SouthWest,
        id_s,
        id_sw,
        rsp,
        Ghost(placement),
        Ghost(tt),
        Ghost(spc1),
        Ghost(al_e),
    );
    proof {
        assert(al_sw.contains(tile_edge(pt, HexSide::SouthEast)) <==> edge_allocated(
            placement,
            trd@,
            tile_edge(pt, HexSide::SouthEast),
        ));
    }
    let ghost rp_se = rsp@;
    let (rid_se, Ghost(al_se)) = side_step(
        tsp,
        trd,
        st_se,
        HexSide::SouthEast,
        id_se,
        id_s,
        rsp,
        Ghost(placement),
        Ghost(tt),
        Ghost(spc1),
        Ghost(al_sw),
    );
    let sm = SideMap {
        north_west: rid_nw,
        north_east: rid_ne,
        west: rid_w,
        east: rid_e,
        south_west: rid_sw,
        south_east: rid_se,
    };
    proof {
        // The decided sides match the model, stage by stage.
        let rnw = spec_side(placement, tsp@, trd@, tt, HexSide::NorthWest, rsp0);
        let rne = spec_side(placement, tsp@, trd@, tt, HexSide::NorthEast, rnw.1);
        let rw = spec_side(placement, tsp@, trd@, tt, HexSide::West, rne.1);
        let re = spec_side(placement, tsp@, trd@, tt, HexSide::East, rw.1);
        let rsw = spec_side(placement, tsp@, trd@, tt, HexSide::SouthWest, re.1);
        let rse = spec_side(placement, tsp@, trd@, tt, HexSide::SouthEast, rsw.1);
        assert(rid_nw == rnw.0 && rp_ne == rnw.1);
        assert(rid_ne == rne.0 && rp_w == rne.1);
        assert(rid_w == rw.0 && rp_e == rw.1);
        assert(rid_e == re.0 && rp_sw == re.1);
        assert(rid_sw == rsw.0 && rp_se == rsw.1);
        assert(rid_se == rse.0 && rsp@ == rse.1);
        assert(sm == spec_sides(placement, tsp@, trd@, tt, rsp0).0);
        assert(rsp@ == spec_sides(placement, tsp@, trd@, tt, rsp0).1);
        assert(rsp0.len() <= rsp@.len());
        assert forall|s: HexSide|
            side_choice(
                placement,
                tsp@,
                trd@,
                rsp@,
                tt,
                s,
                #[trigger] sm.spec_get(s),
                rsp0.len() as int,
            ) by {
            if s == HexSide::NorthWest {
                if rid_nw.0 as int >= rsp0.len() {
                    assert(rsp@[rid_nw.0 as int] == rp_ne[rid_nw.0 as int]);
                }
            } else if s == HexSide::NorthEast {
                if rid_ne.0 as int >= rsp0.len() {
                    assert(rsp@[rid_ne.0 as int] == rp_w[rid_ne.0 as int]);
                }
            } else if s == HexSide::West {
                if rid_w.0 as int >= rsp0.len() {
                    assert(rsp@[rid_w.0 as int] == rp_e[rid_w.0 as int]);
                }
            } else if s == HexSide::East {
                if rid_e.0 as int >= rsp0.len() {
                    assert(rsp@[rid_e.0 as int] == rp_sw[rid_e.0 as int]);
                }
            } else if s == HexSide::SouthWest {
                if rid_sw.0 as int >= rsp0.len() {
                    assert(rsp@[rid_sw.0 as int] == rp_se[rid_sw.0 as int]);
                }
            } else {
                if rid_se.0 as int >= rsp0.len() {
                    assert(rsp@[rid_se.0 as int] == rsp@[rid_se.0 as int]);
                }
            }
        }
        assert forall|rid: int|
            rsp0.len() as int <= rid < rsp@.len() as int implies #[trigger] crate::topology::sm_covers(
            sm,
            rid,
        ) by {
            assert(sm.spec_get(HexSide::NorthWest) == rid_nw);
            assert(sm.spec_get(HexSide::NorthEast) == rid_ne);
            assert(sm.spec_get(HexSide::West) == rid_w);
            assert(sm.spec_get(HexSide::East) == rid_e);
            assert(sm.spec_get(HexSide::SouthWest) == rid_sw);
            assert(sm.spec_get(HexSide::SouthEast) == rid_se);
            assert(rid == rid_nw.0 || rid == rid_ne.0 || rid == rid_w.0 || rid == rid_e.0 || rid
                == rid_sw.0 || rid == rid_se.0);
        }
        assert(rsp0 =~= rsp@.subrange(0, rsp0.len() as int));
    }
    install_sides(
        tsp,
        trd,
        rsp,
        sm,
        tile,
        Ghost(placement),
        Ghost(spc1),
        Ghost(rsp0.len() as int),
        Ghost(al_se),
    );
}


/// Collect the unvisited neighbors seen around the tile being processed:
/// every adjacent tile is either already processed or listed.
fn collect_neighbors(
    st_nw: VisitStatus,
    st_ne: VisitStatus,
    st_w: VisitStatus,
    st_e: VisitStatus,
    st_sw: VisitStatus,
    st_se: VisitStatus,
    Ghost(placement): Ghost<Seq<[u8; 2]>>,
    Ghost(tsp0): Ghost<Seq<Option<VertexMap<SettlePlaceID>>>>,
    Ghost(t): Ghost<int>,
) -> (nbrs: Vec<(TileID, [u8; 2])>)
    requires
        0 <= t < placement.len(),
        placement_distinct(placement),
        status_ok(placement, tsp0, placement_pos(placement, t), HexSide::NorthWest, st_nw),
        status_ok(placement, tsp0, placement_pos(placement, t), HexSide::NorthEast, st_ne),
        status_ok(placement, tsp0, placement_pos(placement, t), HexSide::West, st_w),
        status_ok(placement, tsp0, placement_pos(placement, t), HexSide::East, st_e),
        status_ok(placement, tsp0, placement_pos(placement, t), HexSide::SouthWest, st_sw),
        status_ok(placement, tsp0, placement_pos(placement, t), HexSide::SouthEast, st_se),
        st_nw == spec_classify(placement, tsp0, hex_nbr(placement_pos(placement, t), HexSide::NorthWest)),
        st_ne == spec_classify(placement, tsp0, hex_nbr(placement_pos(placement, t), HexSide::NorthEast)),
        st_w == spec_classify(placement, tsp0, hex_nbr(placement_pos(placement, t), HexSide::West)),
        st_e == spec_classify(placement, tsp0, hex_nbr(placement_pos(placement, t), HexSide::East)),
        st_sw == spec_classify(placement, tsp0, hex_nbr(placement_pos(placement, t), HexSide::SouthWest)),
        st_se == spec_classify(placement, tsp0, hex_nbr(placement_pos(placement, t), HexSide::SouthEast)),
    ensures
        nbrs@ == spec_nbrs(placement, tsp0, t),
        forall|k: int|
            0 <= k < nbrs@.len() ==> nbr_entry_ok(placement, tsp0, #[trigger] nbrs@[k], t),
        forall|j: int|
            #[trigger] crate::topology::adjacent_tiles(placement, t, j) ==> has_entry(tsp0, j)
                || in_list(nbrs@, j),
{
    let ghost pt = placement_pos(placement, t);
    let mut nbrs: Vec<(TileID, [u8; 2])> = Vec::new();
    push_not_visited(&mut nbrs, st_nw, Ghost(placement), Ghost(tsp0), Ghost(t), Ghost(HexSide::NorthWest));
    proof {
        assert(nbrs@ =~= spec_nbr_entry(placement, tsp0, t, HexSide::NorthWest));
    }
    push_not_visited(&mut nbrs, st_ne, Ghost(placement), Ghost(tsp0), Ghost(t), Ghost(HexSide::NorthEast));
    proof {
        assert(nbrs@ =~= spec_nbr_entry(placement, tsp0, t, HexSide::NorthWest)
            + spec_nbr_entry(placement, tsp0, t, HexSide::NorthEast));
    }
    push_not_visited(&mut nbrs, st_w, Ghost(placement), Ghost(tsp0), Ghost(t), Ghost(HexSide::West));
    proof {
        assert(nbrs@ =~= spec_nbr_entry(placement, tsp0, t, HexSide::NorthWest)
            + spec_nbr_entry(placement, tsp0, t, HexSide::NorthEast)
            + spec_nbr_entry(placement, tsp0, t, HexSide::West));
    }
    push_not_visited(&mut nbrs, st_e, Ghost(placement), Ghost(tsp0), Ghost(t), Ghost(HexSide::East));
    proof {
        assert(nbrs@ =~= spec_nbr_entry(placement, tsp0, t, HexSide::NorthWest)
            + spec_nbr_entry(placement, tsp0, t, HexSide::NorthEast)
            + spec_nbr_entry(placement, tsp0, t, HexSide::West)
            + spec_nbr_entry(placement, tsp0, t, HexSide::East));
    }
    push_not_visited(&mut nbrs, st_sw, Ghost(placement), Ghost(tsp0), Ghost(t), Ghost(HexSide::SouthWest));
    proof {
        assert(nbrs@ =~= spec_nbr_entry(placement, tsp0, t, HexSide::NorthWest)
            + spec_nbr_entry(placement, tsp0, t, HexSide::NorthEast)
            + spec_nbr_entry(placement, tsp0, t, HexSide::West)
            + spec_nbr_entry(placement, tsp0, t, HexSide::East)
            + spec_nbr_entry(placement, tsp0, t, HexSide::SouthWest));
    }
    push_not_visited(&mut nbrs, st_se, Ghost(placement), Ghost(tsp0), Ghost(t), Ghost(HexSide::SouthEast));
    proof {
        assert(nbrs@ =~= spec_nbrs(placement, tsp0, t));
    }
    proof {
        assert forall|j: int|
            #[trigger] crate::topology::adjacent_tiles(placement, t, j) implies has_entry(
            tsp0,
            j,
        ) || in_list(nbrs@, j) by {
            let s = choose|s: HexSide| hex_nbr(pt, s) == placement_pos(placement, j);
            let st = if s == HexSide::NorthWest {
                st_nw
            } else if s == HexSide::NorthEast {
                st_ne
            } else if s == HexSide::West {
                st_w
            } else if s == HexSide::East {
                st_e
            } else if s == HexSide::SouthWest {
                st_sw
            } else {
                st_se
            };
            assert(status_ok(placement, tsp0, pt, s, st));
            match st {
                VisitStatus::Processed(u) => {
                    assert(u.0 as int == j);
                },
                VisitStatus::NotVisited(u, _q) => {
                    assert(u.0 as int == j);
                    assert(in_list(nbrs@, j));
                },
                VisitStatus::NotATile => {
                    assert(false);
                },
            }
        }
    }
    nbrs
}

/// Process one tile of the traversal: decide its six settle places and six
/// roads, copying identifiers from processed neighbors where the physical
/// corner or edge already has one and allocating fresh identifiers where it
/// does not, and report the adjacent tiles that still await processing.
#[verifier::rlimit(100)]
fn process_tile(
    grid: &Matrix<Option<TileID>>,
    tsp: &mut Vec<Option<VertexMap<SettlePlaceID>>>,
    trd: &mut Vec<Option<SideMap<RoadID>>>,
    rsp: &mut Vec<[SettlePlaceID; 2]>,
    spc: &mut u16,
    tile: TileID,
    pos: [u8; 2],
    Ghost(placement): Ghost<Seq<[u8; 2]>>,
) -> (nbrs: Vec<(TileID, [u8; 2])>)
    requires
        grid_matches(grid, grid.spec_width(), grid.spec_height(), placement),
        placement_fits(placement, grid.spec_width(), grid.spec_height()),
        grid.spec_width() <= 256,
        grid.spec_height() <= 256,
        1 <= placement.len() <= 256,
        old(tsp)@.len() == placement.len(),
        old(trd)@.len() == placement.len(),
        forall|t2: int|
            0 <= t2 < placement.len() ==> ((old(tsp)@[t2] is Some) <==> (old(trd)@[t2] is Some)),
        *old(spc) as int <= 6 * count_some(old(tsp)@),
        old(rsp)@.len() as int <= 6 * count_some(old(tsp)@),
        corners_ok(placement, old(tsp)@, *old(spc) as int),
        roads_ok(placement, old(tsp)@, old(trd)@, old(rsp)@),
        counts_ok(placement, old(tsp)@, old(rsp)@, alloc_set(placement, old(trd)@)),
        (tile.0 as int) < placement.len(),
        pos == placement[tile.0 as int],
        !has_entry(old(tsp)@, tile.0 as int),
    ensures
        ({
            let vr = spec_vertices(placement, old(tsp)@, tile.0 as int, *old(spc) as int);
            let tsp1 = old(tsp)@.update(tile.0 as int, Some(vr.0));
            let sr = spec_sides(placement, tsp1, old(trd)@, tile.0 as int, old(rsp)@);
            &&& final(tsp)@ == tsp1
            &&& final(trd)@ == old(trd)@.update(tile.0 as int, Some(sr.0))
            &&& final(rsp)@ == sr.1
            &&& *final(spc) as int == vr.1
            &&& nbrs@ == spec_nbrs(placement, old(tsp)@, tile.0 as int)
        }),
        final(tsp)@.len() == placement.len(),
        final(trd)@.len() == placement.len(),
        forall|t2: int|
            0 <= t2 < placement.len() ==> ((final(tsp)@[t2] is Some) <==> (final(trd)@[t2]
                is Some)),
        forall|t2: int|
            0 <= t2 < placement.len() && t2 != tile.0 as int ==> final(tsp)@[t2] == old(tsp)@[t2]
                && final(trd)@[t2] == old(trd)@[t2],
        has_entry(final(tsp)@, tile.0 as int),
        count_some(final(tsp)@) == count_some(old(tsp)@) + 1,
        *old(spc) <= *final(spc),
        *final(spc) as int <= 6 * count_some(final(tsp)@),
        old(rsp)@.len() <= final(rsp)@.len(),
        final(rsp)@.len() as int <= 6 * count_some(final(tsp)@),
        forall|k: int| 0 <= k < old(rsp)@.len() ==> final(rsp)@[k] == old(rsp)@[k],
        corners_ok(placement, final(tsp)@, *final(spc) as int),
        roads_ok(placement, final(tsp)@, final(trd)@, final(rsp)@),
        counts_ok(placement, final(tsp)@, final(rsp)@, alloc_set(placement, final(trd)@)),
        forall|j: int|
            #[trigger] crate::topology::adjacent_tiles(placement, tile.0 as int, j) ==> has_entry(
                final(tsp)@,
                j,
            ) || in_list(nbrs@, j),
        forall|k: int|
            0 <= k < nbrs@.len() ==> nbr_entry_ok(placement, old(tsp)@, #[trigger] nbrs@[k], tile.0 as int),
{
    let ghost tsp0 = tsp@;
    let ghost trd0 = trd@;
    let ghost rsp0 = rsp@;
    let ghost spc0 = *spc;
    let ghost tt = tile.0 as int;
    let ghost pt = placement_pos(placement, tt);
    proof {
        crate::topology::lemma_count_some_bounds(tsp0);
        crate::topology::lemma_count_some_missing(tsp0, tt);
    }

    // Classify the six neighboring cells.
    let around = neighbor_positions(pos);
    proof {
        assert(around.spec_get(HexSide::NorthWest) == around.north_west);
        assert(around.spec_get(HexSide::NorthEast) == around.north_east);
        assert(around.spec_get(HexSide::West) == around.west);
        assert(around.spec_get(HexSide::East) == around.east);
        assert(around.spec_get(HexSide::SouthWest) == around.south_west);
        assert(around.spec_get(HexSide::SouthEast) == around.south_east);
    }
    let st_nw = classify_side(
        grid,
        tsp,
        around.north_west.0,
        around.north_west.1,
        Ghost(placement),
        Ghost(pt),
        Ghost(HexSide::NorthWest),
    );
    let st_ne = classify_side(
        grid,
        tsp,
        around.north_east.0,
        around.north_east.1,
        Ghost(placement),
        Ghost(pt),
        Ghost(HexSide::NorthEast),
    );
    let st_w = classify_side(
        grid,
        tsp,
        around.west.0,
        around.west.1,
        Ghost(placement),
        Ghost(pt),
        Ghost(HexSide::West),
    );
    let st_e = classify_side(
        grid,
        tsp,
        around.east.0,
        around.east.1,
        Ghost(placement),
        Ghost(pt),
        Ghost(HexSide::East),
    );
    let st_sw = classify_side(
        grid,
        tsp,
        around.south_west.0,
        around.south_west.1,
        Ghost(placement),
        Ghost(pt),
        Ghost(HexSide::SouthWest),
    );
    let st_se = classify_side(
        grid,
        tsp,
        around.south_east.0,
        around.south_east.1,
        Ghost(placement),
        Ghost(pt),
        Ghost(HexSide::SouthEast),
    );

    // Decide the six settle places and install the vertex table; the tile
    // now counts as processed.
    let vm = build_vertices(
        tsp,
        st_nw,
        st_ne,
        st_w,
        st_e,
        st_sw,
        st_se,
        spc,
        Ghost(placement),
        Ghost(tt),
    );
    tsp.set(tile.0 as usize, Some(vm));
    proof {
        crate::topology::lemma_count_some_update(tsp0, tt, vm);
        crate::topology::lemma_corners_extend(placement, tsp0, tt, vm, spc0 as int, *spc as int);
        crate::topology::lemma_counts_after_mark(
            placement,
            tsp0,
            trd0,
            rsp0,
            tt,
            vm,
            spc0 as int,
            *spc as int,
        );
        assert(tsp@ == tsp0.update(tt, Some(vm)));
        // The side statuses also describe the road table's markers, and the
        // road rows still name the (unchanged) corners of the other tiles.
        assert(status_ok(placement, trd0, pt, HexSide::NorthWest, st_nw));
        assert(status_ok(placement, trd0, pt, HexSide::NorthEast, st_ne));
        assert(status_ok(placement, trd0, pt, HexSide::West, st_w));
        assert(status_ok(placement, trd0, pt, HexSide::East, st_e));
        assert(status_ok(placement, trd0, pt, HexSide::SouthWest, st_sw));
        assert(status_ok(placement, trd0, pt, HexSide::SouthEast, st_se));
        assert(st_nw == spec_classify(placement, trd0, hex_nbr(pt, HexSide::NorthWest)));
        assert(st_ne == spec_classify(placement, trd0, hex_nbr(pt, HexSide::NorthEast)));
        assert(st_w == spec_classify(placement, trd0, hex_nbr(pt, HexSide::West)));
        assert(st_e == spec_classify(placement, trd0, hex_nbr(pt, HexSide::East)));
        assert(st_sw == spec_classify(placement, trd0, hex_nbr(pt, HexSide::SouthWest)));
        assert(st_se == spec_classify(placement, trd0, hex_nbr(pt, HexSide::SouthEast)));
        crate::topology::lemma_roads_ok_retile(placement, tsp0, trd0, rsp0, tt, vm);
        assert(roads_ok(placement, tsp@, trd0, rsp0));
    }

    // Decide the six roads and install the side table.
    build_sides(
        tsp,
        trd,
        rsp,
        vm,
        st_nw,
        st_ne,
        st_w,
        st_e,
        st_sw,
        st_se,
        tile,
        Ghost(placement),
        Ghost(*spc as int),
    );

    // Collect the unvisited neighbors to enqueue.
    let nbrs = collect_neighbors(
        st_nw,
        st_ne,
        st_w,
        st_e,
        st_sw,
        st_se,
        Ghost(placement),
        Ghost(tsp0),
        Ghost(tt),
    );
    proof {
        assert forall|j: int|
            #[trigger] crate::topology::adjacent_tiles(placement, tt, j) implies has_entry(
            tsp@,
            j,
        ) || in_list(nbrs@, j) by {
            if has_entry(tsp0, j) {
                assert(has_entry(tsp@, j));
            }
        }
    }
    nbrs
}


/// Append the payload of a `NotVisited` status to the neighbor list,
/// keeping every listed entry valid.
fn push_not_visited(
    nbrs: &mut Vec<(TileID, [u8; 2])>,
    st: VisitStatus,
    Ghost(placement): Ghost<Seq<[u8; 2]>>,
    Ghost(tsp0): Ghost<Seq<Option<VertexMap<SettlePlaceID>>>>,
    Ghost(t): Ghost<int>,
    Ghost(s): Ghost<HexSide>,
)
    requires
        0 <= t < placement.len(),
        status_ok(placement, tsp0, placement_pos(placement, t), s, st),
        forall|k: int|
            0 <= k < old(nbrs)@.len() ==> nbr_entry_ok(placement, tsp0, #[trigger] old(nbrs)@[k], t),
    ensures
        final(nbrs)@ == match st.spec_not_visited() {
            Some(e) => old(nbrs)@.push(e),
            None => old(nbrs)@,
        },
        forall|k: int|
            0 <= k < final(nbrs)@.len() ==> nbr_entry_ok(placement, tsp0, #[trigger] final(nbrs)@[k], t),
        forall|j: int| in_list(old(nbrs)@, j) ==> in_list(final(nbrs)@, j),
        match st.spec_not_visited() {
            Some(e) => in_list(final(nbrs)@, e.0.0 as int),
            None => true,
        },
{
    let ghost nb0 = nbrs@;
    if let Some(e) = st.not_visited() {
        nbrs.push(e);
        proof {
            assert(hex_nbr(placement_pos(placement, t), s) == placement_pos(
                placement,
                e.0.0 as int,
            ));
            assert(crate::topology::adjacent_tiles(placement, t, e.0.0 as int));
            assert(nbrs@[nb0.len() as int] == e);
            assert(in_list(nbrs@, e.0.0 as int));
        }
    }
    proof {
        assert forall|j: int| in_list(nb0, j) implies in_list(nbrs@, j) by {
            lemma_in_list_mono(nb0, nbrs@, j);
        }
    }
}

/// Tile `j` occurs in the pending part of the work queue.
pub open spec fn in_queue(q: Seq<(TileID, [u8; 2])>, head: int, j: int) -> bool {
    exists|k: int| head <= k < q.len() && (#[trigger] q[k]).0.0 as int == j
}

/// The tables the traversal produces: per tile its vertex and side tables
/// (`None` for tiles the traversal never reached), per road its two
/// endpoints, and the number of settle places created.
pub struct TileTraversalResult {
    pub tile_settle_places: AdjacencyList<TileID, Option<VertexMap<SettlePlaceID>>>,
    pub tile_roads: AdjacencyList<TileID, Option<SideMap<RoadID>>>,
    pub road_settle_places: AdjacencyList<RoadID, [SettlePlaceID; 2]>,
    pub settle_places_count: u16,
}

/// Do a breadth-first traversal of the tiles, filling in the relations
/// between tiles, roads and settle places.
///
/// The result equals [`spec_traverse`] of the placement list: every
/// identifier assignment, including the order in which fresh identifiers
/// are handed out, is a function of the input alone, so repeated runs
/// produce identical tables.  Exactly the tiles connected to tile `0`
/// receive tables.  Over those tables, settle-place identifiers are
/// faithful, dense names of the physical corners of the grid and road
/// identifiers of its edges ([`corners_ok`], [`roads_ok`]), every road row
/// holds its edge's two endpoint identifiers, and no identifier serves as
/// a road endpoint more than three times.
pub fn traverse_tiles(map_size: [u8; 2], tile_placement: &Vec<[u8; 2]>) -> (r: TileTraversalResult)
    requires
        map_size[0] > 0,
        map_size[1] > 0,
        1 <= tile_placement@.len() <= 256,
        placement_fits(tile_placement@, map_size[0] as int, map_size[1] as int),
    ensures
        ({
            let out = spec_traverse(tile_placement@);
            &&& r.tile_settle_places@ == out.tsp
            &&& r.tile_roads@ == out.trd
            &&& r.road_settle_places@ == out.rsp
            &&& r.settle_places_count as int == out.spc
        }),
        r.tile_settle_places@.len() == tile_placement@.len(),
        r.tile_roads@.len() == tile_placement@.len(),
        forall|t: int|
            0 <= t < tile_placement@.len() ==> ((#[trigger] r.tile_settle_places@[t] is Some)
                <==> (r.tile_roads@[t] is Some)),
        forall|t: int|
            0 <= t < tile_placement@.len() ==> (has_entry(r.tile_settle_places@, t)
                <==> #[trigger] crate::topology::spec_reachable(tile_placement@, t)),
        corners_ok(tile_placement@, r.tile_settle_places@, r.settle_places_count as int),
        roads_ok(
            tile_placement@,
            r.tile_settle_places@,
            r.tile_roads@,
            r.road_settle_places@,
        ),
        forall|id: SettlePlaceID| #[trigger] end_count(r.road_settle_places@, id) <= 3,
        r.settle_places_count as int <= 6 * tile_placement@.len(),
        r.road_settle_places@.len() as int <= 6 * tile_placement@.len(),
{
    let ghost placement = tile_placement@;
    let n = tile_placement.len();
    let grid = derive_2d_map(map_size, tile_placement);
    let mut tsp: Vec<Option<VertexMap<SettlePlaceID>>> = Vec::new();
    let mut trd: Vec<Option<SideMap<RoadID>>> = Vec::new();
    let mut i: usize = 0;
    while i < n
        invariant
            i <= n,
            tsp@.len() == i,
            trd@.len() == i,
            forall|j: int| 0 <= j < i ==> #[trigger] tsp@[j] is None,
            forall|j: int| 0 <= j < i ==> #[trigger] trd@[j] is None,
        decreases n - i,
    {
        tsp.push(None);
        trd.push(None);
        i = i + 1;
    }
    let mut rsp: Vec<[SettlePlaceID; 2]> = Vec::new();
    let mut spc: u16 = 0;
    let mut queue: Vec<(TileID, [u8; 2])> = Vec::new();
    queue.push((TileID(0), tile_placement[0]));
    let mut head: usize = 0;
    proof {
        crate::topology::lemma_count_some_all_none(tsp@);
        crate::topology::lemma_empty_state(placement, tsp@, trd@);
        assert(rsp@ =~= Seq::<[SettlePlaceID; 2]>::empty());
        assert(queue@[0].0.0 as int == 0);
        assert(in_queue(queue@, 0, 0));
        assert(crate::topology::reach_within(placement, 0, 0));
        assert(crate::topology::spec_reachable(placement, 0));
        // The starting state is the model's initial state.
        let st0 = bfs_state_of(tsp@, trd@, rsp@, spc as int, queue@, head as int);
        assert(tsp@ =~= init_state(placement).tsp);
        assert(trd@ =~= init_state(placement).trd);
        assert(rsp@ =~= init_state(placement).rsp);
        assert(queue@ =~= init_state(placement).queue);
        assert(st0 == init_state(placement));
    }
    while head < queue.len()
        invariant
            1 <= placement.len() <= 256,
            placement == tile_placement@,
            grid_matches(&grid, map_size[0] as int, map_size[1] as int, placement),
            placement_fits(placement, map_size[0] as int, map_size[1] as int),
            grid.spec_width() <= 256,
            grid.spec_height() <= 256,
            tsp@.len() == placement.len(),
            trd@.len() == placement.len(),
            forall|t2: int|
                0 <= t2 < placement.len() ==> ((#[trigger] tsp@[t2] is Some) <==> (trd@[t2]
                    is Some)),
            0 <= count_some(tsp@) <= placement.len(),
            spc as int <= 6 * count_some(tsp@),
            rsp@.len() as int <= 6 * count_some(tsp@),
            corners_ok(placement, tsp@, spc as int),
            roads_ok(placement, tsp@, trd@, rsp@),
            counts_ok(placement, tsp@, rsp@, alloc_set(placement, trd@)),
            head <= queue@.len(),
            spec_bfs(placement, bfs_state_of(tsp@, trd@, rsp@, spc as int, queue@, head as int))
                == spec_traverse(placement),
            forall|k2: int|
                0 <= k2 < queue@.len() ==> ((#[trigger] queue@[k2]).0.0 as int) < placement.len()
                    && queue@[k2].1 == placement[queue@[k2].0.0 as int],
            forall|t2: int, j: int|
                has_entry(tsp@, t2) && #[trigger] crate::topology::adjacent_tiles(
                    placement,
                    t2,
                    j,
                ) ==> has_entry(tsp@, j) || in_queue(queue@, head as int, j),
            has_entry(tsp@, 0) || in_queue(queue@, head as int, 0),
            forall|t2: int|
                has_entry(tsp@, t2) ==> #[trigger] crate::topology::spec_reachable(placement, t2),
            forall|k2: int|
                head <= k2 < queue@.len() ==> crate::topology::spec_reachable(
                    placement,
                    (#[trigger] queue@[k2]).0.0 as int,
                ),
        decreases placement.len() - count_some(tsp@), queue@.len() - head,
    {
        let ghost tsp_in = tsp@;
        let ghost trd_in = trd@;
        let ghost rsp_in = rsp@;
        let ghost spc_in = spc;
        let ghost queue_in = queue@;
        let ghost head_in = head as int;
        let (tile, tpos) = queue[head];
        head = head + 1;
        if tsp[tile.0 as usize].is_none() {
            proof {
                crate::topology::lemma_count_some_missing(tsp@, tile.0 as int);
            }
            let nbrs = process_tile(
                &grid,
                &mut tsp,
                &mut trd,
                &mut rsp,
                &mut spc,
                tile,
                tpos,
                Ghost(placement),
            );
            let ghost qsnap = queue@;
            let mut k: usize = 0;
            while k < nbrs.len()
                invariant
                    k <= nbrs@.len(),
                    queue@ == qsnap + nbrs@.subrange(0, k as int),
                decreases nbrs@.len() - k,
            {
                queue.push(nbrs[k]);
                k = k + 1;
                proof {
                    assert(queue@ =~= qsnap + nbrs@.subrange(0, k as int));
                }
            }
            proof {
                assert(nbrs@.subrange(0, nbrs@.len() as int) =~= nbrs@);
                assert(queue@ == qsnap + nbrs@);
                let tt = tile.0 as int;
                // Every queue entry is still a valid (tile, position) pair.
                assert forall|k2: int|
                    0 <= k2 < queue@.len() implies ((#[trigger] queue@[k2]).0.0 as int)
                    < placement.len() && queue@[k2].1 == placement[queue@[k2].0.0 as int] by {
                    if k2 >= qsnap.len() {
                        assert(nbr_entry_ok(placement, tsp_in, nbrs@[k2 - qsnap.len()], tt));
                    }
                }
                // Every processed tile still has each neighbor processed or
                // queued.
                assert forall|t2: int, j: int|
                    has_entry(tsp@, t2) && #[trigger] crate::topology::adjacent_tiles(
                        placement,
                        t2,
                        j,
                    ) implies has_entry(tsp@, j) || in_queue(queue@, head as int, j) by {
                    if t2 == tt {
                        if !has_entry(tsp@, j) {
                            assert(in_list(nbrs@, j));
                            let k2 = choose|k2: int|
                                0 <= k2 < nbrs@.len() && (#[trigger] nbrs@[k2]).0.0 as int == j;
                            assert(queue@[qsnap.len() + k2].0.0 as int == j);
                            assert(in_queue(queue@, head as int, j));
                        }
                    } else {
                        assert(has_entry(tsp_in, t2));
                        if !has_entry(tsp_in, j) {
                            assert(in_queue(queue_in, head_in, j));
                            let k2 = choose|k2: int|
                                head_in <= k2 < queue_in.len() && (#[trigger] queue_in[k2]).0.0 as int
                                    == j;
                            if k2 == head_in {
                                assert(j == tt);
                                assert(has_entry(tsp@, j));
                            } else {
                                assert(queue@[k2] == queue_in[k2]);
                                assert(in_queue(queue@, head as int, j));
                            }
                        }
                    }
                }
                // Tile zero is processed or still queued.
                if !has_entry(tsp@, 0) {
                    assert(!has_entry(tsp_in, 0));
                    let k2 = choose|k2: int|
                        head_in <= k2 < queue_in.len() && (#[trigger] queue_in[k2]).0.0 as int == 0;
                    if k2 == head_in {
                        assert(has_entry(tsp@, 0));
                    } else {
                        assert(queue@[k2] == queue_in[k2]);
                        assert(in_queue(queue@, head as int, 0));
                    }
                }
                // Everything processed or queued is reachable from tile 0.
                assert(crate::topology::spec_reachable(placement, tt));
                assert forall|t2: int| has_entry(tsp@, t2) implies #[trigger] crate::topology::spec_reachable(
                    placement,
                    t2,
                ) by {
                    if t2 != tt {
                        assert(has_entry(tsp_in, t2));
                    }
                }
                assert forall|k2: int|
                    head <= k2 < queue@.len() implies crate::topology::spec_reachable(
                    placement,
                    (#[trigger] queue@[k2]).0.0 as int,
                ) by {
                    if k2 < qsnap.len() {
                        assert(queue@[k2] == queue_in[k2]);
                    } else {
                        let e = nbrs@[k2 - qsnap.len()];
                        assert(nbr_entry_ok(placement, tsp_in, e, tt));
                        crate::topology::lemma_reach_step(placement, tt, e.0.0 as int);
                    }
                }
            }
            proof {
                // Processing this tile is one step of the model.
                let st_in = bfs_state_of(tsp_in, trd_in, rsp_in, spc_in as int, queue_in, head_in);
                assert(bfs_wf(placement, st_in));
                let st_out = bfs_state_of(tsp@, trd@, rsp@, spc as int, queue@, head as int);
                assert(queue_in == qsnap);
                assert(spec_step(placement, st_in, tile.0 as int) == st_out);
                assert(spec_bfs(placement, st_in) == spec_bfs(placement, st_out));
            }
        } else {
            proof {
                // The popped tile was already processed; the queue only
                // shrinks by its head entry.
                assert forall|t2: int, j: int|
                    has_entry(tsp@, t2) && #[trigger] crate::topology::adjacent_tiles(
                        placement,
                        t2,
                        j,
                    ) implies has_entry(tsp@, j) || in_queue(queue@, head as int, j) by {
                    if !has_entry(tsp@, j) {
                        assert(in_queue(queue_in, head_in, j));
                        let k2 = choose|k2: int|
                            head_in <= k2 < queue_in.len() && (#[trigger] queue_in[k2]).0.0 as int
                                == j;
                        if k2 == head_in {
                            assert(j == tile.0 as int);
                            assert(has_entry(tsp@, j));
                        } else {
                            assert(in_queue(queue@, head as int, j));
                        }
                    }
                }
                if !has_entry(tsp@, 0) {
                    let k2 = choose|k2: int|
                        head_in <= k2 < queue_in.len() && (#[trigger] queue_in[k2]).0.0 as int == 0;
                    if k2 == head_in {
                        assert(has_entry(tsp@, 0));
                    } else {
                        assert(in_queue(queue@, head as int, 0));
                    }
                }
                // Skipping it is one step of the model too.
                let st_in = bfs_state_of(tsp_in, trd_in, rsp_in, spc_in as int, queue_in, head_in);
                assert(bfs_wf(placement, st_in));
                let st_out = bfs_state_of(tsp@, trd@, rsp@, spc as int, queue@, head as int);
                assert(spec_bfs(placement, st_in) == spec_bfs(placement, st_out));
            }
        }
    }
    proof {
        // The queue is exhausted: every neighbor of a processed tile is
        // processed, so the processed tiles are exactly the reachable ones.
        assert forall|t2: int|
            0 <= t2 < placement.len() && crate::topology::spec_reachable(
                placement,
                t2,
            ) implies has_entry(tsp@, t2) by {
            let k = choose|k: nat| crate::topology::reach_within(placement, t2, k);
            crate::topology::lemma_reach_processed(placement, tsp@, t2, k);
        }
        // No settle place serves as a road endpoint more than three times.
        crate::topology::lemma_counts_bound(placement, tsp@, trd@, rsp@);
        // The exhausted queue means the model has finished as well.
        let st_fin = bfs_state_of(tsp@, trd@, rsp@, spc as int, queue@, head as int);
        assert(bfs_wf(placement, st_fin));
        assert(spec_bfs(placement, st_fin) == st_fin);
        assert(st_fin == spec_traverse(placement));
    }
    TileTraversalResult {
        tile_settle_places: AdjacencyList::from_vec(tsp),
        tile_roads: AdjacencyList::from_vec(trd),
        road_settle_places: AdjacencyList::from_vec(rsp),
        settle_places_count: spc,
    }
}

} // verus!
