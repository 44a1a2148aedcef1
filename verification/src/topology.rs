//! The mathematical model of a built topology: which tiles have been
//! processed, which settle-place and road identifiers their tables hold,
//! and what those identifiers mean in terms of the physical corners and
//! edges of the hex grid.
//!
//! The central statements are [`corners_ok`] and [`roads_ok`]: identifiers
//! agree between two (tile, vertex) or (tile, side) pairs exactly when the
//! pairs name the same physical corner or edge, identifiers are dense, and
//! every road knows its two endpoint corners.  [`counts_ok`] ties the
//! number of roads incident to a settle place to the degree of its corner,
//! which is what bounds it by three.

use vstd::prelude::*;
use crate::geometry::corner_edges;
use crate::geometry::hex_nbr;
use crate::geometry::lemma_corner_edge_incidence;
use crate::geometry::lemma_corner_edges_distinct;
use crate::geometry::lemma_edge_ends;
use crate::geometry::tile_corner;
use crate::geometry::tile_edge;
use crate::grid::placement_pos;
use crate::hexmaps::SideMap;
use crate::hexmaps::VertexMap;
use crate::ids::RoadID;
use crate::ids::SettlePlaceID;
use crate::types::HexSide;
use crate::types::HexVertex;

verus! {

/// Row `t` of the table holds an entry: tile `t` has been processed.
pub open spec fn has_entry<A>(table: Seq<Option<A>>, t: int) -> bool {
    0 <= t < table.len() && table[t] is Some
}

/// The settle-place identifier tile `t` stores for its vertex `v`.
pub open spec fn corner_id(
    tsp: Seq<Option<VertexMap<SettlePlaceID>>>,
    t: int,
    v: HexVertex,
) -> SettlePlaceID {
    tsp[t]->Some_0.spec_get(v)
}

/// The road identifier tile `t` stores for its side `s`.
pub open spec fn road_id(trd: Seq<Option<SideMap<RoadID>>>, t: int, s: HexSide) -> RoadID {
    trd[t]->Some_0.spec_get(s)
}

/// Number of rows of the table that hold an entry.
pub open spec fn count_some<A>(table: Seq<Option<A>>) -> int
    decreases table.len(),
{
    if table.len() == 0 {
        0
    } else {
        count_some(table.drop_last()) + if table.last() is Some {
            1int
        } else {
            0int
        }
    }
}

/// How often `id` occurs as an endpoint among the road rows of `rsp`.
pub open spec fn end_count(rsp: Seq<[SettlePlaceID; 2]>, id: SettlePlaceID) -> int
    decreases rsp.len(),
{
    if rsp.len() == 0 {
        0
    } else {
        end_count(rsp.drop_last(), id) + (if rsp.last()[0] == id {
            1int
        } else {
            0int
        }) + (if rsp.last()[1] == id {
            1int
        } else {
            0int
        })
    }
}

/// Tiles `i` and `j` of the placement list share a side.
pub open spec fn adjacent_tiles(placement: Seq<[u8; 2]>, i: int, j: int) -> bool {
    &&& 0 <= i < placement.len()
    &&& 0 <= j < placement.len()
    &&& exists|s: HexSide| hex_nbr(placement_pos(placement, i), s) == placement_pos(placement, j)
}

/// Tile `j` can be reached from tile `0` along shared sides in at most `k`
/// steps.
pub open spec fn reach_within(placement: Seq<[u8; 2]>, j: int, k: nat) -> bool
    decreases k,
{
    if j == 0 {
        true
    } else if k == 0 {
        false
    } else {
        exists|i: int|
            reach_within(placement, i, (k - 1) as nat) && #[trigger] adjacent_tiles(placement, i, j)
    }
}

/// Tile `j` is connected to tile `0` through shared sides.
pub open spec fn spec_reachable(placement: Seq<[u8; 2]>, j: int) -> bool {
    exists|k: nat| reach_within(placement, j, k)
}

/// One where `b` holds, else zero.
pub open spec fn b2i(b: bool) -> int {
    if b {
        1
    } else {
        0
    }
}

/// Some processed tile of `trd` shows physical edge `e` on one of its sides.
pub open spec fn edge_allocated(
    placement: Seq<[u8; 2]>,
    trd: Seq<Option<SideMap<RoadID>>>,
    e: (int, int, HexSide),
) -> bool {
    exists|t: int, s: HexSide|
        #[trigger] tile_edge(placement_pos(placement, t), s) == e && has_entry(trd, t)
}

/// The set of physical edges some processed tile shows.
pub open spec fn alloc_set(placement: Seq<[u8; 2]>, trd: Seq<Option<SideMap<RoadID>>>) -> Set<
    (int, int, HexSide),
> {
    Set::new(|e: (int, int, HexSide)| edge_allocated(placement, trd, e))
}

/// How many of the three edges meeting at corner `c` belong to `alloc`.
pub open spec fn corner_degree(alloc: Set<(int, int, HexSide)>, c: (int, int, bool)) -> int {
    b2i(alloc.contains(corner_edges(c).0)) + b2i(alloc.contains(corner_edges(c).1)) + b2i(
        alloc.contains(corner_edges(c).2),
    )
}

/// Identifier `id` is stored in some processed tile's vertex table.
pub open spec fn corner_id_used(
    placement: Seq<[u8; 2]>,
    tsp: Seq<Option<VertexMap<SettlePlaceID>>>,
    id: int,
) -> bool {
    exists|t: int, v: HexVertex| has_entry(tsp, t) && (#[trigger] corner_id(tsp, t, v)).0 == id
}

/// Identifier `rid` is stored in some processed tile's side table.
pub open spec fn road_id_used(
    placement: Seq<[u8; 2]>,
    trd: Seq<Option<SideMap<RoadID>>>,
    rid: int,
) -> bool {
    exists|t: int, s: HexSide| has_entry(trd, t) && (#[trigger] road_id(trd, t, s)).0 == rid
}

/// Settle-place identifiers are faithful names of physical corners: each
/// stored identifier is below the allocation counter `spc`, every
/// identifier below `spc` is stored somewhere, and two stored identifiers
/// are equal exactly when they name the same physical corner.
#[verifier::opaque]
pub open spec fn corners_ok(
    placement: Seq<[u8; 2]>,
    tsp: Seq<Option<VertexMap<SettlePlaceID>>>,
    spc: int,
) -> bool {
    &&& forall|t: int, v: HexVertex|
        has_entry(tsp, t) ==> 0 <= (#[trigger] corner_id(tsp, t, v)).0 < spc
    &&& forall|id: int| 0 <= id < spc ==> #[trigger] corner_id_used(placement, tsp, id)
    &&& forall|t1: int, v1: HexVertex, t2: int, v2: HexVertex|
        #![trigger corner_id(tsp, t1, v1), corner_id(tsp, t2, v2)]
        has_entry(tsp, t1) && has_entry(tsp, t2) ==> ((corner_id(tsp, t1, v1) == corner_id(
            tsp,
            t2,
            v2,
        )) <==> (tile_corner(placement_pos(placement, t1), v1) == tile_corner(
            placement_pos(placement, t2),
            v2,
        )))
}

/// Road identifiers are faithful names of physical edges, and every road
/// row holds the settle-place identifiers of its edge's two endpoints, in
/// one order or the other.
#[verifier::opaque]
pub open spec fn roads_ok(
    placement: Seq<[u8; 2]>,
    tsp: Seq<Option<VertexMap<SettlePlaceID>>>,
    trd: Seq<Option<SideMap<RoadID>>>,
    rsp: Seq<[SettlePlaceID; 2]>,
) -> bool {
    &&& forall|t: int, s: HexSide|
        has_entry(trd, t) ==> 0 <= (#[trigger] road_id(trd, t, s)).0 < rsp.len()
    &&& forall|rid: int| 0 <= rid < rsp.len() ==> #[trigger] road_id_used(placement, trd, rid)
    &&& forall|t1: int, s1: HexSide, t2: int, s2: HexSide|
        #![trigger road_id(trd, t1, s1), road_id(trd, t2, s2)]
        has_entry(trd, t1) && has_entry(trd, t2) ==> ((road_id(trd, t1, s1) == road_id(
            trd,
            t2,
            s2,
        )) <==> (tile_edge(placement_pos(placement, t1), s1) == tile_edge(
            placement_pos(placement, t2),
            s2,
        )))
    &&& forall|t: int, s: HexSide|
        #![trigger road_id(trd, t, s)]
        has_entry(trd, t) && has_entry(tsp, t) ==> ({
            let row = rsp[road_id(trd, t, s).0 as int];
            let a = corner_id(tsp, t, s.spec_connected_vertices().0);
            let b = corner_id(tsp, t, s.spec_connected_vertices().1);
            (row[0] == a && row[1] == b) || (row[0] == b && row[1] == a)
        })
}

/// The number of roads incident to a settle place equals the number of
/// allocated edges meeting at its corner; identifiers never stored occur in
/// no road row at all.
#[verifier::opaque]
pub open spec fn counts_ok(
    placement: Seq<[u8; 2]>,
    tsp: Seq<Option<VertexMap<SettlePlaceID>>>,
    rsp: Seq<[SettlePlaceID; 2]>,
    alloc: Set<(int, int, HexSide)>,
) -> bool {
    &&& forall|t: int, v: HexVertex|
        has_entry(tsp, t) ==> end_count(rsp, #[trigger] corner_id(tsp, t, v)) == corner_degree(
            alloc,
            tile_corner(placement_pos(placement, t), v),
        )
    &&& forall|id: SettlePlaceID|
        (forall|t: int, v: HexVertex|
            has_entry(tsp, t) ==> #[trigger] corner_id(tsp, t, v) != id) ==> #[trigger] end_count(
            rsp,
            id,
        ) == 0
}

/// A fully processed table: every row wrapped as a present entry.
pub open spec fn as_entries<A>(rows: Seq<A>) -> Seq<Option<A>> {
    rows.map_values(|v: A| Some(v))
}

/// One shared side, one road: for two adjacent processed tiles, the road
/// the first tile stores at the shared side is the road the second stores
/// at the opposite side.
pub proof fn lemma_road_symmetry(
    placement: Seq<[u8; 2]>,
    tsp: Seq<Option<VertexMap<SettlePlaceID>>>,
    trd: Seq<Option<SideMap<RoadID>>>,
    rsp: Seq<[SettlePlaceID; 2]>,
    t1: int,
    s: HexSide,
    t2: int,
)
    requires
        roads_ok(placement, tsp, trd, rsp),
        has_entry(trd, t1),
        has_entry(trd, t2),
        placement_pos(placement, t2) == hex_nbr(placement_pos(placement, t1), s),
    ensures
        road_id(trd, t1, s) == road_id(trd, t2, s.spec_opposite()),
{
    reveal(roads_ok);
    let p1 = placement_pos(placement, t1);
    let p2 = placement_pos(placement, t2);
    crate::geometry::lemma_edge_owners(p1, s, p2, s.spec_opposite());
    assert(crate::geometry::edge_shared(p1, s, p2, s.spec_opposite()));
    assert(tile_edge(p1, s) == tile_edge(p2, s.spec_opposite()));
}

/// One shared corner, one settle place: for two adjacent processed tiles,
/// the two vertices bounding the shared side hold the same settle places
/// on both tiles, with the correspondence reversed across the side.
pub proof fn lemma_corner_sharing(
    placement: Seq<[u8; 2]>,
    tsp: Seq<Option<VertexMap<SettlePlaceID>>>,
    spc: int,
    t1: int,
    s: HexSide,
    t2: int,
)
    requires
        corners_ok(placement, tsp, spc),
        has_entry(tsp, t1),
        has_entry(tsp, t2),
        placement_pos(placement, t2) == hex_nbr(placement_pos(placement, t1), s),
    ensures
        ({
            let vs = s.spec_connected_vertices();
            let ws = s.spec_opposite().spec_connected_vertices();
            &&& corner_id(tsp, t1, vs.0) == corner_id(tsp, t2, ws.1)
            &&& corner_id(tsp, t1, vs.1) == corner_id(tsp, t2, ws.0)
        }),
{
    reveal(corners_ok);
    let p1 = placement_pos(placement, t1);
    crate::geometry::lemma_side_corners(p1, s);
}

/// A table's entry count lies between zero and its length.
pub proof fn lemma_count_some_bounds<A>(table: Seq<Option<A>>)
    ensures
        0 <= count_some(table) <= table.len(),
    decreases table.len(),
{
    if table.len() > 0 {
        lemma_count_some_bounds(table.drop_last());
    }
}

/// Filling a `None` row raises the entry count by one.
pub proof fn lemma_count_some_update<A>(table: Seq<Option<A>>, i: int, value: A)
    requires
        0 <= i < table.len(),
        table[i] is None,
    ensures
        count_some(table.update(i, Some(value))) == count_some(table) + 1,
    decreases table.len(),
{
    let updated = table.update(i, Some(value));
    if i == table.len() - 1 {
        assert(updated.drop_last() =~= table.drop_last());
    } else {
        assert(updated.drop_last() =~= table.drop_last().update(i, Some(value)));
        assert(updated.last() == table.last());
        lemma_count_some_update(table.drop_last(), i, value);
    }
}

/// A table of empty rows has no entries.
pub proof fn lemma_count_some_all_none<A>(table: Seq<Option<A>>)
    requires
        forall|i: int| 0 <= i < table.len() ==> #[trigger] table[i] is None,
    ensures
        count_some(table) == 0,
    decreases table.len(),
{
    if table.len() > 0 {
        lemma_count_some_all_none(table.drop_last());
    }
}

/// A table with a missing row has at least one entry fewer than its length.
pub proof fn lemma_count_some_missing<A>(table: Seq<Option<A>>, i: int)
    requires
        0 <= i < table.len(),
        table[i] is None,
    ensures
        count_some(table) <= table.len() - 1,
    decreases table.len(),
{
    if i == table.len() - 1 {
        lemma_count_some_bounds(table.drop_last());
    } else {
        lemma_count_some_missing(table.drop_last(), i);
    }
}

/// Appending a road row adds its two endpoint occurrences to the count.
pub proof fn lemma_end_count_push(rsp: Seq<[SettlePlaceID; 2]>, row: [SettlePlaceID; 2], id: SettlePlaceID)
    ensures
        end_count(rsp.push(row), id) == end_count(rsp, id) + b2i(row[0] == id) + b2i(row[1] == id),
{
    assert(rsp.push(row).drop_last() =~= rsp);
}

/// An endpoint count is never negative.
pub proof fn lemma_end_count_nonneg(rsp: Seq<[SettlePlaceID; 2]>, id: SettlePlaceID)
    ensures
        0 <= end_count(rsp, id),
    decreases rsp.len(),
{
    if rsp.len() > 0 {
        lemma_end_count_nonneg(rsp.drop_last(), id);
    }
}

/// A neighbor of a reachable tile is reachable.
pub proof fn lemma_reach_step(placement: Seq<[u8; 2]>, i: int, j: int)
    requires
        spec_reachable(placement, i),
        adjacent_tiles(placement, i, j),
    ensures
        spec_reachable(placement, j),
{
    let k = choose|k: nat| reach_within(placement, i, k);
    assert(reach_within(placement, j, k + 1));
}

/// Once no processed tile has an unprocessed neighbor and tile `0` is
/// processed, every reachable tile is processed.
pub proof fn lemma_reach_processed<A>(
    placement: Seq<[u8; 2]>,
    table: Seq<Option<A>>,
    j: int,
    k: nat,
)
    requires
        table.len() == placement.len(),
        has_entry(table, 0),
        forall|t: int, u: int|
            has_entry(table, t) && #[trigger] adjacent_tiles(placement, t, u) ==> has_entry(
                table,
                u,
            ),
        0 <= j < placement.len(),
        reach_within(placement, j, k),
    ensures
        has_entry(table, j),
    decreases k,
{
    if j != 0 {
        let i = choose|i: int|
            reach_within(placement, i, (k - 1) as nat) && #[trigger] adjacent_tiles(
                placement,
                i,
                j,
            );
        lemma_reach_processed(placement, table, i, (k - 1) as nat);
    }
}

/// How the settle-place identifier `id` that the tile being processed
/// stores for its vertex `v` was chosen: either copied from a processed
/// tile that shows the same physical corner, or freshly allocated from the
/// interval `[spc0, spc1)` because no processed tile shows that corner.
pub open spec fn vertex_choice(
    placement: Seq<[u8; 2]>,
    tsp0: Seq<Option<VertexMap<SettlePlaceID>>>,
    t: int,
    v: HexVertex,
    id: SettlePlaceID,
    spc0: int,
    spc1: int,
) -> bool {
    ||| (exists|t2: int, v2: HexVertex|
        has_entry(tsp0, t2) && #[trigger] tile_corner(placement_pos(placement, t2), v2)
            == tile_corner(placement_pos(placement, t), v) && id == corner_id(tsp0, t2, v2))
    ||| (spc0 <= id.0 < spc1 && (forall|t2: int, v2: HexVertex|
        has_entry(tsp0, t2) ==> #[trigger] tile_corner(placement_pos(placement, t2), v2)
            != tile_corner(placement_pos(placement, t), v)))
}

/// Some vertex entry of `vm` holds identifier `id`.
pub open spec fn vm_covers(vm: VertexMap<SettlePlaceID>, id: int) -> bool {
    exists|v: HexVertex| (#[trigger] vm.spec_get(v)).0 == id
}

/// How the road identifier `rid` that the tile being processed stores for
/// its side `s` was chosen: either copied from the processed neighbor that
/// shows the same physical edge, or freshly allocated together with a road
/// row holding the side's two endpoint identifiers.
pub open spec fn side_choice(
    placement: Seq<[u8; 2]>,
    tsp1: Seq<Option<VertexMap<SettlePlaceID>>>,
    trd0: Seq<Option<SideMap<RoadID>>>,
    rsp1: Seq<[SettlePlaceID; 2]>,
    t: int,
    s: HexSide,
    rid: RoadID,
    len0: int,
) -> bool {
    ||| (exists|t2: int, s2: HexSide|
        has_entry(trd0, t2) && #[trigger] tile_edge(placement_pos(placement, t2), s2) == tile_edge(
            placement_pos(placement, t),
            s,
        ) && rid == road_id(trd0, t2, s2))
    ||| (len0 <= rid.0 < rsp1.len() && (forall|t2: int, s2: HexSide|
        has_entry(trd0, t2) ==> #[trigger] tile_edge(placement_pos(placement, t2), s2)
            != tile_edge(placement_pos(placement, t), s)) && rsp1[rid.0 as int] == [
        corner_id(tsp1, t, s.spec_connected_vertices().0),
        corner_id(tsp1, t, s.spec_connected_vertices().1),
    ])
}

/// Some side entry of `sm` holds identifier `rid`.
pub open spec fn sm_covers(sm: SideMap<RoadID>, rid: int) -> bool {
    exists|s: HexSide| (#[trigger] sm.spec_get(s)).0 == rid
}

/// Marking one fresh tile preserves `corners_ok`: its copied entries agree
/// with the tiles they were copied from, and its fresh entries fill the
/// identifier interval `[spc0, spc1)` with corners nobody showed before.
pub proof fn lemma_corners_extend(
    placement: Seq<[u8; 2]>,
    tsp0: Seq<Option<VertexMap<SettlePlaceID>>>,
    t: int,
    vm: VertexMap<SettlePlaceID>,
    spc0: int,
    spc1: int,
)
    requires
        corners_ok(placement, tsp0, spc0),
        tsp0.len() == placement.len(),
        0 <= t < placement.len(),
        !has_entry(tsp0, t),
        spc0 <= spc1,
        forall|v: HexVertex|
            vertex_choice(placement, tsp0, t, v, #[trigger] vm.spec_get(v), spc0, spc1),
        forall|v1: HexVertex, v2: HexVertex|
            #![trigger vm.spec_get(v1), vm.spec_get(v2)]
            v1 != v2 && vm.spec_get(v1).0 >= spc0 && vm.spec_get(v2).0 >= spc0 ==> vm.spec_get(v1)
                != vm.spec_get(v2),
        forall|id: int| spc0 <= id < spc1 ==> #[trigger] vm_covers(vm, id),
    ensures
        corners_ok(placement, tsp0.update(t, Some(vm)), spc1),
{
    reveal(corners_ok);
    let tsp1 = tsp0.update(t, Some(vm));
    let pt = placement_pos(placement, t);
    assert forall|t1: int, v1: HexVertex| has_entry(tsp1, t1) implies 0 <= (#[trigger] corner_id(
        tsp1,
        t1,
        v1,
    )).0 < spc1 by {
        if t1 == t {
            assert(vertex_choice(placement, tsp0, t, v1, vm.spec_get(v1), spc0, spc1));
        } else {
            assert(corner_id(tsp1, t1, v1) == corner_id(tsp0, t1, v1));
        }
    }
    assert forall|id: int| 0 <= id < spc1 implies #[trigger] corner_id_used(
        placement,
        tsp1,
        id,
    ) by {
        if id < spc0 {
            assert(corner_id_used(placement, tsp0, id));
            let (t2, v2) = choose|t2: int, v2: HexVertex|
                has_entry(tsp0, t2) && (#[trigger] corner_id(tsp0, t2, v2)).0 == id;
            assert(has_entry(tsp1, t2) && corner_id(tsp1, t2, v2).0 == id);
        } else {
            assert(vm_covers(vm, id));
            let v = choose|v: HexVertex| (#[trigger] vm.spec_get(v)).0 == id;
            assert(has_entry(tsp1, t) && corner_id(tsp1, t, v).0 == id);
        }
    }
    assert forall|t1: int, v1: HexVertex, t2: int, v2: HexVertex|
        #![trigger corner_id(tsp1, t1, v1), corner_id(tsp1, t2, v2)]
        has_entry(tsp1, t1) && has_entry(tsp1, t2) implies ((corner_id(tsp1, t1, v1) == corner_id(
        tsp1,
        t2,
        v2,
    )) <==> (tile_corner(placement_pos(placement, t1), v1) == tile_corner(
        placement_pos(placement, t2),
        v2,
    ))) by {
        lemma_corner_pair(placement, tsp0, t, vm, spc0, spc1, t1, v1, t2, v2);
    }
}

/// The two-pair case analysis behind `lemma_corners_extend`.
proof fn lemma_corner_pair(
    placement: Seq<[u8; 2]>,
    tsp0: Seq<Option<VertexMap<SettlePlaceID>>>,
    t: int,
    vm: VertexMap<SettlePlaceID>,
    spc0: int,
    spc1: int,
    t1: int,
    v1: HexVertex,
    t2: int,
    v2: HexVertex,
)
    requires
        corners_ok(placement, tsp0, spc0),
        tsp0.len() == placement.len(),
        0 <= t < placement.len(),
        !has_entry(tsp0, t),
        spc0 <= spc1,
        forall|v: HexVertex|
            vertex_choice(placement, tsp0, t, v, #[trigger] vm.spec_get(v), spc0, spc1),
        forall|va: HexVertex, vb: HexVertex|
            #![trigger vm.spec_get(va), vm.spec_get(vb)]
            va != vb && vm.spec_get(va).0 >= spc0 && vm.spec_get(vb).0 >= spc0 ==> vm.spec_get(va)
                != vm.spec_get(vb),
        has_entry(tsp0.update(t, Some(vm)), t1),
        has_entry(tsp0.update(t, Some(vm)), t2),
    ensures
        ({
            let tsp1 = tsp0.update(t, Some(vm));
            (corner_id(tsp1, t1, v1) == corner_id(tsp1, t2, v2)) <==> (tile_corner(
                placement_pos(placement, t1),
                v1,
            ) == tile_corner(placement_pos(placement, t2), v2))
        }),
{
    reveal(corners_ok);
    let tsp1 = tsp0.update(t, Some(vm));
    let p1 = placement_pos(placement, t1);
    let p2 = placement_pos(placement, t2);
    if t1 != t && t2 != t {
        assert(corner_id(tsp1, t1, v1) == corner_id(tsp0, t1, v1));
        assert(corner_id(tsp1, t2, v2) == corner_id(tsp0, t2, v2));
    } else if t1 == t && t2 == t {
        assert(vertex_choice(placement, tsp0, t, v1, vm.spec_get(v1), spc0, spc1));
        assert(vertex_choice(placement, tsp0, t, v2, vm.spec_get(v2), spc0, spc1));
        crate::geometry::lemma_corner_owners(p1, v1, p2, v2);
        if v1 == v2 {
        } else {
            assert(tile_corner(p1, v1) != tile_corner(p2, v2));
            // Show the identifiers differ as well, by the manner of choice.
            if vm.spec_get(v1).0 >= spc0 && vm.spec_get(v2).0 >= spc0 {
                assert(vm.spec_get(v1) != vm.spec_get(v2));
            } else if vm.spec_get(v1).0 < spc0 && vm.spec_get(v2).0 < spc0 {
                if vm.spec_get(v1) == vm.spec_get(v2) {
                    let (ta, va) = choose|ta: int, va: HexVertex|
                        has_entry(tsp0, ta) && #[trigger] tile_corner(
                            placement_pos(placement, ta),
                            va,
                        ) == tile_corner(p1, v1) && vm.spec_get(v1) == corner_id(tsp0, ta, va);
                    let (tb, vb) = choose|tb: int, vb: HexVertex|
                        has_entry(tsp0, tb) && #[trigger] tile_corner(
                            placement_pos(placement, tb),
                            vb,
                        ) == tile_corner(p2, v2) && vm.spec_get(v2) == corner_id(tsp0, tb, vb);
                    assert(corner_id(tsp0, ta, va) == corner_id(tsp0, tb, vb));
                    assert(tile_corner(placement_pos(placement, ta), va) == tile_corner(
                        placement_pos(placement, tb),
                        vb,
                    ));
                    assert(false);
                }
            }
        }
    } else if t1 == t {
        // `t2` is an already processed tile.
        assert(corner_id(tsp1, t2, v2) == corner_id(tsp0, t2, v2));
        assert(vertex_choice(placement, tsp0, t, v1, vm.spec_get(v1), spc0, spc1));
        lemma_corner_mixed(placement, tsp0, t, v1, vm.spec_get(v1), spc0, spc1, t2, v2);
    } else {
        assert(corner_id(tsp1, t1, v1) == corner_id(tsp0, t1, v1));
        assert(vertex_choice(placement, tsp0, t, v2, vm.spec_get(v2), spc0, spc1));
        lemma_corner_mixed(placement, tsp0, t, v2, vm.spec_get(v2), spc0, spc1, t1, v1);
    }
}

/// One pair on the fresh tile against one pair on a processed tile.
proof fn lemma_corner_mixed(
    placement: Seq<[u8; 2]>,
    tsp0: Seq<Option<VertexMap<SettlePlaceID>>>,
    t: int,
    v: HexVertex,
    id: SettlePlaceID,
    spc0: int,
    spc1: int,
    t2: int,
    v2: HexVertex,
)
    requires
        corners_ok(placement, tsp0, spc0),
        tsp0.len() == placement.len(),
        0 <= t < placement.len(),
        !has_entry(tsp0, t),
        vertex_choice(placement, tsp0, t, v, id, spc0, spc1),
        has_entry(tsp0, t2),
    ensures
        (id == corner_id(tsp0, t2, v2)) <==> (tile_corner(placement_pos(placement, t), v)
            == tile_corner(placement_pos(placement, t2), v2)),
{
    reveal(corners_ok);
    let pt = placement_pos(placement, t);
    let p2 = placement_pos(placement, t2);
    if id.0 >= spc0 {
        // Fresh: nobody processed shows this corner, and the identifier is
        // new, so both sides of the equivalence are false.
        assert(tile_corner(p2, v2) != tile_corner(pt, v));
        assert(corner_id(tsp0, t2, v2).0 < spc0);
    } else {
        let (ta, va) = choose|ta: int, va: HexVertex|
            has_entry(tsp0, ta) && #[trigger] tile_corner(placement_pos(placement, ta), va)
                == tile_corner(pt, v) && id == corner_id(tsp0, ta, va);
        assert((corner_id(tsp0, ta, va) == corner_id(tsp0, t2, v2)) <==> (tile_corner(
            placement_pos(placement, ta),
            va,
        ) == tile_corner(p2, v2)));
    }
}

/// Marking one fresh tile preserves `roads_ok`: its copied side entries
/// agree with the neighbors they were copied from, and its fresh entries
/// fill the road-identifier interval `[len0, rsp1.len())` with rows naming
/// the correct endpoint corners.
pub proof fn lemma_roads_extend(
    placement: Seq<[u8; 2]>,
    tsp1: Seq<Option<VertexMap<SettlePlaceID>>>,
    trd0: Seq<Option<SideMap<RoadID>>>,
    rsp0: Seq<[SettlePlaceID; 2]>,
    rsp1: Seq<[SettlePlaceID; 2]>,
    t: int,
    sm: SideMap<RoadID>,
    spc1: int,
)
    requires
        roads_ok(placement, tsp1, trd0, rsp0),
        corners_ok(placement, tsp1, spc1),
        trd0.len() == placement.len(),
        tsp1.len() == placement.len(),
        0 <= t < placement.len(),
        !has_entry(trd0, t),
        has_entry(tsp1, t),
        forall|t2: int| 0 <= t2 < placement.len() && t2 != t ==> (has_entry(trd0, t2) ==> has_entry(tsp1, t2)),
        rsp0.len() <= rsp1.len(),
        forall|rid: int| 0 <= rid < rsp0.len() ==> rsp1[rid] == #[trigger] rsp0[rid],
        forall|s: HexSide|
            side_choice(placement, tsp1, trd0, rsp1, t, s, #[trigger] sm.spec_get(s), rsp0.len() as int),
        forall|s1: HexSide, s2: HexSide|
            #![trigger sm.spec_get(s1), sm.spec_get(s2)]
            s1 != s2 && sm.spec_get(s1).0 >= rsp0.len() && sm.spec_get(s2).0 >= rsp0.len()
                ==> sm.spec_get(s1) != sm.spec_get(s2),
        forall|rid: int| rsp0.len() <= rid < rsp1.len() ==> #[trigger] sm_covers(sm, rid),
    ensures
        roads_ok(placement, tsp1, trd0.update(t, Some(sm)), rsp1),
{
    reveal(roads_ok);
    reveal(corners_ok);
    let trd1 = trd0.update(t, Some(sm));
    let pt = placement_pos(placement, t);
    assert forall|t1: int, s1: HexSide| has_entry(trd1, t1) implies 0 <= (#[trigger] road_id(
        trd1,
        t1,
        s1,
    )).0 < rsp1.len() by {
        if t1 == t {
            assert(side_choice(placement, tsp1, trd0, rsp1, t, s1, sm.spec_get(s1), rsp0.len() as int));
        } else {
            assert(road_id(trd1, t1, s1) == road_id(trd0, t1, s1));
        }
    }
    assert forall|rid: int| 0 <= rid < rsp1.len() implies #[trigger] road_id_used(
        placement,
        trd1,
        rid,
    ) by {
        if rid < rsp0.len() {
            assert(road_id_used(placement, trd0, rid));
            let (t2, s2) = choose|t2: int, s2: HexSide|
                has_entry(trd0, t2) && (#[trigger] road_id(trd0, t2, s2)).0 == rid;
            assert(has_entry(trd1, t2) && road_id(trd1, t2, s2).0 == rid);
        } else {
            assert(sm_covers(sm, rid));
            let s = choose|s: HexSide| (#[trigger] sm.spec_get(s)).0 == rid;
            assert(has_entry(trd1, t) && road_id(trd1, t, s).0 == rid);
        }
    }
    assert forall|t1: int, s1: HexSide, t2: int, s2: HexSide|
        #![trigger road_id(trd1, t1, s1), road_id(trd1, t2, s2)]
        has_entry(trd1, t1) && has_entry(trd1, t2) implies ((road_id(trd1, t1, s1) == road_id(
        trd1,
        t2,
        s2,
    )) <==> (tile_edge(placement_pos(placement, t1), s1) == tile_edge(
        placement_pos(placement, t2),
        s2,
    ))) by {
        lemma_road_pair(placement, tsp1, trd0, rsp0, rsp1, t, sm, t1, s1, t2, s2);
    }
    assert forall|t1: int, s1: HexSide|
        #![trigger road_id(trd1, t1, s1)]
        has_entry(trd1, t1) && has_entry(tsp1, t1) implies ({
        let row = rsp1[road_id(trd1, t1, s1).0 as int];
        let a = corner_id(tsp1, t1, s1.spec_connected_vertices().0);
        let b = corner_id(tsp1, t1, s1.spec_connected_vertices().1);
        (row[0] == a && row[1] == b) || (row[0] == b && row[1] == a)
    }) by {
        let rid = road_id(trd1, t1, s1);
        if t1 != t {
            assert(road_id(trd1, t1, s1) == road_id(trd0, t1, s1));
            assert(rid.0 < rsp0.len());
            assert(rsp1[rid.0 as int] == rsp0[rid.0 as int]);
        } else {
            assert(side_choice(placement, tsp1, trd0, rsp1, t, s1, sm.spec_get(s1), rsp0.len() as int));
            if sm.spec_get(s1).0 >= rsp0.len() {
                // Fresh: the appended row holds exactly this side's corners.
            } else {
                // Copied from the processed neighbor showing the same edge.
                let (t2, s2) = choose|t2: int, s2: HexSide|
                    has_entry(trd0, t2) && #[trigger] tile_edge(placement_pos(placement, t2), s2)
                        == tile_edge(pt, s1) && sm.spec_get(s1) == road_id(trd0, t2, s2);
                let p2 = placement_pos(placement, t2);
                assert(rid.0 < rsp0.len());
                assert(rsp1[rid.0 as int] == rsp0[rid.0 as int]);
                let vs = s1.spec_connected_vertices();
                let ws = s2.spec_connected_vertices();
                crate::geometry::lemma_edge_ends(pt, s1);
                crate::geometry::lemma_edge_ends(p2, s2);
                // The two tiles list the same two physical corners for this
                // edge, so their identifier pairs agree up to order.
                assert(tile_corner(pt, vs.0) == tile_corner(p2, ws.0) || tile_corner(pt, vs.0)
                    == tile_corner(p2, ws.1));
                assert(tile_corner(pt, vs.1) == tile_corner(p2, ws.0) || tile_corner(pt, vs.1)
                    == tile_corner(p2, ws.1));
                assert(tile_corner(pt, vs.0) != tile_corner(pt, vs.1)) by {
                    crate::geometry::lemma_corner_owners(pt, vs.0, pt, vs.1);
                }
            }
        }
    }
}

/// The two-pair case analysis behind `lemma_roads_extend`.
proof fn lemma_road_pair(
    placement: Seq<[u8; 2]>,
    tsp1: Seq<Option<VertexMap<SettlePlaceID>>>,
    trd0: Seq<Option<SideMap<RoadID>>>,
    rsp0: Seq<[SettlePlaceID; 2]>,
    rsp1: Seq<[SettlePlaceID; 2]>,
    t: int,
    sm: SideMap<RoadID>,
    t1: int,
    s1: HexSide,
    t2: int,
    s2: HexSide,
)
    requires
        roads_ok(placement, tsp1, trd0, rsp0),
        trd0.len() == placement.len(),
        0 <= t < placement.len(),
        !has_entry(trd0, t),
        forall|s: HexSide|
            side_choice(placement, tsp1, trd0, rsp1, t, s, #[trigger] sm.spec_get(s), rsp0.len() as int),
        forall|sa: HexSide, sb: HexSide|
            #![trigger sm.spec_get(sa), sm.spec_get(sb)]
            sa != sb && sm.spec_get(sa).0 >= rsp0.len() && sm.spec_get(sb).0 >= rsp0.len()
                ==> sm.spec_get(sa) != sm.spec_get(sb),
        has_entry(trd0.update(t, Some(sm)), t1),
        has_entry(trd0.update(t, Some(sm)), t2),
    ensures
        ({
            let trd1 = trd0.update(t, Some(sm));
            (road_id(trd1, t1, s1) == road_id(trd1, t2, s2)) <==> (tile_edge(
                placement_pos(placement, t1),
                s1,
            ) == tile_edge(placement_pos(placement, t2), s2))
        }),
{
    reveal(roads_ok);
    let trd1 = trd0.update(t, Some(sm));
    let p1 = placement_pos(placement, t1);
    let p2 = placement_pos(placement, t2);
    if t1 != t && t2 != t {
        assert(road_id(trd1, t1, s1) == road_id(trd0, t1, s1));
        assert(road_id(trd1, t2, s2) == road_id(trd0, t2, s2));
    } else if t1 == t && t2 == t {
        assert(side_choice(placement, tsp1, trd0, rsp1, t, s1, sm.spec_get(s1), rsp0.len() as int));
        assert(side_choice(placement, tsp1, trd0, rsp1, t, s2, sm.spec_get(s2), rsp0.len() as int));
        crate::geometry::lemma_edge_owners(p1, s1, p2, s2);
        if s1 == s2 {
        } else {
            assert(tile_edge(p1, s1) != tile_edge(p2, s2));
            if sm.spec_get(s1).0 >= rsp0.len() && sm.spec_get(s2).0 >= rsp0.len() {
                assert(sm.spec_get(s1) != sm.spec_get(s2));
            } else if sm.spec_get(s1).0 < rsp0.len() && sm.spec_get(s2).0 < rsp0.len() {
                if sm.spec_get(s1) == sm.spec_get(s2) {
                    let (ta, sa) = choose|ta: int, sa: HexSide|
                        has_entry(trd0, ta) && #[trigger] tile_edge(
                            placement_pos(placement, ta),
                            sa,
                        ) == tile_edge(p1, s1) && sm.spec_get(s1) == road_id(trd0, ta, sa);
                    let (tb, sb) = choose|tb: int, sb: HexSide|
                        has_entry(trd0, tb) && #[trigger] tile_edge(
                            placement_pos(placement, tb),
                            sb,
                        ) == tile_edge(p2, s2) && sm.spec_get(s2) == road_id(trd0, tb, sb);
                    assert(road_id(trd0, ta, sa) == road_id(trd0, tb, sb));
                    assert(tile_edge(placement_pos(placement, ta), sa) == tile_edge(
                        placement_pos(placement, tb),
                        sb,
                    ));
                    assert(false);
                }
            }
        }
    } else if t1 == t {
        assert(road_id(trd1, t2, s2) == road_id(trd0, t2, s2));
        assert(side_choice(placement, tsp1, trd0, rsp1, t, s1, sm.spec_get(s1), rsp0.len() as int));
        lemma_road_mixed(placement, tsp1, trd0, rsp0, rsp1, t, s1, sm.spec_get(s1), t2, s2);
    } else {
        assert(road_id(trd1, t1, s1) == road_id(trd0, t1, s1));
        assert(side_choice(placement, tsp1, trd0, rsp1, t, s2, sm.spec_get(s2), rsp0.len() as int));
        lemma_road_mixed(placement, tsp1, trd0, rsp0, rsp1, t, s2, sm.spec_get(s2), t1, s1);
    }
}

/// One side on the fresh tile against one side on a processed tile.
proof fn lemma_road_mixed(
    placement: Seq<[u8; 2]>,
    tsp1: Seq<Option<VertexMap<SettlePlaceID>>>,
    trd0: Seq<Option<SideMap<RoadID>>>,
    rsp0: Seq<[SettlePlaceID; 2]>,
    rsp1: Seq<[SettlePlaceID; 2]>,
    t: int,
    s: HexSide,
    rid: RoadID,
    t2: int,
    s2: HexSide,
)
    requires
        roads_ok(placement, tsp1, trd0, rsp0),
        trd0.len() == placement.len(),
        0 <= t < placement.len(),
        !has_entry(trd0, t),
        side_choice(placement, tsp1, trd0, rsp1, t, s, rid, rsp0.len() as int),
        has_entry(trd0, t2),
    ensures
        (rid == road_id(trd0, t2, s2)) <==> (tile_edge(placement_pos(placement, t), s)
            == tile_edge(placement_pos(placement, t2), s2)),
{
    reveal(roads_ok);
    let pt = placement_pos(placement, t);
    let p2 = placement_pos(placement, t2);
    if rid.0 >= rsp0.len() {
        assert(tile_edge(p2, s2) != tile_edge(pt, s));
        assert(road_id(trd0, t2, s2).0 < rsp0.len());
    } else {
        let (ta, sa) = choose|ta: int, sa: HexSide|
            has_entry(trd0, ta) && #[trigger] tile_edge(placement_pos(placement, ta), sa)
                == tile_edge(pt, s) && rid == road_id(trd0, ta, sa);
        assert((road_id(trd0, ta, sa) == road_id(trd0, t2, s2)) <==> (tile_edge(
            placement_pos(placement, ta),
            sa,
        ) == tile_edge(p2, s2)));
    }
}

/// Marking one fresh tile preserves the count bookkeeping before any of
/// its roads are appended: copied vertex entries already count correctly,
/// and fresh vertex entries name corners with no incident allocated edge.
pub proof fn lemma_counts_after_mark(
    placement: Seq<[u8; 2]>,
    tsp0: Seq<Option<VertexMap<SettlePlaceID>>>,
    trd0: Seq<Option<SideMap<RoadID>>>,
    rsp0: Seq<[SettlePlaceID; 2]>,
    t: int,
    vm: VertexMap<SettlePlaceID>,
    spc0: int,
    spc1: int,
)
    requires
        counts_ok(placement, tsp0, rsp0, alloc_set(placement, trd0)),
        corners_ok(placement, tsp0, spc0),
        tsp0.len() == placement.len(),
        trd0.len() == placement.len(),
        forall|t2: int|
            0 <= t2 < placement.len() ==> (has_entry(trd0, t2) ==> has_entry(tsp0, t2)),
        0 <= t < placement.len(),
        !has_entry(tsp0, t),
        forall|v: HexVertex|
            vertex_choice(placement, tsp0, t, v, #[trigger] vm.spec_get(v), spc0, spc1),
    ensures
        counts_ok(placement, tsp0.update(t, Some(vm)), rsp0, alloc_set(placement, trd0)),
{
    reveal(counts_ok);
    reveal(corners_ok);
    let tsp1 = tsp0.update(t, Some(vm));
    let alloc = alloc_set(placement, trd0);
    let pt = placement_pos(placement, t);
    assert forall|t1: int, v1: HexVertex| has_entry(tsp1, t1) implies end_count(
        rsp0,
        #[trigger] corner_id(tsp1, t1, v1),
    ) == corner_degree(alloc, tile_corner(placement_pos(placement, t1), v1)) by {
        if t1 != t {
            assert(corner_id(tsp1, t1, v1) == corner_id(tsp0, t1, v1));
        } else {
            let id = corner_id(tsp1, t, v1);
            assert(id == vm.spec_get(v1));
            assert(vertex_choice(placement, tsp0, t, v1, vm.spec_get(v1), spc0, spc1));
            let c = tile_corner(pt, v1);
            if id.0 >= spc0 {
                // Fresh identifier: it occurs in no road row yet.
                assert forall|t2: int, v2: HexVertex|
                    has_entry(tsp0, t2) implies #[trigger] corner_id(tsp0, t2, v2) != id by {
                    assert(corner_id(tsp0, t2, v2).0 < spc0);
                }
                assert(end_count(rsp0, id) == 0);
                // And no allocated edge touches its corner.
                lemma_fresh_corner_degree(placement, tsp0, trd0, t, v1, c);
            } else {
                let (ta, va) = choose|ta: int, va: HexVertex|
                    has_entry(tsp0, ta) && #[trigger] tile_corner(placement_pos(placement, ta), va)
                        == tile_corner(pt, v1) && id == corner_id(tsp0, ta, va);
                assert(end_count(rsp0, corner_id(tsp0, ta, va)) == corner_degree(
                    alloc,
                    tile_corner(placement_pos(placement, ta), va),
                ));
            }
        }
    }
    assert forall|id: SettlePlaceID|
        (forall|t2: int, v2: HexVertex|
            has_entry(tsp1, t2) ==> #[trigger] corner_id(tsp1, t2, v2) != id) implies #[trigger] end_count(
        rsp0,
        id,
    ) == 0 by {
        assert forall|t2: int, v2: HexVertex|
            has_entry(tsp0, t2) implies #[trigger] corner_id(tsp0, t2, v2) != id by {
            assert(has_entry(tsp1, t2));
            assert(corner_id(tsp1, t2, v2) == corner_id(tsp0, t2, v2));
        }
    }
}

/// No allocated edge is incident to a corner that no processed tile shows.
proof fn lemma_fresh_corner_degree(
    placement: Seq<[u8; 2]>,
    tsp0: Seq<Option<VertexMap<SettlePlaceID>>>,
    trd0: Seq<Option<SideMap<RoadID>>>,
    t: int,
    v: HexVertex,
    c: (int, int, bool),
)
    requires
        tsp0.len() == placement.len(),
        trd0.len() == placement.len(),
        forall|t2: int|
            0 <= t2 < placement.len() ==> (has_entry(trd0, t2) ==> has_entry(tsp0, t2)),
        0 <= t < placement.len(),
        c == tile_corner(placement_pos(placement, t), v),
        forall|t2: int, v2: HexVertex|
            has_entry(tsp0, t2) ==> #[trigger] tile_corner(placement_pos(placement, t2), v2)
                != tile_corner(placement_pos(placement, t), v),
    ensures
        corner_degree(alloc_set(placement, trd0), c) == 0,
{
    let alloc = alloc_set(placement, trd0);
    assert forall|e: (int, int, HexSide)|
        e == corner_edges(c).0 || e == corner_edges(c).1 || e == corner_edges(
            c,
        ).2 implies !alloc.contains(e) by {
        if alloc.contains(e) {
            assert(edge_allocated(placement, trd0, e));
            let (t2, s2) = choose|t2: int, s2: HexSide|
                #[trigger] tile_edge(placement_pos(placement, t2), s2) == e && has_entry(trd0, t2);
            let p2 = placement_pos(placement, t2);
            lemma_corner_edge_incidence(p2, s2, c);
            lemma_edge_ends(p2, s2);
            let vs = s2.spec_connected_vertices();
            assert(c == tile_corner(p2, vs.0) || c == tile_corner(p2, vs.1));
            assert(has_entry(tsp0, t2));
            assert(false);
        }
    }
    assert(!alloc.contains(corner_edges(c).0));
    assert(!alloc.contains(corner_edges(c).1));
    assert(!alloc.contains(corner_edges(c).2));
}

/// Appending a road row for a fresh edge preserves the count bookkeeping:
/// the edge's two endpoint identifiers each gain one incidence, and so do
/// the degrees of exactly their two corners.
pub proof fn lemma_alloc_step(
    placement: Seq<[u8; 2]>,
    tsp: Seq<Option<VertexMap<SettlePlaceID>>>,
    rsp: Seq<[SettlePlaceID; 2]>,
    alloc: Set<(int, int, HexSide)>,
    t: int,
    s: HexSide,
    spc: int,
)
    requires
        counts_ok(placement, tsp, rsp, alloc),
        corners_ok(placement, tsp, spc),
        has_entry(tsp, t),
        !alloc.contains(tile_edge(placement_pos(placement, t), s)),
    ensures
        counts_ok(
            placement,
            tsp,
            rsp.push(
                [
                    corner_id(tsp, t, s.spec_connected_vertices().0),
                    corner_id(tsp, t, s.spec_connected_vertices().1),
                ],
            ),
            alloc.insert(tile_edge(placement_pos(placement, t), s)),
        ),
{
    reveal(counts_ok);
    reveal(corners_ok);
    let p = placement_pos(placement, t);
    let e = tile_edge(p, s);
    let vs = s.spec_connected_vertices();
    let a = corner_id(tsp, t, vs.0);
    let b = corner_id(tsp, t, vs.1);
    let ca = tile_corner(p, vs.0);
    let cb = tile_corner(p, vs.1);
    let row = [a, b];
    let rsp2 = rsp.push(row);
    let alloc2 = alloc.insert(e);
    lemma_edge_ends(p, s);
    assert(ca != cb);
    assert(a != b);
    assert forall|t2: int, v2: HexVertex| has_entry(tsp, t2) implies end_count(
        rsp2,
        #[trigger] corner_id(tsp, t2, v2),
    ) == corner_degree(alloc2, tile_corner(placement_pos(placement, t2), v2)) by {
        let id2 = corner_id(tsp, t2, v2);
        let c2 = tile_corner(placement_pos(placement, t2), v2);
        lemma_end_count_push(rsp, row, id2);
        lemma_corner_edge_incidence(p, s, c2);
        lemma_corner_edges_distinct(c2);
        assert((id2 == a) <==> (c2 == ca));
        assert((id2 == b) <==> (c2 == cb));
        assert(end_count(rsp2, id2) == end_count(rsp, id2) + b2i(c2 == ca) + b2i(c2 == cb));
        assert(corner_degree(alloc2, c2) == corner_degree(alloc, c2) + b2i(
            e == corner_edges(c2).0,
        ) + b2i(e == corner_edges(c2).1) + b2i(e == corner_edges(c2).2));
        if c2 == ca || c2 == cb {
            assert(e == corner_edges(c2).0 || e == corner_edges(c2).1 || e == corner_edges(c2).2);
            assert(b2i(e == corner_edges(c2).0) + b2i(e == corner_edges(c2).1) + b2i(
                e == corner_edges(c2).2,
            ) == 1);
            assert(b2i(c2 == ca) + b2i(c2 == cb) == 1);
        } else {
            assert(!(e == corner_edges(c2).0 || e == corner_edges(c2).1 || e == corner_edges(
                c2,
            ).2));
        }
    }
    assert forall|id: SettlePlaceID|
        (forall|t2: int, v2: HexVertex|
            has_entry(tsp, t2) ==> #[trigger] corner_id(tsp, t2, v2) != id) implies #[trigger] end_count(
        rsp2,
        id,
    ) == 0 by {
        assert(corner_id(tsp, t, vs.0) != id);
        assert(corner_id(tsp, t, vs.1) != id);
        lemma_end_count_push(rsp, row, id);
    }
}


/// Every stored settle-place identifier lies below the counter.
pub proof fn lemma_corners_bound(
    placement: Seq<[u8; 2]>,
    tsp: Seq<Option<VertexMap<SettlePlaceID>>>,
    spc: int,
)
    requires
        corners_ok(placement, tsp, spc),
    ensures
        forall|t: int, v: HexVertex|
            has_entry(tsp, t) ==> 0 <= (#[trigger] corner_id(tsp, t, v)).0 < spc,
{
    reveal(corners_ok);
}

/// Every stored road identifier lies below the table length.
pub proof fn lemma_roads_bound(
    placement: Seq<[u8; 2]>,
    tsp: Seq<Option<VertexMap<SettlePlaceID>>>,
    trd: Seq<Option<SideMap<RoadID>>>,
    rsp: Seq<[SettlePlaceID; 2]>,
)
    requires
        roads_ok(placement, tsp, trd, rsp),
    ensures
        forall|t: int, s: HexSide|
            has_entry(trd, t) ==> 0 <= (#[trigger] road_id(trd, t, s)).0 < rsp.len(),
{
    reveal(roads_ok);
}

/// Before any tile is processed, all three invariants hold trivially.
pub proof fn lemma_empty_state(
    placement: Seq<[u8; 2]>,
    tsp: Seq<Option<VertexMap<SettlePlaceID>>>,
    trd: Seq<Option<SideMap<RoadID>>>,
)
    requires
        forall|j: int| 0 <= j < tsp.len() ==> #[trigger] tsp[j] is None,
        forall|j: int| 0 <= j < trd.len() ==> #[trigger] trd[j] is None,
    ensures
        corners_ok(placement, tsp, 0),
        roads_ok(placement, tsp, trd, Seq::empty()),
        counts_ok(placement, tsp, Seq::empty(), alloc_set(placement, trd)),
{
    reveal(corners_ok);
    reveal(roads_ok);
    reveal(counts_ok);
}

/// The count bookkeeping caps every settle place at three incident roads:
/// a corner has only three edges.
pub proof fn lemma_counts_bound(
    placement: Seq<[u8; 2]>,
    tsp: Seq<Option<VertexMap<SettlePlaceID>>>,
    trd: Seq<Option<SideMap<RoadID>>>,
    rsp: Seq<[SettlePlaceID; 2]>,
)
    requires
        counts_ok(placement, tsp, rsp, alloc_set(placement, trd)),
    ensures
        forall|id: SettlePlaceID| #[trigger] end_count(rsp, id) <= 3,
{
    reveal(counts_ok);
    assert forall|id: SettlePlaceID| #[trigger] end_count(rsp, id) <= 3 by {
        if exists|t: int, v: HexVertex|
            has_entry(tsp, t) && #[trigger] corner_id(tsp, t, v) == id {
            let (t, v) = choose|t: int, v: HexVertex|
                has_entry(tsp, t) && #[trigger] corner_id(tsp, t, v) == id;
            assert(end_count(rsp, id) == corner_degree(
                alloc_set(placement, trd),
                tile_corner(placement_pos(placement, t), v),
            ));
        }
    }
}

/// Identifier density: every settle-place identifier below the counter
/// occurs in some processed tile's vertex table, and every road identifier
/// below the road count in some processed tile's side table.
pub proof fn lemma_ids_dense(
    placement: Seq<[u8; 2]>,
    tsp: Seq<Option<VertexMap<SettlePlaceID>>>,
    trd: Seq<Option<SideMap<RoadID>>>,
    rsp: Seq<[SettlePlaceID; 2]>,
    spc: int,
)
    requires
        corners_ok(placement, tsp, spc),
        roads_ok(placement, tsp, trd, rsp),
    ensures
        forall|id: int| 0 <= id < spc ==> #[trigger] corner_id_used(placement, tsp, id),
        forall|rid: int| 0 <= rid < rsp.len() ==> #[trigger] road_id_used(placement, trd, rid),
{
    reveal(corners_ok);
    reveal(roads_ok);
}

/// Marking a fresh tile's vertex table does not disturb the road
/// invariants, which only read the corners of road-processed tiles.
pub proof fn lemma_roads_ok_retile(
    placement: Seq<[u8; 2]>,
    tsp0: Seq<Option<VertexMap<SettlePlaceID>>>,
    trd0: Seq<Option<SideMap<RoadID>>>,
    rsp0: Seq<[SettlePlaceID; 2]>,
    t: int,
    vm: VertexMap<SettlePlaceID>,
)
    requires
        roads_ok(placement, tsp0, trd0, rsp0),
        0 <= t < tsp0.len(),
        !has_entry(trd0, t),
        trd0.len() == tsp0.len(),
    ensures
        roads_ok(placement, tsp0.update(t, Some(vm)), trd0, rsp0),
{
    reveal(roads_ok);
    let tsp1 = tsp0.update(t, Some(vm));
    assert forall|t1: int, s1: HexSide|
        #![trigger road_id(trd0, t1, s1)]
        has_entry(trd0, t1) && has_entry(tsp1, t1) implies ({
        let row = rsp0[road_id(trd0, t1, s1).0 as int];
        let a = corner_id(tsp1, t1, s1.spec_connected_vertices().0);
        let b = corner_id(tsp1, t1, s1.spec_connected_vertices().1);
        (row[0] == a && row[1] == b) || (row[0] == b && row[1] == a)
    }) by {
        assert(t1 != t);
        assert(corner_id(tsp1, t1, s1.spec_connected_vertices().0) == corner_id(
            tsp0,
            t1,
            s1.spec_connected_vertices().0,
        ));
        assert(corner_id(tsp1, t1, s1.spec_connected_vertices().1) == corner_id(
            tsp0,
            t1,
            s1.spec_connected_vertices().1,
        ));
    }
}

/// Every road row's endpoints lie below the settle-place counter.
pub proof fn lemma_row_endpoints_bounded(
    placement: Seq<[u8; 2]>,
    tsp: Seq<Option<VertexMap<SettlePlaceID>>>,
    trd: Seq<Option<SideMap<RoadID>>>,
    rsp: Seq<[SettlePlaceID; 2]>,
    spc: int,
)
    requires
        corners_ok(placement, tsp, spc),
        roads_ok(placement, tsp, trd, rsp),
        forall|t: int| 0 <= t < trd.len() ==> (has_entry(trd, t) ==> has_entry(tsp, t)),
    ensures
        forall|k: int|
            0 <= k < rsp.len() ==> 0 <= ((#[trigger] rsp[k])[0].0 as int) < spc && 0 <= (
            rsp[k][1].0 as int) < spc,
{
    reveal(corners_ok);
    reveal(roads_ok);
    assert forall|k: int|
        0 <= k < rsp.len() implies 0 <= ((#[trigger] rsp[k])[0].0 as int) < spc && 0 <= (
    rsp[k][1].0 as int) < spc by {
        assert(road_id_used(placement, trd, k));
        let (t2, s2) = choose|t2: int, s2: HexSide|
            has_entry(trd, t2) && (#[trigger] road_id(trd, t2, s2)).0 == k;
        assert(corner_id(tsp, t2, s2.spec_connected_vertices().0).0 < spc);
        assert(corner_id(tsp, t2, s2.spec_connected_vertices().1).0 < spc);
    }
}

} // verus!
