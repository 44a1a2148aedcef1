//! The relation inverter: from the road → endpoints table, derive the
//! settle-place → incident-roads table.

use vstd::prelude::*;
use crate::adjacency_list::AdjacencyList;
use crate::array_vec::ArrayVec;
use crate::ids::RoadID;
use crate::ids::SettlePlaceID;
use crate::topology::b2i;
use crate::topology::end_count;

verus! {

/// The roads incident to settle place `id`, in the order the inversion
/// visits them: by ascending road identifier, and for a road touching `id`
/// with both endpoints, once per endpoint.
pub open spec fn incident_roads(rsp: Seq<[SettlePlaceID; 2]>, id: SettlePlaceID) -> Seq<RoadID>
    decreases rsp.len(),
{
    if rsp.len() == 0 {
        Seq::empty()
    } else {
        incident_roads(rsp.drop_last(), id) + (if rsp.last()[0] == id {
            seq![RoadID((rsp.len() - 1) as u16)]
        } else {
            Seq::empty()
        }) + (if rsp.last()[1] == id {
            seq![RoadID((rsp.len() - 1) as u16)]
        } else {
            Seq::empty()
        })
    }
}

/// A settle place has as many incident roads as endpoint occurrences.
pub proof fn lemma_incident_len(rsp: Seq<[SettlePlaceID; 2]>, id: SettlePlaceID)
    ensures
        incident_roads(rsp, id).len() == end_count(rsp, id),
    decreases rsp.len(),
{
    if rsp.len() > 0 {
        lemma_incident_len(rsp.drop_last(), id);
    }
}

/// Endpoint occurrences only accumulate as the road table grows.
pub proof fn lemma_end_count_prefix(rsp: Seq<[SettlePlaceID; 2]>, k: int, id: SettlePlaceID)
    requires
        0 <= k <= rsp.len(),
    ensures
        end_count(rsp.take(k), id) <= end_count(rsp, id),
    decreases rsp.len(),
{
    crate::topology::lemma_end_count_nonneg(rsp.take(k), id);
    if k < rsp.len() {
        assert(rsp.take(k) =~= rsp.drop_last().take(k));
        lemma_end_count_prefix(rsp.drop_last(), k, id);
        crate::topology::lemma_end_count_nonneg(rsp.drop_last(), id);
    } else {
        assert(rsp.take(k) =~= rsp);
    }
}

/// Both endpoints of every road receive that road in the inversion: road
/// `rid` with endpoints `(a, b)` occurs in `a`'s and in `b`'s incident
/// roads.
pub proof fn lemma_inversion(rsp: Seq<[SettlePlaceID; 2]>, rid: int)
    requires
        0 <= rid < rsp.len(),
    ensures
        incident_roads(rsp, rsp[rid][0]).contains(RoadID(rid as u16)),
        incident_roads(rsp, rsp[rid][1]).contains(RoadID(rid as u16)),
    decreases rsp.len(),
{
    if rid == rsp.len() - 1 {
        let a = rsp[rid][0];
        let b = rsp[rid][1];
        assert(incident_roads(rsp, a)[incident_roads(rsp.drop_last(), a).len() as int] == RoadID(
            rid as u16,
        ));
        if b == a {
            assert(incident_roads(rsp, b).last() == RoadID(rid as u16));
        } else {
            assert(incident_roads(rsp, b).last() == RoadID(rid as u16));
        }
    } else {
        lemma_inversion(rsp.drop_last(), rid);
        let a = rsp[rid][0];
        let b = rsp[rid][1];
        let i = choose|i: int|
            0 <= i < incident_roads(rsp.drop_last(), a).len() && incident_roads(
                rsp.drop_last(),
                a,
            )[i] == RoadID(rid as u16);
        assert(incident_roads(rsp, a)[i] == RoadID(rid as u16));
        let j = choose|j: int|
            0 <= j < incident_roads(rsp.drop_last(), b).len() && incident_roads(
                rsp.drop_last(),
                b,
            )[j] == RoadID(rid as u16);
        assert(incident_roads(rsp, b)[j] == RoadID(rid as u16));
    }
}

/// Given the road → endpoints relationships, produce the inverse
/// settle-place → roads relationships: each settle place receives, in
/// ascending road order, every road incident to it.  The geometry bound —
/// no settle place touches more than three roads — is what lets the
/// collections stay within their fixed capacity.
pub fn derive_settle_place_roads_relations(
    road_settle_places: &AdjacencyList<RoadID, [SettlePlaceID; 2]>,
    settle_places_count: u16,
) -> (r: AdjacencyList<SettlePlaceID, ArrayVec<RoadID, 3>>)
    requires
        road_settle_places@.len() < 65536,
        forall|k: int|
            0 <= k < road_settle_places@.len() ==> ((#[trigger] road_settle_places@[k])[0].0 as int)
                < settle_places_count as int && (road_settle_places@[k][1].0 as int)
                < settle_places_count as int,
        forall|id: SettlePlaceID| #[trigger] end_count(road_settle_places@, id) <= 3,
    ensures
        r@.len() == settle_places_count as int,
        forall|id: int|
            0 <= id < settle_places_count as int ==> (#[trigger] r@[id])@ == incident_roads(
                road_settle_places@,
                SettlePlaceID(id as u16),
            ),
{
    let ghost rsp = road_settle_places@;
    let mut coll: AdjacencyList<SettlePlaceID, ArrayVec<RoadID, 3>> = AdjacencyList::new();
    let mut i: usize = 0;
    while i < settle_places_count as usize
        invariant
            i <= settle_places_count as usize,
            coll@.len() == i,
            forall|id: int| 0 <= id < i ==> (#[trigger] coll@[id])@ == Seq::<RoadID>::empty(),
        decreases settle_places_count as usize - i,
    {
        coll.push(ArrayVec::new());
        i = i + 1;
    }
    let mut k: usize = 0;
    while k < road_settle_places.len()
        invariant
            k <= rsp.len(),
            rsp.len() < 65536,
            road_settle_places@ == rsp,
            coll@.len() == settle_places_count as int,
            forall|j: int|
                0 <= j < rsp.len() ==> ((#[trigger] rsp[j])[0].0 as int) < settle_places_count as int
                    && (rsp[j][1].0 as int) < settle_places_count as int,
            forall|id: SettlePlaceID| #[trigger] end_count(rsp, id) <= 3,
            forall|id: int|
                0 <= id < settle_places_count as int ==> (#[trigger] coll@[id])@ == incident_roads(
                    rsp.take(k as int),
                    SettlePlaceID(id as u16),
                ),
        decreases rsp.len() - k,
    {
        let row = *road_settle_places.get(RoadID(k as u16));
        let rid = RoadID(k as u16);
        let a = row[0];
        let b = row[1];
        proof {
            assert(rsp.take(k as int + 1).drop_last() =~= rsp.take(k as int));
            assert(rsp.take(k as int + 1).last() == rsp[k as int]);
            lemma_incident_len(rsp.take(k as int), a);
            lemma_incident_len(rsp.take(k as int), b);
            lemma_incident_len(rsp.take(k as int + 1), a);
            lemma_incident_len(rsp.take(k as int + 1), b);
            lemma_end_count_prefix(rsp, k as int + 1, a);
            lemma_end_count_prefix(rsp, k as int + 1, b);
            crate::topology::lemma_end_count_nonneg(rsp.take(k as int), a);
            crate::topology::lemma_end_count_nonneg(rsp.take(k as int), b);
        }
        let mut tmp: ArrayVec<RoadID, 3> = ArrayVec::new();
        coll.swap_at(a, &mut tmp);
        tmp.push(rid);
        coll.swap_at(a, &mut tmp);
        let mut tmp2: ArrayVec<RoadID, 3> = ArrayVec::new();
        coll.swap_at(b, &mut tmp2);
        tmp2.push(rid);
        coll.swap_at(b, &mut tmp2);
        k = k + 1;
        proof {
            assert forall|id: int|
                0 <= id < settle_places_count as int implies (#[trigger] coll@[id])@
                == incident_roads(rsp.take(k as int), SettlePlaceID(id as u16)) by {
                let sid = SettlePlaceID(id as u16);
                assert(incident_roads(rsp.take(k as int), sid) == incident_roads(
                    rsp.take(k as int - 1),
                    sid,
                ) + (if rsp[k as int - 1][0] == sid {
                    seq![RoadID((k - 1) as u16)]
                } else {
                    Seq::empty()
                }) + (if rsp[k as int - 1][1] == sid {
                    seq![RoadID((k - 1) as u16)]
                } else {
                    Seq::empty()
                }));
                if sid == a || sid == b {
                    assert(coll@[id]@ =~= incident_roads(rsp.take(k as int), sid));
                } else {
                    assert(coll@[id]@ =~= incident_roads(rsp.take(k as int), sid));
                }
            }
        }
    }
    proof {
        assert(rsp.take(rsp.len() as int) =~= rsp);
    }
    coll
}

} // verus!
