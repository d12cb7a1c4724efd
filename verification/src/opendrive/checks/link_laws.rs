//! Laws of the zero-width and appearing-lane checks: which lanes of a road
//! at a junction the junction's lane links reach, and that a road is checked
//! towards the road it comes from as well as the one it leads to.
use vstd::prelude::*;

use crate::opendrive::checks::lane_width::{
    attr_values, connection_links, id_level, junction_lane_fn, junction_lane_ids, junction_road_fn, junction_section,
    lane_fn, road_sections_fn, section_fn, side_tag, zero_width_finding, zero_width_findings,
};
use crate::opendrive::checks::new_lane::{
    current_lane_fn, lane_id_fn, linked_road_findings, linked_width_findings, new_lane_finding, new_lane_findings,
    road_findings, road_fn, ZeroLanes,
};
use crate::opendrive::checks::semantic::map_roads;
use crate::opendrive::models::{ContactPoint, ContactingLaneSection, LinkageTag, RoadLinkage};
use crate::opendrive::utils::{
    belongs_to_junction, connections_between, connections_of, contact_lane_section_of_linkage, first_lane_section,
    id_entries, int_attr, junctions, lane_in_section, lane_link_ids, last_lane_section, left_and_right_lanes,
    linked_junction_id, map_get, road_linkage, roads,
};
use crate::text::lemma_concat_map_contains;
use crate::xml::{children_with_tag, ElementView};

verus! {

/// A value is among the values of attribute `name` of `links` exactly when
/// one of the links has it.
proof fn lemma_attr_values_contains(d: Seq<ElementView>, links: Seq<usize>, name: Seq<char>, v: i64)
    ensures
        attr_values(d, links, name).contains(v) <==> exists|k: int| 0 <= k < links.len() && #[trigger] int_attr(d, links[k] as int, name) == Some(v),
    decreases links.len(),
{
    if links.len() > 0 {
        let t = links.drop_last();
        lemma_attr_values_contains(d, t, name, v);
        let prev = attr_values(d, t, name);
        assert(links.last() == links[links.len() - 1]);
        if attr_values(d, links, name).contains(v) {
            let i = choose|i: int| 0 <= i < attr_values(d, links, name).len() && attr_values(d, links, name)[i] == v;
            match int_attr(d, links.last() as int, name) {
                Some(w) => {
                    if i < prev.len() {
                        assert(prev[i] == v);
                        assert(prev.contains(v));
                        let k = choose|k: int| 0 <= k < t.len() && #[trigger] int_attr(d, t[k] as int, name) == Some(v);
                        assert(t[k] == links[k]);
                    }
                },
                None => {
                    assert(prev.contains(v));
                    let k = choose|k: int| 0 <= k < t.len() && #[trigger] int_attr(d, t[k] as int, name) == Some(v);
                    assert(t[k] == links[k]);
                },
            }
        }
        if exists|k: int| 0 <= k < links.len() && #[trigger] int_attr(d, links[k] as int, name) == Some(v) {
            let k = choose|k: int| 0 <= k < links.len() && #[trigger] int_attr(d, links[k] as int, name) == Some(v);
            if k < t.len() {
                assert(t[k] == links[k]);
                assert(int_attr(d, t[k] as int, name) == Some(v));
                assert(prev.contains(v));
                let i = choose|i: int| 0 <= i < prev.len() && prev[i] == v;
                assert(attr_values(d, links, name)[i] == v);
            } else {
                assert(attr_values(d, links, name) == prev.push(v));
                assert(attr_values(d, links, name)[prev.len() as int] == v);
            }
        }
    }
}

/// A value is among the values of attribute `name` of the lane links of the
/// connections `cs` exactly when a lane link of one of them has it.
proof fn lemma_link_values_contains(d: Seq<ElementView>, cs: Seq<usize>, name: Seq<char>, v: i64)
    ensures
        attr_values(d, connection_links(d, cs), name).contains(v) <==> exists|c: usize, link: usize|
            cs.contains(c) && #[trigger] children_with_tag(d, c as int, "laneLink"@).contains(link)
                && #[trigger] int_attr(d, link as int, name) == Some(v),
{
    let links = connection_links(d, cs);
    let g = |c: usize| children_with_tag(d, c as int, "laneLink"@);
    lemma_attr_values_contains(d, links, name, v);
    if attr_values(d, links, name).contains(v) {
        let k = choose|k: int| 0 <= k < links.len() && #[trigger] int_attr(d, links[k] as int, name) == Some(v);
        let link = links[k];
        assert(links.contains(link));
        lemma_concat_map_contains(cs, g, link);
        let i = choose|i: int| 0 <= i < cs.len() && #[trigger] g(cs[i]).contains(link);
        assert(cs.contains(cs[i]));
        assert(children_with_tag(d, cs[i] as int, "laneLink"@).contains(link) && int_attr(d, link as int, name) == Some(v));
    }
    if exists|c: usize, link: usize|
        cs.contains(c) && #[trigger] children_with_tag(d, c as int, "laneLink"@).contains(link)
            && #[trigger] int_attr(d, link as int, name) == Some(v) {
        let (c, link) = choose|c: usize, link: usize|
            cs.contains(c) && #[trigger] children_with_tag(d, c as int, "laneLink"@).contains(link)
                && #[trigger] int_attr(d, link as int, name) == Some(v);
        let i = choose|i: int| 0 <= i < cs.len() && cs[i] == c;
        assert(g(cs[i]).contains(link));
        lemma_concat_map_contains(cs, g, link);
        let k = choose|k: int| 0 <= k < links.len() && links[k] == link;
        assert(int_attr(d, links[k] as int, name) == Some(v));
    }
}

/// For a road outside any junction that, at the end checked, leads into a
/// junction: the ids of its lanes that the junction's lane links reach are
/// exactly the `from` values of the lane links of the connections between
/// the road and that junction.
pub proof fn law_incoming_road_reached_by_from_values(
    d: Seq<ElementView>,
    road_ids: Seq<(i64, usize)>,
    junction_ids: Seq<(i64, usize)>,
    road: usize,
    at_start: bool,
    rid: i64,
    jid: i64,
    v: i64,
)
    requires
        int_attr(d, road as int, "id"@) == Some(rid),
        !belongs_to_junction(d, road as int),
        linked_junction_id(d, road as int, side_tag(at_start)) == Some(jid),
    ensures
        ({
            let cs = connections_between(d, rid, jid, road_ids, junction_ids,
                if at_start { ContactPoint::Start } else { ContactPoint::End });
            junction_lane_ids(d, road_ids, junction_ids, road, at_start) matches Some(ids) && (ids.contains(v) <==> exists|c: usize, link: usize|
                cs.contains(c) && #[trigger] children_with_tag(d, c as int, "laneLink"@).contains(link)
                    && #[trigger] int_attr(d, link as int, "from"@) == Some(v))
        }),
{
    let cs = connections_between(d, rid, jid, road_ids, junction_ids, if at_start { ContactPoint::Start } else { ContactPoint::End });
    lemma_link_values_contains(d, cs, "from"@, v);
}

/// For a connecting road of a junction (listed in the junction id map): the
/// ids of its lanes that the junction's lane links reach at the end checked
/// are exactly the `to` values of the lane links of the junction's
/// connections onto it there.
pub proof fn law_connecting_road_reached_by_to_values(
    d: Seq<ElementView>,
    road_ids: Seq<(i64, usize)>,
    junction_ids: Seq<(i64, usize)>,
    road: usize,
    at_start: bool,
    rid: i64,
    jid: i64,
    j: usize,
    v: i64,
)
    requires
        int_attr(d, road as int, "id"@) == Some(rid),
        int_attr(d, road as int, "junction"@) == Some(jid),
        jid != -1,
        map_get(junction_ids, jid) == Some(j),
    ensures
        ({
            let cs = connections_of(d, children_with_tag(d, j as int, "connection"@), rid,
                if at_start { ContactPoint::Start } else { ContactPoint::End });
            junction_lane_ids(d, road_ids, junction_ids, road, at_start) matches Some(ids) && (ids.contains(v) <==> exists|c: usize, link: usize|
                cs.contains(c) && #[trigger] children_with_tag(d, c as int, "laneLink"@).contains(link)
                    && #[trigger] int_attr(d, link as int, "to"@) == Some(v))
        }),
{
    let cs = connections_of(d, children_with_tag(d, j as int, "connection"@), rid, if at_start { ContactPoint::Start } else { ContactPoint::End });
    lemma_link_values_contains(d, cs, "to"@, v);
}

/// A road linked under `tag` (its successor or its predecessor) to another
/// road is checked at that end: a lane of its lane section there (the last
/// one towards the successor, the first towards the predecessor; a lane
/// with an id) linked under `tag` to a lane of the touching lane section of
/// the other road that is listed as of width zero there (at its start when
/// the other road is met at its start, at its last lane section's length
/// otherwise) gives the appearing-lane finding for the two lanes, for every
/// road of the road id map.
pub proof fn law_linked_road_zero_width_lane_found(
    d: Seq<ElementView>,
    zero: ZeroLanes,
    sections: Seq<(usize, Seq<usize>)>,
    road: usize,
    tag: LinkageTag,
    l: RoadLinkage,
    cur: usize,
    target: ContactingLaneSection,
    lane: usize,
    next_id: i64,
    zero_lane: usize,
)
    requires
        map_roads(d, id_entries(d, roads(d)), roads(d)).contains(road),
        road_linkage(d, road as int, tag) == Some(l),
        map_get(id_entries(d, roads(d)), l.id) is Some,
        (if tag == LinkageTag::Successor { last_lane_section(d, road as int) } else { first_lane_section(d, road as int) }) == Some(cur),
        contact_lane_section_of_linkage(d, l, id_entries(d, roads(d))) == Some(target),
        left_and_right_lanes(d, cur as int).contains(lane),
        int_attr(d, lane as int, "id"@) is Some,
        lane_link_ids(d, lane as int, tag).contains(next_id),
        lane_in_section(d, target.lane_section as int, next_id) == Some(zero_lane),
        (if l.contact_point == ContactPoint::Start { zero.at_start } else { zero.at_last }).contains(zero_lane),
    ensures
        new_lane_findings(d, zero, sections).contains(new_lane_finding(lane, zero_lane, tag)),
{
    let road_ids = id_entries(d, roads(d));
    let junction_ids = id_entries(d, junctions(d));
    let f = new_lane_finding(lane, zero_lane, tag);
    let z = if l.contact_point == ContactPoint::Start { zero.at_start } else { zero.at_last };
    let g = lane_id_fn(d, z, lane, target.lane_section, tag);
    assert(g(next_id) == seq![f]);
    assert(g(next_id)[0] == f);
    let ids = lane_link_ids(d, lane as int, tag);
    let k = choose|k: int| 0 <= k < ids.len() && ids[k] == next_id;
    assert(g(ids[k]).contains(f));
    lemma_concat_map_contains(ids, g, f);
    let h = current_lane_fn(d, z, target.lane_section, tag);
    let lanes = left_and_right_lanes(d, cur as int);
    let m = choose|m: int| 0 <= m < lanes.len() && lanes[m] == lane;
    assert(h(lanes[m]).contains(f));
    lemma_concat_map_contains(lanes, h, f);
    assert(linked_width_findings(d, z, cur, target.lane_section, tag).contains(f));
    let w = linked_road_findings(d, zero, road_ids, road, tag);
    assert(w.contains(f));
    let rf = road_findings(d, zero, sections, road_ids, junction_ids, road);
    let i = choose|i: int| 0 <= i < w.len() && w[i] == f;
    let a = crate::opendrive::checks::new_lane::within_findings(
        d,
        zero.at_start,
        crate::opendrive::checks::lane_width::sections_of(sections, road),
        crate::opendrive::checks::new_lane::pair_count(crate::opendrive::checks::lane_width::sections_of(sections, road)),
    );
    let s1 = linked_road_findings(d, zero, road_ids, road, LinkageTag::Successor);
    let s2 = linked_road_findings(d, zero, road_ids, road, LinkageTag::Predecessor);
    if tag == LinkageTag::Successor {
        assert((a + s1 + s2)[a.len() + i] == f);
        assert(rf[a.len() + i] == f);
    } else {
        assert((a + s1 + s2)[a.len() + s1.len() + i] == f);
        assert(rf[a.len() + s1.len() + i] == f);
    }
    assert(rf.contains(f));
    let rs = map_roads(d, road_ids, roads(d));
    let rfn = road_fn(d, zero, sections, road_ids, junction_ids);
    let n = choose|n: int| 0 <= n < rs.len() && rs[n] == road;
    assert(rfn(rs[n]).contains(f));
    lemma_concat_map_contains(rs, rfn, f);
}

/// A zero-width lane (at the end checked) of a road outside any junction,
/// in the road's lane section at the junction it leads into there, whose id
/// is the `from` value of a lane link of a connection between the road and
/// the junction, gives the zero-width finding for that lane, for every road
/// of the road id map.
pub proof fn law_incoming_zero_width_lane_found(
    d: Seq<ElementView>,
    zero: Seq<usize>,
    within: Seq<(usize, Seq<usize>)>,
    sections: Seq<(usize, Seq<usize>)>,
    at_start: bool,
    road: usize,
    rid: i64,
    jid: i64,
    ls: usize,
    lane: usize,
    id: i64,
    c: usize,
    link: usize,
)
    requires
        map_roads(d, id_entries(d, roads(d)), roads(d)).contains(road),
        int_attr(d, road as int, "id"@) == Some(rid),
        !belongs_to_junction(d, road as int),
        linked_junction_id(d, road as int, side_tag(at_start)) == Some(jid),
        junction_section(d, sections, road, at_start) == Some(ls),
        left_and_right_lanes(d, ls as int).contains(lane),
        zero.contains(lane),
        int_attr(d, lane as int, "id"@) == Some(id),
        connections_between(d, rid, jid, id_entries(d, roads(d)), id_entries(d, junctions(d)),
            if at_start { ContactPoint::Start } else { ContactPoint::End }).contains(c),
        children_with_tag(d, c as int, "laneLink"@).contains(link),
        int_attr(d, link as int, "from"@) == Some(id),
    ensures
        zero_width_findings(d, zero, within, sections, at_start).contains(
            zero_width_finding(road, ls, lane, id_level(id), at_start),
        ),
{
    let road_ids = id_entries(d, roads(d));
    let junction_ids = id_entries(d, junctions(d));
    let f = zero_width_finding(road, ls, lane, id_level(id), at_start);
    law_incoming_road_reached_by_from_values(d, road_ids, junction_ids, road, at_start, rid, jid, id);
    let ids = junction_lane_ids(d, road_ids, junction_ids, road, at_start).unwrap();
    assert(ids.contains(id));
    let g = junction_lane_fn(d, zero, road, ls, ids, at_start);
    assert(g(lane) == seq![f]);
    assert(g(lane)[0] == f);
    let lanes = left_and_right_lanes(d, ls as int);
    let m = choose|m: int| 0 <= m < lanes.len() && lanes[m] == lane;
    assert(g(lanes[m]).contains(f));
    lemma_concat_map_contains(lanes, g, f);
    let rs = map_roads(d, road_ids, roads(d));
    let h = junction_road_fn(d, zero, road_ids, junction_ids, sections, at_start);
    let n = choose|n: int| 0 <= n < rs.len() && rs[n] == road;
    assert(h(rs[n]).contains(f));
    lemma_concat_map_contains(rs, h, f);
    let a = crate::text::concat_map(within, road_sections_fn(d, zero, at_start));
    let b = crate::text::concat_map(rs, h);
    let i = choose|i: int| 0 <= i < b.len() && b[i] == f;
    assert((a + b)[a.len() + i] == f);
}

/// Within a road: a zero-width lane (at the start or end of its lane
/// section, as checked) that names a lane on that side (a predecessor at the
/// start, a successor at the end) gives the zero-width finding for that lane,
/// of error level unless it is the centre lane, in every lane section that
/// the list of roads and their lane sections gives.
pub proof fn law_linked_zero_width_lane_found(
    d: Seq<ElementView>,
    zero: Seq<usize>,
    within: Seq<(usize, Seq<usize>)>,
    sections: Seq<(usize, Seq<usize>)>,
    at_start: bool,
    k: int,
    ls: usize,
    lane: usize,
)
    requires
        0 <= k < within.len(),
        within[k].1.contains(ls),
        left_and_right_lanes(d, ls as int).contains(lane),
        zero.contains(lane),
        lane_link_ids(d, lane as int, side_tag(at_start)).len() > 0,
    ensures
        zero_width_findings(d, zero, within, sections, at_start).contains(
            zero_width_finding(within[k].0, ls, lane, id_level(match int_attr(d, lane as int, "id"@) {
                Some(i) => i,
                None => 0,
            }), at_start),
        ),
{
    let road = within[k].0;
    let id = match int_attr(d, lane as int, "id"@) {
        Some(i) => i,
        None => 0,
    };
    let f = zero_width_finding(road, ls, lane, id_level(id), at_start);
    let g = lane_fn(d, zero, road, ls, at_start);
    assert(g(lane) == seq![f]);
    assert(g(lane)[0] == f);
    let lanes = left_and_right_lanes(d, ls as int);
    let m = choose|m: int| 0 <= m < lanes.len() && lanes[m] == lane;
    assert(g(lanes[m]).contains(f));
    lemma_concat_map_contains(lanes, g, f);
    let secs = within[k].1;
    let sf = section_fn(d, zero, road, at_start);
    let q = choose|q: int| 0 <= q < secs.len() && secs[q] == ls;
    assert(sf(secs[q]).contains(f));
    lemma_concat_map_contains(secs, sf, f);
    let rf = road_sections_fn(d, zero, at_start);
    assert(rf(within[k]).contains(f));
    lemma_concat_map_contains(within, rf, f);
    let a = crate::text::concat_map(within, rf);
    let i = choose|i: int| 0 <= i < a.len() && a[i] == f;
    let road_ids = id_entries(d, roads(d));
    let junction_ids = id_entries(d, junctions(d));
    let b = crate::text::concat_map(
        map_roads(d, road_ids, roads(d)),
        junction_road_fn(d, zero, road_ids, junction_ids, sections, at_start),
    );
    assert((a + b)[i] == f);
}

} // verus!
