//! The appearing-lane check: where a new lane appears beside a lane, only the
//! continuing lane shall be linked to the original lane, not the appearing
//! one, whose width is zero where the two lane sections touch. Which lanes
//! have width zero there is a question of floating-point widths: the check is
//! handed those lanes, for the three places a lane section can be touched.
use vstd::prelude::*;

use crate::opendrive::checks::findings::{findings_in, findings_view, Finding, FindingLocation, FindingView, LocationRequest};
use crate::opendrive::checks::lane_width::{sections_in, sections_of};
use crate::opendrive::checks::semantic::{append_findings, get_map_roads, lemma_findings_in_concat, map_roads, sections_view};
use crate::opendrive::models::{ContactPoint, ContactingLaneSection, LinkageTag, RoadLinkage};
use crate::opendrive::utils::{
    connection_contact_point, connections_between, contact_lane_section_of_linkage, contacting_lane_sections,
    entries_in, first_lane_section, get_connecting_lane_ids, get_connecting_road_id_from_connection,
    get_connections_between_road_and_junction, get_contact_lane_section_from_linked_road,
    get_contact_point_from_connection, get_first_lane_section, get_from_attribute_from_lane_link,
    get_incoming_and_connection_contacting_lane_sections, get_junction_id_map, get_lane_from_lane_section,
    get_lane_id, get_lane_links_from_connection, get_last_lane_section, get_left_and_right_lanes_from_lane_section,
    get_linked_junction_id, get_road_id_map, get_road_linkage, get_to_attribute_from_lane_link, id_entries,
    int_attr, int_attribute, junctions, lane_in_section, lane_link_ids, last_lane_section, left_and_right_lanes,
    lemma_map_get_in, linked_junction_id, map_get, map_lookup, road_linkage, roads,
};
use crate::result::IssueSeverity;
use crate::text::concat_map;
use crate::xml::{children_with_tag, ElementView, XmlDoc};

verus! {

/// The lanes the check is handed: those of width zero at the start of their
/// lane section (`at_start`); those of the last lane section of a road (in
/// document order) of width zero at the length of the road's last ordered
/// lane section (`at_last`); and those of the last lane section of a road of
/// width zero at the road's end (`at_road_end`).
pub ghost struct ZeroLanes {
    pub at_start: Seq<usize>,
    pub at_last: Seq<usize>,
    pub at_road_end: Seq<usize>,
}

pub open spec fn new_lane_desc() -> Seq<char> {
    "If a new lane appears besides, only the continuing lane shall be connected to the original lane, not the appearing lane."@
}

pub open spec fn lane_loc(tag: LinkageTag) -> Seq<char> {
    if tag == LinkageTag::Successor {
        "Lane with successor with width zero."@
    } else {
        "Lane with predecessor with width zero."@
    }
}

pub open spec fn zero_loc(tag: LinkageTag) -> Seq<char> {
    if tag == LinkageTag::Successor {
        "Successor lane with width zero."@
    } else {
        "Predecessor lane with width zero."@
    }
}

/// The finding for `lane` linked (under `tag`) to the zero-width lane `zero_lane`.
pub open spec fn new_lane_finding(lane: usize, zero_lane: usize, tag: LinkageTag) -> FindingView {
    FindingView {
        description: new_lane_desc(),
        level: IssueSeverity::Error,
        locations: seq![LocationRequest::Node(lane_loc(tag), lane), LocationRequest::Node(zero_loc(tag), zero_lane)],
    }
}

/// For lane `lane`: each lane it names under `tag` that lane section `next`
/// holds and that `zero` lists.
pub open spec fn lane_id_fn(d: Seq<ElementView>, zero: Seq<usize>, lane: usize, next: usize, tag: LinkageTag) -> spec_fn(i64) -> Seq<FindingView> {
    |id: i64|
        match lane_in_section(d, next as int, id) {
            Some(l) => if zero.contains(l) {
                seq![new_lane_finding(lane, l, tag)]
            } else {
                Seq::empty()
            },
            None => Seq::empty(),
        }
}

/// For the lanes of `current` (those without id left out when looking back):
/// the zero-width lanes of `next` they are linked to under `tag`.
pub open spec fn current_lane_fn(d: Seq<ElementView>, zero: Seq<usize>, next: usize, tag: LinkageTag) -> spec_fn(usize) -> Seq<FindingView> {
    |lane: usize|
        if tag == LinkageTag::Predecessor && int_attr(d, lane as int, "id"@) is None {
            Seq::empty()
        } else {
            concat_map(lane_link_ids(d, lane as int, tag), lane_id_fn(d, zero, lane, next, tag))
        }
}

pub open spec fn linked_width_findings(d: Seq<ElementView>, zero: Seq<usize>, current: usize, next: usize, tag: LinkageTag) -> Seq<FindingView> {
    concat_map(left_and_right_lanes(d, current as int), current_lane_fn(d, zero, next, tag))
}

/// Consecutive ordered lane sections of a road, `k` pairs from the start.
pub open spec fn within_findings(d: Seq<ElementView>, zero: Seq<usize>, secs: Seq<usize>, k: int) -> Seq<FindingView>
    decreases k,
{
    if k <= 0 {
        Seq::empty()
    } else {
        within_findings(d, zero, secs, k - 1) + linked_width_findings(
            d,
            zero,
            secs[k - 1],
            secs[k],
            LinkageTag::Successor,
        )
    }
}

pub open spec fn pair_count(secs: Seq<usize>) -> int {
    if secs.len() >= 2 { secs.len() - 1 } else { 0 }
}

/// Where a road linked under `tag` to another road is touched: the road it
/// links to, its own lane section at that end and the linked lane section.
pub open spec fn linked_road_contact(
    d: Seq<ElementView>,
    road_ids: Seq<(i64, usize)>,
    road: usize,
    tag: LinkageTag,
) -> Option<(RoadLinkage, usize, usize, ContactingLaneSection)> {
    match road_linkage(d, road as int, tag) {
        None => None,
        Some(l) => match map_get(road_ids, l.id) {
            None => None,
            Some(linked) => match (if tag == LinkageTag::Successor {
                last_lane_section(d, road as int)
            } else {
                first_lane_section(d, road as int)
            }) {
                None => None,
                Some(cur) => match contact_lane_section_of_linkage(d, l, road_ids) {
                    None => None,
                    Some(target) => Some((l, linked, cur, target)),
                },
            },
        },
    }
}

pub open spec fn linked_road_findings(
    d: Seq<ElementView>,
    zero: ZeroLanes,
    road_ids: Seq<(i64, usize)>,
    road: usize,
    tag: LinkageTag,
) -> Seq<FindingView> {
    match linked_road_contact(d, road_ids, road, tag) {
        None => Seq::empty(),
        Some((l, _, cur, target)) => linked_width_findings(
            d,
            if l.contact_point == ContactPoint::Start { zero.at_start } else { zero.at_last },
            cur,
            target.lane_section,
            tag,
        ),
    }
}

/// The check needs the ordered lane sections of every road that a road of
/// the road id map is linked to where it is touched.
pub open spec fn linked_lengths_known(d: Seq<ElementView>, sections: Seq<(usize, Seq<usize>)>) -> bool {
    let road_ids = id_entries(d, roads(d));
    forall|k: int, tag: LinkageTag|
        0 <= k < map_roads(d, road_ids, roads(d)).len() ==> match #[trigger] linked_road_contact(
            d,
            road_ids,
            map_roads(d, road_ids, roads(d))[k],
            tag,
        ) {
            Some((_, linked, _, _)) => sections_of(sections, linked).len() > 0,
            None => true,
        }
}

/// For a lane link of a junction connection: the lane of the connecting road
/// it reaches, when `zero` lists it, with the lane of the incoming road.
pub open spec fn link_fn(d: Seq<ElementView>, zero: Seq<usize>, incoming: usize, connection: usize, tag: LinkageTag) -> spec_fn(usize) -> Seq<FindingView> {
    |link: usize|
        match (int_attr(d, link as int, "from"@), int_attr(d, link as int, "to"@)) {
            (Some(f), Some(t)) => match lane_in_section(d, connection as int, t) {
                None => Seq::empty(),
                Some(cl) => if zero.contains(cl) {
                    match lane_in_section(d, incoming as int, f) {
                        Some(il) => seq![new_lane_finding(il, cl, tag)],
                        None => Seq::empty(),
                    }
                } else {
                    Seq::empty()
                },
            },
            _ => Seq::empty(),
        }
}

pub open spec fn connection_findings(
    d: Seq<ElementView>,
    zero: ZeroLanes,
    road_ids: Seq<(i64, usize)>,
    c: usize,
    tag: LinkageTag,
) -> Seq<FindingView> {
    match int_attr(d, c as int, "connectingRoad"@) {
        None => Seq::empty(),
        Some(cid) => match map_get(road_ids, cid) {
            None => Seq::empty(),
            Some(_) => match contacting_lane_sections(d, c as int, road_ids) {
                None => Seq::empty(),
                Some(cls) => match connection_contact_point(d, c as int) {
                    None => Seq::empty(),
                    Some(ccp) => concat_map(
                        children_with_tag(d, c as int, "laneLink"@),
                        link_fn(
                            d,
                            if ccp == ContactPoint::Start { zero.at_start } else { zero.at_road_end },
                            cls.incoming,
                            cls.connection,
                            tag,
                        ),
                    ),
                },
            },
        },
    }
}

pub open spec fn connection_fn(
    d: Seq<ElementView>,
    zero: ZeroLanes,
    road_ids: Seq<(i64, usize)>,
    tag: LinkageTag,
) -> spec_fn(usize) -> Seq<FindingView> {
    |c: usize| connection_findings(d, zero, road_ids, c, tag)
}

pub open spec fn junction_findings(
    d: Seq<ElementView>,
    zero: ZeroLanes,
    road_ids: Seq<(i64, usize)>,
    junction_ids: Seq<(i64, usize)>,
    road: usize,
    tag: LinkageTag,
) -> Seq<FindingView> {
    match (int_attr(d, road as int, "id"@), linked_junction_id(d, road as int, tag)) {
        (Some(rid), Some(jid)) => concat_map(
            connections_between(
                d,
                rid,
                jid,
                road_ids,
                junction_ids,
                if tag == LinkageTag::Successor { ContactPoint::End } else { ContactPoint::Start },
            ),
            connection_fn(d, zero, road_ids, tag),
        ),
        _ => Seq::empty(),
    }
}

/// What the check finds for one road: between its consecutive ordered lane
/// sections, towards its successor and predecessor roads, then towards the
/// junctions it leads into and comes out of.
pub open spec fn road_findings(
    d: Seq<ElementView>,
    zero: ZeroLanes,
    sections: Seq<(usize, Seq<usize>)>,
    road_ids: Seq<(i64, usize)>,
    junction_ids: Seq<(i64, usize)>,
    road: usize,
) -> Seq<FindingView> {
    let secs = sections_of(sections, road);
    within_findings(d, zero.at_start, secs, pair_count(secs)) + linked_road_findings(
        d,
        zero,
        road_ids,
        road,
        LinkageTag::Successor,
    ) + linked_road_findings(d, zero, road_ids, road, LinkageTag::Predecessor) + junction_findings(
        d,
        zero,
        road_ids,
        junction_ids,
        road,
        LinkageTag::Successor,
    ) + junction_findings(d, zero, road_ids, junction_ids, road, LinkageTag::Predecessor)
}

pub open spec fn road_fn(
    d: Seq<ElementView>,
    zero: ZeroLanes,
    sections: Seq<(usize, Seq<usize>)>,
    road_ids: Seq<(i64, usize)>,
    junction_ids: Seq<(i64, usize)>,
) -> spec_fn(usize) -> Seq<FindingView> {
    |road: usize| road_findings(d, zero, sections, road_ids, junction_ids, road)
}

/// What the check finds: road by road, the roads of the road id map in
/// document order.
pub open spec fn new_lane_findings(d: Seq<ElementView>, zero: ZeroLanes, sections: Seq<(usize, Seq<usize>)>) -> Seq<FindingView> {
    let road_ids = id_entries(d, roads(d));
    concat_map(map_roads(d, road_ids, roads(d)), road_fn(d, zero, sections, road_ids, id_entries(d, junctions(d))))
}

fn contains_usize(v: &Vec<usize>, x: usize) -> (r: bool)
    ensures
        r == v@.contains(x),
{
    let mut i: usize = 0;
    while i < v.len()
        invariant
            i <= v@.len(),
            forall|q: int| 0 <= q < i ==> v@[q] != x,
        decreases v@.len() - i,
    {
        if v[i] == x {
            assert(v@[i as int] == x);
            return true;
        }
        i = i + 1;
    }
    false
}

fn empty_findings() -> (r: Vec<Finding>)
    ensures
        findings_view(r@) == Seq::<FindingView>::empty(),
{
    let r: Vec<Finding> = Vec::new();
    assert(findings_view(r@) =~= Seq::<FindingView>::empty());
    r
}

fn make_finding(lane: usize, zero_lane: usize, tag: LinkageTag) -> (r: Vec<Finding>)
    ensures
        findings_view(r@) == seq![new_lane_finding(lane, zero_lane, tag)],
{
    let (loc, zloc) = match tag {
        LinkageTag::Successor => ("Lane with successor with width zero.", "Successor lane with width zero."),
        LinkageTag::Predecessor => ("Lane with predecessor with width zero.", "Predecessor lane with width zero."),
    };
    let mut locs: Vec<FindingLocation> = Vec::new();
    locs.push(FindingLocation::Node(loc.to_owned(), lane));
    locs.push(FindingLocation::Node(zloc.to_owned(), zero_lane));
    let f = Finding {
        description: "If a new lane appears besides, only the continuing lane shall be connected to the original lane, not the appearing lane.".to_owned(),
        level: IssueSeverity::Error,
        locations: locs,
    };
    assert(f@.locations =~= new_lane_finding(lane, zero_lane, tag).locations);
    let mut r: Vec<Finding> = Vec::new();
    r.push(f);
    assert(findings_view(r@) =~= seq![new_lane_finding(lane, zero_lane, tag)]);
    r
}

/// The zero-width lanes of `next` that `lane` names under `tag`.
fn lane_check(doc: &XmlDoc, zero: &Vec<usize>, lane: usize, next: usize, tag: LinkageTag) -> (r: Vec<Finding>)
    requires
        lane < doc@.len(),
        next < doc@.len(),
    ensures
        findings_view(r@) == current_lane_fn(doc@, zero@, next, tag)(lane),
        findings_in(doc@, findings_view(r@)),
{
    let mut r = empty_findings();
    if tag == LinkageTag::Predecessor && get_lane_id(doc, lane).is_none() {
        return r;
    }
    let ids = get_connecting_lane_ids(doc, lane, tag);
    let ghost f = lane_id_fn(doc@, zero@, lane, next, tag);
    let n = ids.len();
    let mut i: usize = 0;
    assert(findings_view(r@) =~= concat_map(ids@.take(0), f));
    while i < n
        invariant
            i <= n,
            n == ids@.len(),
            lane < doc@.len(),
            next < doc@.len(),
            ids@ == lane_link_ids(doc@, lane as int, tag),
            f == lane_id_fn(doc@, zero@, lane, next, tag),
            findings_view(r@) == concat_map(ids@.take(i as int), f),
            findings_in(doc@, findings_view(r@)),
        decreases n - i,
    {
        assert(ids@.take(i + 1).drop_last() =~= ids@.take(i as int));
        let ghost r0 = findings_view(r@);
        match get_lane_from_lane_section(doc, next, ids[i]) {
            Some(l) => {
                if contains_usize(zero, l) {
                    let w = make_finding(lane, l, tag);
                    append_findings(&mut r, w);
                    proof {
                        lemma_findings_in_concat(doc@, r0, findings_view(w@));
                    }
                } else {
                    assert(findings_view(r@) =~= r0 + Seq::<FindingView>::empty());
                }
            },
            None => {
                assert(findings_view(r@) =~= r0 + Seq::<FindingView>::empty());
            },
        }
        i = i + 1;
    }
    assert(ids@.take(n as int) =~= ids@);
    r
}

fn linked_width_check(doc: &XmlDoc, zero: &Vec<usize>, current: usize, next: usize, tag: LinkageTag) -> (r: Vec<Finding>)
    requires
        current < doc@.len(),
        next < doc@.len(),
    ensures
        findings_view(r@) == linked_width_findings(doc@, zero@, current, next, tag),
        findings_in(doc@, findings_view(r@)),
{
    let lanes = get_left_and_right_lanes_from_lane_section(doc, current);
    let ghost f = current_lane_fn(doc@, zero@, next, tag);
    let mut r = empty_findings();
    let n = lanes.len();
    let mut i: usize = 0;
    assert(findings_view(r@) =~= concat_map(lanes@.take(0), f));
    while i < n
        invariant
            i <= n,
            n == lanes@.len(),
            next < doc@.len(),
            lanes@ == left_and_right_lanes(doc@, current as int),
            forall|k: int| 0 <= k < lanes@.len() ==> #[trigger] lanes@[k] < doc@.len(),
            f == current_lane_fn(doc@, zero@, next, tag),
            findings_view(r@) == concat_map(lanes@.take(i as int), f),
            findings_in(doc@, findings_view(r@)),
        decreases n - i,
    {
        assert(lanes@.take(i + 1).drop_last() =~= lanes@.take(i as int));
        let w = lane_check(doc, zero, lanes[i], next, tag);
        let ghost r0 = findings_view(r@);
        append_findings(&mut r, w);
        proof {
            lemma_findings_in_concat(doc@, r0, findings_view(w@));
        }
        i = i + 1;
    }
    assert(lanes@.take(n as int) =~= lanes@);
    r
}

/// Between consecutive lane sections of `secs` (ordered by their start).
fn within_check(doc: &XmlDoc, zero: &Vec<usize>, secs: &Vec<usize>) -> (r: Vec<Finding>)
    requires
        forall|k: int| 0 <= k < secs@.len() ==> #[trigger] secs@[k] < doc@.len(),
    ensures
        findings_view(r@) == within_findings(doc@, zero@, secs@, pair_count(secs@)),
        findings_in(doc@, findings_view(r@)),
{
    let mut r = empty_findings();
    if secs.len() < 2 {
        return r;
    }
    let n = secs.len() - 1;
    let mut k: usize = 0;
    while k < n
        invariant
            k <= n,
            n + 1 == secs@.len(),
            forall|q: int| 0 <= q < secs@.len() ==> #[trigger] secs@[q] < doc@.len(),
            findings_view(r@) == within_findings(doc@, zero@, secs@, k as int),
            findings_in(doc@, findings_view(r@)),
        decreases n - k,
    {
        let w = linked_width_check(doc, zero, secs[k], secs[k + 1], LinkageTag::Successor);
        let ghost r0 = findings_view(r@);
        append_findings(&mut r, w);
        proof {
            lemma_findings_in_concat(doc@, r0, findings_view(w@));
        }
        k = k + 1;
    }
    r
}

/// Where `road` touches the road it is linked to under `tag`.
fn linked_road_contact_of(
    doc: &XmlDoc,
    road_id_map: &Vec<(i64, usize)>,
    road: usize,
    tag: LinkageTag,
) -> (r: Option<(RoadLinkage, usize, usize, ContactingLaneSection)>)
    requires
        road < doc@.len(),
        entries_in(doc@, road_id_map@),
    ensures
        r == linked_road_contact(doc@, road_id_map@, road, tag),
        r matches Some((_, linked, cur, t)) ==> linked < doc@.len() && cur < doc@.len() && t.lane_section < doc@.len(),
{
    let l = match get_road_linkage(doc, road, tag) {
        None => return None,
        Some(x) => x,
    };
    proof {
        lemma_map_get_in(doc@, road_id_map@, l.id);
    }
    let linked = match map_lookup(road_id_map, l.id) {
        None => return None,
        Some(x) => x,
    };
    let cur = if tag == LinkageTag::Successor {
        get_last_lane_section(doc, road)
    } else {
        get_first_lane_section(doc, road)
    };
    let cur = match cur {
        None => return None,
        Some(x) => x,
    };
    let target = match get_contact_lane_section_from_linked_road(doc, &l, road_id_map) {
        None => return None,
        Some(x) => x,
    };
    Some((l, linked, cur, target))
}

fn linked_road_check(
    doc: &XmlDoc,
    z0: &Vec<usize>,
    zl: &Vec<usize>,
    zr: &Vec<usize>,
    road_id_map: &Vec<(i64, usize)>,
    road: usize,
    tag: LinkageTag,
) -> (r: Vec<Finding>)
    requires
        road < doc@.len(),
        entries_in(doc@, road_id_map@),
    ensures
        findings_view(r@) == linked_road_findings(
            doc@,
            ZeroLanes { at_start: z0@, at_last: zl@, at_road_end: zr@ },
            road_id_map@,
            road,
            tag,
        ),
        findings_in(doc@, findings_view(r@)),
{
    match linked_road_contact_of(doc, road_id_map, road, tag) {
        None => empty_findings(),
        Some((l, _, cur, target)) => {
            let zero = if l.contact_point == ContactPoint::Start { z0 } else { zl };
            linked_width_check(doc, zero, cur, target.lane_section, tag)
        },
    }
}

fn link_check(doc: &XmlDoc, zero: &Vec<usize>, incoming: usize, connection: usize, link: usize, tag: LinkageTag) -> (r: Vec<Finding>)
    requires
        incoming < doc@.len(),
        connection < doc@.len(),
        link < doc@.len(),
    ensures
        findings_view(r@) == link_fn(doc@, zero@, incoming, connection, tag)(link),
        findings_in(doc@, findings_view(r@)),
{
    let f = match get_from_attribute_from_lane_link(doc, link) {
        None => return empty_findings(),
        Some(x) => x,
    };
    let t = match get_to_attribute_from_lane_link(doc, link) {
        None => return empty_findings(),
        Some(x) => x,
    };
    let cl = match get_lane_from_lane_section(doc, connection, t) {
        None => return empty_findings(),
        Some(x) => x,
    };
    if !contains_usize(zero, cl) {
        return empty_findings();
    }
    match get_lane_from_lane_section(doc, incoming, f) {
        Some(il) => make_finding(il, cl, tag),
        None => empty_findings(),
    }
}

fn connection_check(
    doc: &XmlDoc,
    z0: &Vec<usize>,
    zl: &Vec<usize>,
    zr: &Vec<usize>,
    road_id_map: &Vec<(i64, usize)>,
    c: usize,
    tag: LinkageTag,
) -> (r: Vec<Finding>)
    requires
        c < doc@.len(),
        entries_in(doc@, road_id_map@),
    ensures
        findings_view(r@) == connection_findings(
            doc@,
            ZeroLanes { at_start: z0@, at_last: zl@, at_road_end: zr@ },
            road_id_map@,
            c,
            tag,
        ),
        findings_in(doc@, findings_view(r@)),
{
    let cid = match get_connecting_road_id_from_connection(doc, c) {
        None => return empty_findings(),
        Some(x) => x,
    };
    if map_lookup(road_id_map, cid).is_none() {
        return empty_findings();
    }
    let cls = match get_incoming_and_connection_contacting_lane_sections(doc, c, road_id_map) {
        None => return empty_findings(),
        Some(x) => x,
    };
    let ccp = match get_contact_point_from_connection(doc, c) {
        None => return empty_findings(),
        Some(x) => x,
    };
    let zero = if ccp == ContactPoint::Start { z0 } else { zr };
    let links = get_lane_links_from_connection(doc, c);
    let ghost f = link_fn(doc@, zero@, cls.incoming, cls.connection, tag);
    let mut r = empty_findings();
    let n = links.len();
    let mut i: usize = 0;
    assert(findings_view(r@) =~= concat_map(links@.take(0), f));
    while i < n
        invariant
            i <= n,
            n == links@.len(),
            cls.incoming < doc@.len(),
            cls.connection < doc@.len(),
            links@ == children_with_tag(doc@, c as int, "laneLink"@),
            forall|k: int| 0 <= k < links@.len() ==> #[trigger] links@[k] < doc@.len(),
            f == link_fn(doc@, zero@, cls.incoming, cls.connection, tag),
            findings_view(r@) == concat_map(links@.take(i as int), f),
            findings_in(doc@, findings_view(r@)),
        decreases n - i,
    {
        assert(links@.take(i + 1).drop_last() =~= links@.take(i as int));
        let w = link_check(doc, zero, cls.incoming, cls.connection, links[i], tag);
        let ghost r0 = findings_view(r@);
        append_findings(&mut r, w);
        proof {
            lemma_findings_in_concat(doc@, r0, findings_view(w@));
        }
        i = i + 1;
    }
    assert(links@.take(n as int) =~= links@);
    r
}

fn junction_check(
    doc: &XmlDoc,
    z0: &Vec<usize>,
    zl: &Vec<usize>,
    zr: &Vec<usize>,
    road_id_map: &Vec<(i64, usize)>,
    junction_id_map: &Vec<(i64, usize)>,
    road: usize,
    tag: LinkageTag,
) -> (r: Vec<Finding>)
    requires
        road < doc@.len(),
        entries_in(doc@, road_id_map@),
        entries_in(doc@, junction_id_map@),
    ensures
        findings_view(r@) == junction_findings(
            doc@,
            ZeroLanes { at_start: z0@, at_last: zl@, at_road_end: zr@ },
            road_id_map@,
            junction_id_map@,
            road,
            tag,
        ),
        findings_in(doc@, findings_view(r@)),
{
    let rid = match int_attribute(doc, road, "id") {
        None => return empty_findings(),
        Some(x) => x,
    };
    let jid = match get_linked_junction_id(doc, road, tag) {
        None => return empty_findings(),
        Some(x) => x,
    };
    let cp = if tag == LinkageTag::Successor { ContactPoint::End } else { ContactPoint::Start };
    let cs = get_connections_between_road_and_junction(doc, rid, jid, road_id_map, junction_id_map, cp);
    let ghost f = connection_fn(doc@, ZeroLanes { at_start: z0@, at_last: zl@, at_road_end: zr@ }, road_id_map@, tag);
    let mut r = empty_findings();
    let n = cs.len();
    let mut i: usize = 0;
    assert(findings_view(r@) =~= concat_map(cs@.take(0), f));
    while i < n
        invariant
            i <= n,
            n == cs@.len(),
            entries_in(doc@, road_id_map@),
            forall|k: int| 0 <= k < cs@.len() ==> #[trigger] cs@[k] < doc@.len(),
            f == connection_fn(doc@, ZeroLanes { at_start: z0@, at_last: zl@, at_road_end: zr@ }, road_id_map@, tag),
            findings_view(r@) == concat_map(cs@.take(i as int), f),
            findings_in(doc@, findings_view(r@)),
        decreases n - i,
    {
        assert(cs@.take(i + 1).drop_last() =~= cs@.take(i as int));
        let w = connection_check(doc, z0, zl, zr, road_id_map, cs[i], tag);
        let ghost r0 = findings_view(r@);
        append_findings(&mut r, w);
        proof {
            lemma_findings_in_concat(doc@, r0, findings_view(w@));
        }
        i = i + 1;
    }
    assert(cs@.take(n as int) =~= cs@);
    r
}

/// The lane sections `sections` gives for `road`.
fn sections_list(sections: &Vec<(usize, Vec<usize>)>, road: usize) -> (r: Vec<usize>)
    ensures
        r@ == sections_of(sections_view(sections@), road),
{
    let ghost sv = sections_view(sections@);
    let n = sections.len();
    let mut i: usize = 0;
    assert(sv.subrange(0, sv.len() as int) =~= sv);
    while i < n
        invariant
            i <= n,
            n == sections@.len(),
            sv == sections_view(sections@),
            sections_of(sv, road) == sections_of(sv.subrange(i as int, n as int), road),
        decreases n - i,
    {
        assert(sv.subrange(i as int, n as int)[0] == sv[i as int]);
        assert(sv.subrange(i as int, n as int).drop_first() =~= sv.subrange(i + 1, n as int));
        if sections[i].0 == road {
            let l = &sections[i].1;
            assert(sv[i as int].1 == l@);
            let mut out: Vec<usize> = Vec::new();
            let mut j: usize = 0;
            while j < l.len()
                invariant
                    j <= l@.len(),
                    out@ == l@.take(j as int),
                decreases l@.len() - j,
            {
                out.push(l[j]);
                assert(l@.take(j + 1) =~= l@.take(j as int).push(l@[j as int]));
                j = j + 1;
            }
            assert(l@.take(l@.len() as int) =~= l@);
            return out;
        }
        i = i + 1;
    }
    Vec::new()
}

fn road_check(
    doc: &XmlDoc,
    z0: &Vec<usize>,
    zl: &Vec<usize>,
    zr: &Vec<usize>,
    sections: &Vec<(usize, Vec<usize>)>,
    road_id_map: &Vec<(i64, usize)>,
    junction_id_map: &Vec<(i64, usize)>,
    road: usize,
) -> (r: Vec<Finding>)
    requires
        road < doc@.len(),
        entries_in(doc@, road_id_map@),
        entries_in(doc@, junction_id_map@),
        sections_in(doc@, sections_view(sections@)),
    ensures
        findings_view(r@) == road_findings(
            doc@,
            ZeroLanes { at_start: z0@, at_last: zl@, at_road_end: zr@ },
            sections_view(sections@),
            road_id_map@,
            junction_id_map@,
            road,
        ),
        findings_in(doc@, findings_view(r@)),
{
    let secs = sections_list(sections, road);
    proof {
        crate::opendrive::checks::lane_width::lemma_sections_of_in(doc@, sections_view(sections@), road);
    }
    let mut r = within_check(doc, z0, &secs);
    let w1 = linked_road_check(doc, z0, zl, zr, road_id_map, road, LinkageTag::Successor);
    let w2 = linked_road_check(doc, z0, zl, zr, road_id_map, road, LinkageTag::Predecessor);
    let w3 = junction_check(doc, z0, zl, zr, road_id_map, junction_id_map, road, LinkageTag::Successor);
    let w4 = junction_check(doc, z0, zl, zr, road_id_map, junction_id_map, road, LinkageTag::Predecessor);
    let ghost (v0, v1, v2, v3, v4) = (findings_view(r@), findings_view(w1@), findings_view(w2@), findings_view(w3@), findings_view(w4@));
    append_findings(&mut r, w1);
    append_findings(&mut r, w2);
    append_findings(&mut r, w3);
    append_findings(&mut r, w4);
    proof {
        lemma_findings_in_concat(doc@, v0, v1);
        lemma_findings_in_concat(doc@, v0 + v1, v2);
        lemma_findings_in_concat(doc@, v0 + v1 + v2, v3);
        lemma_findings_in_concat(doc@, v0 + v1 + v2 + v3, v4);
    }
    r
}

/// Appearing lanes: lanes linked to a lane whose width is zero where the two
/// lane sections touch, road by road (the roads of the road id map in
/// document order). `sections` gives, road by road, the lane sections
/// ordered by their start; the zero-width lanes are those described at
/// `ZeroLanes`.
pub fn check_new_lane_appear(
    doc: &XmlDoc,
    sections: &Vec<(usize, Vec<usize>)>,
    zero_at_start: &Vec<usize>,
    zero_at_last: &Vec<usize>,
    zero_at_road_end: &Vec<usize>,
) -> (r: Vec<Finding>)
    requires
        sections_in(doc@, sections_view(sections@)),
        linked_lengths_known(doc@, sections_view(sections@)),
    ensures
        findings_view(r@) == new_lane_findings(
            doc@,
            ZeroLanes { at_start: zero_at_start@, at_last: zero_at_last@, at_road_end: zero_at_road_end@ },
            sections_view(sections@),
        ),
        findings_in(doc@, findings_view(r@)),
{
    let road_id_map = get_road_id_map(doc);
    let junction_id_map = get_junction_id_map(doc);
    let rs = get_map_roads(doc, &road_id_map);
    let ghost z = ZeroLanes { at_start: zero_at_start@, at_last: zero_at_last@, at_road_end: zero_at_road_end@ };
    let ghost f = road_fn(doc@, z, sections_view(sections@), road_id_map@, junction_id_map@);
    let mut r = empty_findings();
    let n = rs.len();
    let mut i: usize = 0;
    assert(findings_view(r@) =~= concat_map(rs@.take(0), f));
    while i < n
        invariant
            i <= n,
            n == rs@.len(),
            forall|k: int| 0 <= k < rs@.len() ==> #[trigger] rs@[k] < doc@.len(),
            entries_in(doc@, road_id_map@),
            entries_in(doc@, junction_id_map@),
            sections_in(doc@, sections_view(sections@)),
            z == (ZeroLanes { at_start: zero_at_start@, at_last: zero_at_last@, at_road_end: zero_at_road_end@ }),
            f == road_fn(doc@, z, sections_view(sections@), road_id_map@, junction_id_map@),
            findings_view(r@) == concat_map(rs@.take(i as int), f),
            findings_in(doc@, findings_view(r@)),
        decreases n - i,
    {
        assert(rs@.take(i + 1).drop_last() =~= rs@.take(i as int));
        let w = road_check(
            doc,
            zero_at_start,
            zero_at_last,
            zero_at_road_end,
            sections,
            &road_id_map,
            &junction_id_map,
            rs[i],
        );
        let ghost r0 = findings_view(r@);
        append_findings(&mut r, w);
        proof {
            lemma_findings_in_concat(doc@, r0, findings_view(w@));
        }
        i = i + 1;
    }
    assert(rs@.take(n as int) =~= rs@);
    r
}

/// Whether `sections` holds ordered lane sections for every road that a
/// road of the road id map is linked to where it is touched: what the
/// appearing-lane check needs of its input.
pub fn new_lane_lengths_known(doc: &XmlDoc, sections: &Vec<(usize, Vec<usize>)>) -> (r: bool)
    ensures
        r == linked_lengths_known(doc@, sections_view(sections@)),
{
    let road_id_map = get_road_id_map(doc);
    let rs = get_map_roads(doc, &road_id_map);
    let ghost sv = sections_view(sections@);
    let n = rs.len();
    let mut i: usize = 0;
    while i < n
        invariant
            i <= n,
            n == rs@.len(),
            rs@ == map_roads(doc@, road_id_map@, roads(doc@)),
            road_id_map@ == id_entries(doc@, roads(doc@)),
            forall|k: int| 0 <= k < rs@.len() ==> #[trigger] rs@[k] < doc@.len(),
            entries_in(doc@, road_id_map@),
            sv == sections_view(sections@),
            forall|k: int, tag: LinkageTag|
                0 <= k < i ==> match #[trigger] linked_road_contact(doc@, road_id_map@, rs@[k], tag) {
                    Some((_, linked, _, _)) => sections_of(sv, linked).len() > 0,
                    None => true,
                },
        decreases n - i,
    {
        let s = linked_road_contact_of(doc, &road_id_map, rs[i], LinkageTag::Successor);
        let p = linked_road_contact_of(doc, &road_id_map, rs[i], LinkageTag::Predecessor);
        match s {
            Some((_, linked, _, _)) => {
                if sections_list(sections, linked).len() == 0 {
                    return false;
                }
            },
            None => {},
        }
        match p {
            Some((_, linked, _, _)) => {
                if sections_list(sections, linked).len() == 0 {
                    return false;
                }
            },
            None => {},
        }
        assert forall|k: int, tag: LinkageTag| 0 <= k < i + 1 implies match #[trigger] linked_road_contact(
            doc@,
            road_id_map@,
            rs@[k],
            tag,
        ) {
            Some((_, linked, _, _)) => sections_of(sv, linked).len() > 0,
            None => true,
        } by {
            if k == i {
                match tag {
                    LinkageTag::Successor => {},
                    LinkageTag::Predecessor => {},
                }
            }
        }
        i = i + 1;
    }
    true
}

} // verus!
