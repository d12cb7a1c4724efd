//! The zero-width lane link checks: a lane whose width is zero where its lane
//! section begins shall have no predecessor, and one whose width is zero where
//! its lane section ends shall have no successor; both within roads and across
//! junction connections. Which lanes have width zero there is a question of
//! floating-point widths: the checks are handed those lanes.
use vstd::prelude::*;

use crate::opendrive::checks::findings::{
    findings_in, findings_view, Finding, FindingLocation, FindingView, LanePosition, LocationRequest,
    PointRequest,
};
use crate::opendrive::checks::semantic::{append_findings, get_map_roads, lemma_findings_in_concat, map_roads, sections_view};
use crate::opendrive::models::{ContactPoint, LinkageTag};
use crate::opendrive::utils::{
    belongs_to_junction, entries_in, first_lane_section, get_connections_between_road_and_junction,
    get_connections_of_connecting_road, get_first_lane_section, get_from_attribute_from_lane_link,
    get_junction_id_map, get_lane_id, get_lane_links_from_connection, get_lane_sections,
    get_left_and_right_lanes_from_lane_section, get_linked_junction_id, get_road_id_map, get_road_junction_id,
    get_roads, get_to_attribute_from_lane_link, id_entries, int_attr, int_attribute, junctions, lane_link_ids,
    lane_sections, left_and_right_lanes, linked_junction_id, map_get, map_lookup, road_belongs_to_junction, roads,
    connections_between, connections_of, lemma_map_get_in, get_connecting_lane_ids,
};
use crate::result::IssueSeverity;
use crate::text::concat_map;
use crate::xml::{children_with_tag, ElementView, XmlDoc};

verus! {

/// The linkage a zero-width lane must not have: its predecessor at the start
/// of its lane section, its successor at the end.
pub open spec fn side_tag(at_start: bool) -> LinkageTag {
    if at_start {
        LinkageTag::Predecessor
    } else {
        LinkageTag::Successor
    }
}

pub open spec fn width_desc(at_start: bool) -> Seq<char> {
    if at_start {
        " Lanes that have a width of zero at the beginning of the lane section shall have no predecessor element."@
    } else {
        " Lanes that have a width of zero at the end of the lane section shall have no successor element."@
    }
}

pub open spec fn width_loc(at_start: bool) -> Seq<char> {
    if at_start {
        "Lane with width zero and predecessors."@
    } else {
        "Lane with width zero and successors."@
    }
}

/// A center lane (id 0) gives a warning, any other lane an error.
pub open spec fn id_level(id: i64) -> IssueSeverity {
    if id == 0 {
        IssueSeverity::Warning
    } else {
        IssueSeverity::Error
    }
}

/// The finding for zero-width lane `lane` of lane section `ls` of `road`,
/// located at the lane and at its middle where the lane section begins (ends).
pub open spec fn zero_width_finding(road: usize, ls: usize, lane: usize, level: IssueSeverity, at_start: bool) -> FindingView {
    FindingView {
        description: width_desc(at_start),
        level,
        locations: seq![
            LocationRequest::Node(width_loc(at_start), lane),
            LocationRequest::Point(
                width_loc(at_start),
                PointRequest::LaneMiddle(
                    road,
                    ls,
                    lane,
                    if at_start { LanePosition::SectionStart } else { LanePosition::SectionEnd },
                ),
            ),
        ],
    }
}

/// Within a road: a zero-width lane with a linked lane on its zero side.
/// A lane without id counts as a center lane.
pub open spec fn lane_findings(d: Seq<ElementView>, zero: Seq<usize>, road: usize, ls: usize, lane: usize, at_start: bool) -> Seq<FindingView> {
    if zero.contains(lane) && lane_link_ids(d, lane as int, side_tag(at_start)).len() > 0 {
        let id = match int_attr(d, lane as int, "id"@) {
            Some(i) => i,
            None => 0,
        };
        seq![zero_width_finding(road, ls, lane, id_level(id), at_start)]
    } else {
        Seq::empty()
    }
}

pub open spec fn lane_fn(d: Seq<ElementView>, zero: Seq<usize>, road: usize, ls: usize, at_start: bool) -> spec_fn(usize) -> Seq<FindingView> {
    |lane: usize| lane_findings(d, zero, road, ls, lane, at_start)
}

pub open spec fn section_fn(d: Seq<ElementView>, zero: Seq<usize>, road: usize, at_start: bool) -> spec_fn(usize) -> Seq<FindingView> {
    |ls: usize| concat_map(left_and_right_lanes(d, ls as int), lane_fn(d, zero, road, ls, at_start))
}

pub open spec fn road_sections_fn(d: Seq<ElementView>, zero: Seq<usize>, at_start: bool) -> spec_fn((usize, Seq<usize>)) -> Seq<FindingView> {
    |e: (usize, Seq<usize>)| concat_map(e.1, section_fn(d, zero, e.0, at_start))
}

/// Each road of the document with its lane sections in document order.
pub open spec fn document_sections(d: Seq<ElementView>) -> Seq<(usize, Seq<usize>)> {
    roads(d).map_values(|r: usize| (r, lane_sections(d, r as int)))
}

/// The values of attribute `name` of the elements `links` that have one.
pub open spec fn attr_values(d: Seq<ElementView>, links: Seq<usize>, name: Seq<char>) -> Seq<i64>
    decreases links.len(),
{
    if links.len() == 0 {
        Seq::empty()
    } else {
        let prev = attr_values(d, links.drop_last(), name);
        match int_attr(d, links.last() as int, name) {
            Some(v) => prev.push(v),
            None => prev,
        }
    }
}

/// The lane links of the connections `cs`, in order.
pub open spec fn connection_links(d: Seq<ElementView>, cs: Seq<usize>) -> Seq<usize> {
    concat_map(cs, |c: usize| children_with_tag(d, c as int, "laneLink"@))
}

/// For a road at a junction: the ids of its lanes that lane links of the
/// junction reach on the zero side (`to` lanes of a connecting road, `from`
/// lanes of an incoming road); none when the road has no such junction.
pub open spec fn junction_lane_ids(
    d: Seq<ElementView>,
    road_ids: Seq<(i64, usize)>,
    junction_ids: Seq<(i64, usize)>,
    road: usize,
    at_start: bool,
) -> Option<Seq<i64>> {
    let cp = if at_start { ContactPoint::Start } else { ContactPoint::End };
    match int_attr(d, road as int, "id"@) {
        None => None,
        Some(rid) => if belongs_to_junction(d, road as int) {
            match int_attr(d, road as int, "junction"@) {
                None => None,
                Some(jid) => match map_get(junction_ids, jid) {
                    None => None,
                    Some(j) => Some(
                        attr_values(
                            d,
                            connection_links(d, connections_of(d, children_with_tag(d, j as int, "connection"@), rid, cp)),
                            "to"@,
                        ),
                    ),
                },
            }
        } else {
            match linked_junction_id(d, road as int, side_tag(at_start)) {
                None => None,
                Some(jid) => Some(
                    attr_values(d, connection_links(d, connections_between(d, rid, jid, road_ids, junction_ids, cp)), "from"@),
                ),
            }
        },
    }
}

/// The lane sections `sections` gives for `road` (the first entry for it).
pub open spec fn sections_of(sections: Seq<(usize, Seq<usize>)>, road: usize) -> Seq<usize>
    decreases sections.len(),
{
    if sections.len() == 0 {
        Seq::empty()
    } else if sections[0].0 == road {
        sections[0].1
    } else {
        sections_of(sections.drop_first(), road)
    }
}

/// The lane section of a road at the junction: its first one at the start,
/// the last of its ordered lane sections at the end.
pub open spec fn junction_section(d: Seq<ElementView>, sections: Seq<(usize, Seq<usize>)>, road: usize, at_start: bool) -> Option<usize> {
    if at_start {
        first_lane_section(d, road as int)
    } else {
        let l = sections_of(sections, road);
        if l.len() > 0 { Some(l.last()) } else { None }
    }
}

/// At a junction: a zero-width lane that the junction's lane links reach.
pub open spec fn junction_lane_fn(
    d: Seq<ElementView>,
    zero: Seq<usize>,
    road: usize,
    ls: usize,
    ids: Seq<i64>,
    at_start: bool,
) -> spec_fn(usize) -> Seq<FindingView> {
    |lane: usize|
        if zero.contains(lane) {
            match int_attr(d, lane as int, "id"@) {
                Some(id) => if ids.contains(id) {
                    seq![zero_width_finding(road, ls, lane, id_level(id), at_start)]
                } else {
                    Seq::empty()
                },
                None => Seq::empty(),
            }
        } else {
            Seq::empty()
        }
}

pub open spec fn junction_road_findings(
    d: Seq<ElementView>,
    zero: Seq<usize>,
    road_ids: Seq<(i64, usize)>,
    junction_ids: Seq<(i64, usize)>,
    sections: Seq<(usize, Seq<usize>)>,
    road: usize,
    at_start: bool,
) -> Seq<FindingView> {
    match junction_lane_ids(d, road_ids, junction_ids, road, at_start) {
        None => Seq::empty(),
        Some(ids) => match junction_section(d, sections, road, at_start) {
            None => Seq::empty(),
            Some(ls) => concat_map(left_and_right_lanes(d, ls as int), junction_lane_fn(d, zero, road, ls, ids, at_start)),
        },
    }
}

pub open spec fn junction_road_fn(
    d: Seq<ElementView>,
    zero: Seq<usize>,
    road_ids: Seq<(i64, usize)>,
    junction_ids: Seq<(i64, usize)>,
    sections: Seq<(usize, Seq<usize>)>,
    at_start: bool,
) -> spec_fn(usize) -> Seq<FindingView> {
    |road: usize| junction_road_findings(d, zero, road_ids, junction_ids, sections, road, at_start)
}

/// What a zero-width check finds: first within roads (lane sections of each
/// road as `within` lists them), then at junctions (roads of the road id map
/// in document order).
pub open spec fn zero_width_findings(
    d: Seq<ElementView>,
    zero: Seq<usize>,
    within: Seq<(usize, Seq<usize>)>,
    sections: Seq<(usize, Seq<usize>)>,
    at_start: bool,
) -> Seq<FindingView> {
    let road_ids = id_entries(d, roads(d));
    let junction_ids = id_entries(d, junctions(d));
    concat_map(within, road_sections_fn(d, zero, at_start)) + concat_map(
        map_roads(d, road_ids, roads(d)),
        junction_road_fn(d, zero, road_ids, junction_ids, sections, at_start),
    )
}

pub open spec fn sections_in(d: Seq<ElementView>, sections: Seq<(usize, Seq<usize>)>) -> bool {
    forall|k: int, q: int| 0 <= k < sections.len() && 0 <= q < sections[k].1.len() ==> #[trigger] sections[k].1[q] < d.len()
}

fn contains_usize(v: &Vec<usize>, x: usize) -> (r: bool)
    ensures
        r == v@.contains(x),
{
    let mut i: usize = 0;
    while i < v.len()
        invariant
            i <= v@.len(),
            forall|q: int| 0 <= q < i ==> v@[q] != x,
        decreases v@.len() - i,
    {
        if v[i] == x {
            assert(v@[i as int] == x);
            return true;
        }
        i = i + 1;
    }
    false
}

fn contains_i64(v: &Vec<i64>, x: i64) -> (r: bool)
    ensures
        r == v@.contains(x),
{
    let mut i: usize = 0;
    while i < v.len()
        invariant
            i <= v@.len(),
            forall|q: int| 0 <= q < i ==> v@[q] != x,
        decreases v@.len() - i,
    {
        if v[i] == x {
            assert(v@[i as int] == x);
            return true;
        }
        i = i + 1;
    }
    false
}

fn make_finding(road: usize, ls: usize, lane: usize, level: IssueSeverity, at_start: bool) -> (r: Vec<Finding>)
    ensures
        findings_view(r@) == seq![zero_width_finding(road, ls, lane, level, at_start)],
{
    let loc = if at_start {
        "Lane with width zero and predecessors."
    } else {
        "Lane with width zero and successors."
    };
    let desc = if at_start {
        " Lanes that have a width of zero at the beginning of the lane section shall have no predecessor element."
    } else {
        " Lanes that have a width of zero at the end of the lane section shall have no successor element."
    };
    let position = if at_start { LanePosition::SectionStart } else { LanePosition::SectionEnd };
    let mut locs: Vec<FindingLocation> = Vec::new();
    locs.push(FindingLocation::Node(loc.to_owned(), lane));
    locs.push(FindingLocation::Point(loc.to_owned(), PointRequest::LaneMiddle(road, ls, lane, position)));
    let f = Finding { description: desc.to_owned(), level, locations: locs };
    assert(f@.locations =~= zero_width_finding(road, ls, lane, level, at_start).locations);
    let mut r: Vec<Finding> = Vec::new();
    r.push(f);
    assert(findings_view(r@) =~= seq![zero_width_finding(road, ls, lane, level, at_start)]);
    r
}

fn lane_check(doc: &XmlDoc, zero: &Vec<usize>, road: usize, ls: usize, lane: usize, at_start: bool) -> (r: Vec<Finding>)
    requires
        lane < doc@.len(),
    ensures
        findings_view(r@) == lane_findings(doc@, zero@, road, ls, lane, at_start),
        findings_in(doc@, findings_view(r@)),
{
    let tag = if at_start { LinkageTag::Predecessor } else { LinkageTag::Successor };
    if contains_usize(zero, lane) && get_connecting_lane_ids(doc, lane, tag).len() > 0 {
        let id = match get_lane_id(doc, lane) {
            Some(i) => i,
            None => 0,
        };
        let level = if id == 0 { IssueSeverity::Warning } else { IssueSeverity::Error };
        make_finding(road, ls, lane, level, at_start)
    } else {
        let r: Vec<Finding> = Vec::new();
        assert(findings_view(r@) =~= Seq::<FindingView>::empty());
        r
    }
}

fn section_check(doc: &XmlDoc, zero: &Vec<usize>, road: usize, ls: usize, at_start: bool) -> (r: Vec<Finding>)
    requires
        ls < doc@.len(),
    ensures
        findings_view(r@) == section_fn(doc@, zero@, road, at_start)(ls),
        findings_in(doc@, findings_view(r@)),
{
    let lanes = get_left_and_right_lanes_from_lane_section(doc, ls);
    let ghost f = lane_fn(doc@, zero@, road, ls, at_start);
    let mut r: Vec<Finding> = Vec::new();
    let n = lanes.len();
    let mut i: usize = 0;
    assert(findings_view(r@) =~= concat_map(lanes@.take(0), f));
    while i < n
        invariant
            i <= n,
            n == lanes@.len(),
            lanes@ == left_and_right_lanes(doc@, ls as int),
            forall|k: int| 0 <= k < lanes@.len() ==> #[trigger] lanes@[k] < doc@.len(),
            f == lane_fn(doc@, zero@, road, ls, at_start),
            findings_view(r@) == concat_map(lanes@.take(i as int), f),
            findings_in(doc@, findings_view(r@)),
        decreases n - i,
    {
        assert(lanes@.take(i + 1).drop_last() =~= lanes@.take(i as int));
        let w = lane_check(doc, zero, road, ls, lanes[i], at_start);
        let ghost r0 = findings_view(r@);
        append_findings(&mut r, w);
        proof {
            lemma_findings_in_concat(doc@, r0, findings_view(w@));
        }
        i = i + 1;
    }
    assert(lanes@.take(n as int) =~= lanes@);
    r
}

fn road_sections_check(doc: &XmlDoc, zero: &Vec<usize>, road: usize, lss: &Vec<usize>, at_start: bool) -> (r: Vec<Finding>)
    requires
        forall|k: int| 0 <= k < lss@.len() ==> #[trigger] lss@[k] < doc@.len(),
    ensures
        findings_view(r@) == concat_map(lss@, section_fn(doc@, zero@, road, at_start)),
        findings_in(doc@, findings_view(r@)),
{
    let ghost f = section_fn(doc@, zero@, road, at_start);
    let mut r: Vec<Finding> = Vec::new();
    let n = lss.len();
    let mut i: usize = 0;
    assert(findings_view(r@) =~= concat_map(lss@.take(0), f));
    while i < n
        invariant
            i <= n,
            n == lss@.len(),
            forall|k: int| 0 <= k < lss@.len() ==> #[trigger] lss@[k] < doc@.len(),
            f == section_fn(doc@, zero@, road, at_start),
            findings_view(r@) == concat_map(lss@.take(i as int), f),
            findings_in(doc@, findings_view(r@)),
        decreases n - i,
    {
        assert(lss@.take(i + 1).drop_last() =~= lss@.take(i as int));
        let w = section_check(doc, zero, road, lss[i], at_start);
        let ghost r0 = findings_view(r@);
        append_findings(&mut r, w);
        proof {
            lemma_findings_in_concat(doc@, r0, findings_view(w@));
        }
        i = i + 1;
    }
    assert(lss@.take(n as int) =~= lss@);
    r
}

/// Within roads: the lane sections of each road as `within` lists them.
fn within_check(doc: &XmlDoc, zero: &Vec<usize>, within: &Vec<(usize, Vec<usize>)>, at_start: bool) -> (r: Vec<Finding>)
    requires
        sections_in(doc@, sections_view(within@)),
    ensures
        findings_view(r@) == concat_map(sections_view(within@), road_sections_fn(doc@, zero@, at_start)),
        findings_in(doc@, findings_view(r@)),
{
    let ghost sv = sections_view(within@);
    let ghost f = road_sections_fn(doc@, zero@, at_start);
    let mut r: Vec<Finding> = Vec::new();
    let n = within.len();
    let mut i: usize = 0;
    assert(findings_view(r@) =~= concat_map(sv.take(0), f));
    while i < n
        invariant
            i <= n,
            n == within@.len(),
            sv == sections_view(within@),
            sections_in(doc@, sv),
            f == road_sections_fn(doc@, zero@, at_start),
            findings_view(r@) == concat_map(sv.take(i as int), f),
            findings_in(doc@, findings_view(r@)),
        decreases n - i,
    {
        assert(sv.take(i + 1).drop_last() =~= sv.take(i as int));
        let e = &within[i];
        assert(sv[i as int] == (e.0, e.1@));
        assert forall|q: int| 0 <= q < e.1@.len() implies #[trigger] e.1@[q] < doc@.len() by {
            assert(sv[i as int].1[q] == e.1@[q]);
        }
        let w = road_sections_check(doc, zero, e.0, &e.1, at_start);
        let ghost r0 = findings_view(r@);
        append_findings(&mut r, w);
        proof {
            lemma_findings_in_concat(doc@, r0, findings_view(w@));
        }
        i = i + 1;
    }
    assert(sv.take(n as int) =~= sv);
    r
}

/// Each road of the document with its lane sections in document order.
fn get_document_sections(doc: &XmlDoc) -> (r: Vec<(usize, Vec<usize>)>)
    ensures
        sections_view(r@) == document_sections(doc@),
        sections_in(doc@, sections_view(r@)),
{
    let rs = get_roads(doc);
    let mut r: Vec<(usize, Vec<usize>)> = Vec::new();
    let n = rs.len();
    let mut i: usize = 0;
    while i < n
        invariant
            i <= n,
            n == rs@.len(),
            rs@ == roads(doc@),
            forall|k: int| 0 <= k < rs@.len() ==> #[trigger] rs@[k] < doc@.len(),
            sections_view(r@) == document_sections(doc@).take(i as int),
            sections_in(doc@, sections_view(r@)),
        decreases n - i,
    {
        let road = rs[i];
        let ls = get_lane_sections(doc, road);
        let ghost r0 = sections_view(r@);
        r.push((road, ls));
        assert(sections_view(r@) =~= r0.push((road, ls@)));
        assert(sections_view(r@) =~= document_sections(doc@).take(i + 1));
        assert forall|k: int, q: int| 0 <= k < sections_view(r@).len() && 0 <= q < sections_view(r@)[k].1.len() implies
            #[trigger] sections_view(r@)[k].1[q] < doc@.len() by {
            if k < r0.len() {
                assert(sections_view(r@)[k] == r0[k]);
            }
        }
        i = i + 1;
    }
    assert(document_sections(doc@).take(n as int) =~= document_sections(doc@));
    r
}

/// The values of `from` (or `to`) of the lane links of the connections `cs`.
fn link_attr_values(doc: &XmlDoc, cs: &Vec<usize>, from: bool) -> (r: Vec<i64>)
    requires
        forall|k: int| 0 <= k < cs@.len() ==> #[trigger] cs@[k] < doc@.len(),
    ensures
        r@ == attr_values(doc@, connection_links(doc@, cs@), if from { "from"@ } else { "to"@ }),
{
    let ghost name = if from { "from"@ } else { "to"@ };
    let mut r: Vec<i64> = Vec::new();
    let n = cs.len();
    let mut i: usize = 0;
    assert(connection_links(doc@, cs@.take(0)) =~= Seq::<usize>::empty());
    while i < n
        invariant
            i <= n,
            n == cs@.len(),
            forall|k: int| 0 <= k < cs@.len() ==> #[trigger] cs@[k] < doc@.len(),
            name == (if from { "from"@ } else { "to"@ }),
            r@ == attr_values(doc@, connection_links(doc@, cs@.take(i as int)), name),
        decreases n - i,
    {
        let ghost x = connection_links(doc@, cs@.take(i as int));
        let links = get_lane_links_from_connection(doc, cs[i]);
        let m = links.len();
        let mut j: usize = 0;
        assert(x + links@.take(0) =~= x);
        while j < m
            invariant
                j <= m,
                m == links@.len(),
                forall|k: int| 0 <= k < links@.len() ==> #[trigger] links@[k] < doc@.len(),
                name == (if from { "from"@ } else { "to"@ }),
                r@ == attr_values(doc@, x + links@.take(j as int), name),
            decreases m - j,
        {
            assert((x + links@.take(j + 1)).drop_last() =~= x + links@.take(j as int));
            assert((x + links@.take(j + 1)).last() == links@[j as int]);
            let v = if from {
                get_from_attribute_from_lane_link(doc, links[j])
            } else {
                get_to_attribute_from_lane_link(doc, links[j])
            };
            match v {
                Some(a) => r.push(a),
                None => {},
            }
            j = j + 1;
        }
        assert(links@.take(m as int) =~= links@);
        assert(cs@.take(i + 1).drop_last() =~= cs@.take(i as int));
        assert(connection_links(doc@, cs@.take(i + 1)) == x + links@);
        i = i + 1;
    }
    assert(cs@.take(n as int) =~= cs@);
    r
}

/// For a road at a junction, the ids of its lanes that the junction's lane
/// links reach on the zero side.
fn junction_lane_ids_of(
    doc: &XmlDoc,
    road_id_map: &Vec<(i64, usize)>,
    junction_id_map: &Vec<(i64, usize)>,
    road: usize,
    at_start: bool,
) -> (r: Option<Vec<i64>>)
    requires
        road < doc@.len(),
        entries_in(doc@, road_id_map@),
        entries_in(doc@, junction_id_map@),
    ensures
        match r {
            None => junction_lane_ids(doc@, road_id_map@, junction_id_map@, road, at_start) is None,
            Some(v) => junction_lane_ids(doc@, road_id_map@, junction_id_map@, road, at_start) == Some(v@),
        },
{
    let cp = if at_start { ContactPoint::Start } else { ContactPoint::End };
    let rid = match int_attribute(doc, road, "id") {
        None => return None,
        Some(x) => x,
    };
    if road_belongs_to_junction(doc, road) {
        let jid = match get_road_junction_id(doc, road) {
            None => return None,
            Some(x) => x,
        };
        proof {
            lemma_map_get_in(doc@, junction_id_map@, jid);
        }
        let j = match map_lookup(junction_id_map, jid) {
            None => return None,
            Some(x) => x,
        };
        let cs = get_connections_of_connecting_road(doc, rid, j, cp);
        Some(link_attr_values(doc, &cs, false))
    } else {
        let tag = if at_start { LinkageTag::Predecessor } else { LinkageTag::Successor };
        let jid = match get_linked_junction_id(doc, road, tag) {
            None => return None,
            Some(x) => x,
        };
        let cs = get_connections_between_road_and_junction(doc, rid, jid, road_id_map, junction_id_map, cp);
        Some(link_attr_values(doc, &cs, true))
    }
}

/// The lane sections `sections` gives for `road`.
fn sections_of_road(sections: &Vec<(usize, Vec<usize>)>, road: usize) -> (r: Option<usize>)
    ensures
        match r {
            None => sections_of(sections_view(sections@), road).len() == 0,
            Some(ls) => sections_of(sections_view(sections@), road).len() > 0
                && ls == sections_of(sections_view(sections@), road).last(),
        },
{
    let ghost sv = sections_view(sections@);
    let n = sections.len();
    let mut i: usize = 0;
    assert(sv.subrange(0, sv.len() as int) =~= sv);
    while i < n
        invariant
            i <= n,
            n == sections@.len(),
            sv == sections_view(sections@),
            sections_of(sv, road) == sections_of(sv.subrange(i as int, n as int), road),
        decreases n - i,
    {
        assert(sv.subrange(i as int, n as int)[0] == sv[i as int]);
        assert(sv.subrange(i as int, n as int).drop_first() =~= sv.subrange(i + 1, n as int));
        if sections[i].0 == road {
            let l = &sections[i].1;
            assert(sv[i as int].1 == l@);
            if l.len() > 0 {
                return Some(l[l.len() - 1]);
            } else {
                return None;
            }
        }
        i = i + 1;
    }
    None
}

fn junction_lane_check(
    doc: &XmlDoc,
    zero: &Vec<usize>,
    road: usize,
    ls: usize,
    ids: &Vec<i64>,
    lane: usize,
    at_start: bool,
) -> (r: Vec<Finding>)
    requires
        lane < doc@.len(),
    ensures
        findings_view(r@) == junction_lane_fn(doc@, zero@, road, ls, ids@, at_start)(lane),
        findings_in(doc@, findings_view(r@)),
{
    let empty: Vec<Finding> = Vec::new();
    assert(findings_view(empty@) =~= Seq::<FindingView>::empty());
    if !contains_usize(zero, lane) {
        return empty;
    }
    let id = match get_lane_id(doc, lane) {
        Some(i) => i,
        None => return empty,
    };
    if !contains_i64(ids, id) {
        return empty;
    }
    let level = if id == 0 { IssueSeverity::Warning } else { IssueSeverity::Error };
    make_finding(road, ls, lane, level, at_start)
}

fn junction_road_check(
    doc: &XmlDoc,
    zero: &Vec<usize>,
    road_id_map: &Vec<(i64, usize)>,
    junction_id_map: &Vec<(i64, usize)>,
    sections: &Vec<(usize, Vec<usize>)>,
    road: usize,
    at_start: bool,
) -> (r: Vec<Finding>)
    requires
        road < doc@.len(),
        entries_in(doc@, road_id_map@),
        entries_in(doc@, junction_id_map@),
        sections_in(doc@, sections_view(sections@)),
    ensures
        findings_view(r@) == junction_road_findings(
            doc@,
            zero@,
            road_id_map@,
            junction_id_map@,
            sections_view(sections@),
            road,
            at_start,
        ),
        findings_in(doc@, findings_view(r@)),
{
    let mut r: Vec<Finding> = Vec::new();
    assert(findings_view(r@) =~= Seq::<FindingView>::empty());
    let ids = match junction_lane_ids_of(doc, road_id_map, junction_id_map, road, at_start) {
        None => return r,
        Some(v) => v,
    };
    let ls = if at_start {
        get_first_lane_section(doc, road)
    } else {
        let found = sections_of_road(sections, road);
        proof {
            lemma_sections_of_in(doc@, sections_view(sections@), road);
        }
        found
    };
    let ls = match ls {
        None => return r,
        Some(x) => x,
    };
    let lanes = get_left_and_right_lanes_from_lane_section(doc, ls);
    let ghost f = junction_lane_fn(doc@, zero@, road, ls, ids@, at_start);
    let n = lanes.len();
    let mut i: usize = 0;
    assert(findings_view(r@) =~= concat_map(lanes@.take(0), f));
    while i < n
        invariant
            i <= n,
            n == lanes@.len(),
            forall|k: int| 0 <= k < lanes@.len() ==> #[trigger] lanes@[k] < doc@.len(),
            f == junction_lane_fn(doc@, zero@, road, ls, ids@, at_start),
            findings_view(r@) == concat_map(lanes@.take(i as int), f),
            findings_in(doc@, findings_view(r@)),
        decreases n - i,
    {
        assert(lanes@.take(i + 1).drop_last() =~= lanes@.take(i as int));
        let w = junction_lane_check(doc, zero, road, ls, &ids, lanes[i], at_start);
        let ghost r0 = findings_view(r@);
        append_findings(&mut r, w);
        proof {
            lemma_findings_in_concat(doc@, r0, findings_view(w@));
        }
        i = i + 1;
    }
    assert(lanes@.take(n as int) =~= lanes@);
    r
}

pub proof fn lemma_sections_of_in(d: Seq<ElementView>, sections: Seq<(usize, Seq<usize>)>, road: usize)
    requires
        sections_in(d, sections),
    ensures
        forall|q: int| 0 <= q < sections_of(sections, road).len() ==> #[trigger] sections_of(sections, road)[q] < d.len(),
    decreases sections.len(),
{
    if sections.len() > 0 && sections[0].0 != road {
        let rest = sections.drop_first();
        assert forall|k: int, q: int| 0 <= k < rest.len() && 0 <= q < rest[k].1.len() implies
            #[trigger] rest[k].1[q] < d.len() by {
            assert(rest[k] == sections[k + 1]);
            assert(sections[k + 1].1[q] < d.len());
        }
        lemma_sections_of_in(d, rest, road);
        assert(sections_of(sections, road) == sections_of(rest, road));
    } else if sections.len() > 0 {
        assert(sections_of(sections, road) == sections[0].1);
        assert forall|q: int| 0 <= q < sections[0].1.len() implies #[trigger] sections[0].1[q] < d.len() by {
            assert(sections[0].1[q] < d.len());
        }
    }
}

/// At junctions: the roads of the road id map in document order.
fn junctions_check(
    doc: &XmlDoc,
    zero: &Vec<usize>,
    sections: &Vec<(usize, Vec<usize>)>,
    at_start: bool,
) -> (r: Vec<Finding>)
    requires
        sections_in(doc@, sections_view(sections@)),
    ensures
        findings_view(r@) == concat_map(
            map_roads(doc@, id_entries(doc@, roads(doc@)), roads(doc@)),
            junction_road_fn(
                doc@,
                zero@,
                id_entries(doc@, roads(doc@)),
                id_entries(doc@, junctions(doc@)),
                sections_view(sections@),
                at_start,
            ),
        ),
        findings_in(doc@, findings_view(r@)),
{
    let road_id_map = get_road_id_map(doc);
    let junction_id_map = get_junction_id_map(doc);
    let rs = get_map_roads(doc, &road_id_map);
    let ghost f = junction_road_fn(doc@, zero@, road_id_map@, junction_id_map@, sections_view(sections@), at_start);
    let mut r: Vec<Finding> = Vec::new();
    let n = rs.len();
    let mut i: usize = 0;
    assert(findings_view(r@) =~= concat_map(rs@.take(0), f));
    while i < n
        invariant
            i <= n,
            n == rs@.len(),
            forall|k: int| 0 <= k < rs@.len() ==> #[trigger] rs@[k] < doc@.len(),
            entries_in(doc@, road_id_map@),
            entries_in(doc@, junction_id_map@),
            sections_in(doc@, sections_view(sections@)),
            f == junction_road_fn(doc@, zero@, road_id_map@, junction_id_map@, sections_view(sections@), at_start),
            findings_view(r@) == concat_map(rs@.take(i as int), f),
            findings_in(doc@, findings_view(r@)),
        decreases n - i,
    {
        assert(rs@.take(i + 1).drop_last() =~= rs@.take(i as int));
        let w = junction_road_check(doc, zero, &road_id_map, &junction_id_map, sections, rs[i], at_start);
        let ghost r0 = findings_view(r@);
        append_findings(&mut r, w);
        proof {
            lemma_findings_in_concat(doc@, r0, findings_view(w@));
        }
        i = i + 1;
    }
    assert(rs@.take(n as int) =~= rs@);
    r
}

/// The lanes of width zero where their lane section begins (`zero_at_start`,
/// as computed from their width polynomials) that have predecessors: within
/// roads, and at junctions where a lane link of the junction reaches them.
pub fn check_zero_width_at_start(doc: &XmlDoc, zero_at_start: &Vec<usize>) -> (r: Vec<Finding>)
    ensures
        findings_view(r@) == zero_width_findings(doc@, zero_at_start@, document_sections(doc@), Seq::empty(), true),
        findings_in(doc@, findings_view(r@)),
{
    let within = get_document_sections(doc);
    let none: Vec<(usize, Vec<usize>)> = Vec::new();
    assert(sections_view(none@) =~= Seq::<(usize, Seq<usize>)>::empty());
    let mut r = within_check(doc, zero_at_start, &within, true);
    let w = junctions_check(doc, zero_at_start, &none, true);
    let ghost r0 = findings_view(r@);
    append_findings(&mut r, w);
    proof {
        lemma_findings_in_concat(doc@, r0, findings_view(w@));
    }
    r
}

/// The lanes of width zero where their lane section ends (`zero_at_end`, as
/// computed from their width polynomials over the length of their lane
/// section) that have successors: within roads, and at junctions where a lane
/// link of the junction reaches them. `sections` gives, road by road, the
/// lane sections ordered by their start.
pub fn check_zero_width_at_end(doc: &XmlDoc, sections: &Vec<(usize, Vec<usize>)>, zero_at_end: &Vec<usize>) -> (r: Vec<Finding>)
    requires
        sections_in(doc@, sections_view(sections@)),
    ensures
        findings_view(r@) == zero_width_findings(
            doc@,
            zero_at_end@,
            sections_view(sections@),
            sections_view(sections@),
            false,
        ),
        findings_in(doc@, findings_view(r@)),
{
    let mut r = within_check(doc, zero_at_end, sections, false);
    let w = junctions_check(doc, zero_at_end, sections, false);
    let ghost r0 = findings_view(r@);
    append_findings(&mut r, w);
    proof {
        lemma_findings_in_concat(doc@, r0, findings_view(w@));
    }
    r
}

} // verus!
