//! The semantic checks: how roads, lanes and junctions refer to each other.
//! Each check lists what it finds in document order; the findings are then
//! recorded by `record_findings`.
use vstd::prelude::*;

use crate::opendrive::checks::findings::{
    findings_in, findings_view, Finding, FindingLocation, FindingView, LanePosition,
    LocationRequest, PointRequest,
};
use crate::opendrive::checks::{after_basic_checks, checker_after_basic, spec_entry, CheckerSpec};
use crate::opendrive::models::{
    ContactPoint, ContactingLaneSection, LaneDirection, LinkageTag, RoadLinkage, TrafficHandRule,
};
use crate::opendrive::utils::{
    contact_lane_section_of_linkage, first_lane_section, get_connecting_lane_ids, get_contact_lane_section_from_linked_road,
    get_first_lane_section, get_last_lane_section, get_lane_id, get_lane_sections,
    get_left_and_right_lanes_from_lane_section, get_left_lanes_from_lane_section, get_right_lanes_from_lane_section,
    get_lane_level_from_lane, side_lanes, lane_link_ids, lane_sections, last_lane_section, left_and_right_lanes,
    contacting_lane_sections, get_from_attribute_from_lane_link, get_incoming_and_connection_contacting_lane_sections,
    get_lane_direction, get_lane_from_lane_section, get_lane_links_from_connection, get_to_attribute_from_lane_link,
    get_traffic_hand_rule_from_road, lane_direction, lane_in_section, traffic_hand_rule,
    belongs_to_junction, connection_contact_point, entries_in, get_connecting_road_id_from_connection,
    get_connections_from_junction, get_contact_point_from_connection, get_incoming_road_id_from_connection,
    get_junction_id, get_junctions, get_linked_junction_id, get_road_id_map, get_road_linkage, int_attr,
    junctions, lemma_map_get_in, linked_junction_id, map_get, map_lookup, road_belongs_to_junction,
    road_linkage, roads, id_entries, road_link_element, get_road_link_element,
};
use crate::result::IssueSeverity;
use crate::text::{chars_of, concat_map, copy_range, dec_int, parse_i64, parse_i64_spec, str_eq};
use crate::version::{find_char_from, find_from, lemma_find_from};
use crate::xml::{attribute, children_with_tag, ElementView, XmlDoc};

verus! {


/// The pairs (junction, connection) of the document: the connections of
/// each junction, junctions in document order.
pub open spec fn connections_of_junctions(d: Seq<ElementView>, js: Seq<usize>) -> Seq<(usize, usize)>
    decreases js.len(),
{
    if js.len() == 0 {
        Seq::empty()
    } else {
        connections_of_junctions(d, js.drop_last()) + children_with_tag(d, js.last() as int, "connection"@).map_values(
            |c: usize| (js.last(), c),
        )
    }
}

pub open spec fn junction_connections(d: Seq<ElementView>) -> Seq<(usize, usize)> {
    connections_of_junctions(d, junctions(d))
}

/// All (junction, connection) pairs of the document, in document order.
pub fn get_junction_connections(doc: &XmlDoc) -> (r: Vec<(usize, usize)>)
    ensures
        r@ == junction_connections(doc@),
        forall|k: int| 0 <= k < r@.len() ==> (#[trigger] r@[k]).0 < doc@.len() && r@[k].1 < doc@.len(),
{
    let js = get_junctions(doc);
    let mut r: Vec<(usize, usize)> = Vec::new();
    let n = js.len();
    let mut i: usize = 0;
    while i < n
        invariant
            i <= n,
            n == js@.len(),
            js@ == junctions(doc@),
            forall|k: int| 0 <= k < js@.len() ==> #[trigger] js@[k] < doc@.len(),
            r@ == connections_of_junctions(doc@, js@.take(i as int)),
            forall|k: int| 0 <= k < r@.len() ==> (#[trigger] r@[k]).0 < doc@.len() && r@[k].1 < doc@.len(),
        decreases n - i,
    {
        assert(js@.take(i + 1).drop_last() =~= js@.take(i as int));
        let j = js[i];
        let cs = get_connections_from_junction(doc, j);
        let ghost r0 = r@;
        let m = cs.len();
        let mut k: usize = 0;
        while k < m
            invariant
                k <= m,
                m == cs@.len(),
                j < doc@.len(),
                forall|q: int| 0 <= q < cs@.len() ==> #[trigger] cs@[q] < doc@.len(),
                r@ == r0 + cs@.take(k as int).map_values(|c: usize| (j, c)),
                forall|q: int| 0 <= q < r@.len() ==> (#[trigger] r@[q]).0 < doc@.len() && r@[q].1 < doc@.len(),
            decreases m - k,
        {
            assert(cs@.take(k + 1).map_values(|c: usize| (j, c)) =~= cs@.take(k as int).map_values(
                |c: usize| (j, c),
            ).push((j, cs@[k as int])));
            r.push((j, cs[k]));
            k = k + 1;
        }
        assert(cs@.take(m as int) =~= cs@);
        i = i + 1;
    }
    assert(js@.take(n as int) =~= js@);
    r
}

fn push_finding(v: &mut Vec<Finding>, f: Finding)
    ensures
        findings_view(final(v)@) == findings_view(old(v)@).push(f@),
{
    let ghost v0 = v@;
    v.push(f);
    assert(findings_view(v@) =~= findings_view(v0).push(f@));
}

pub(crate) fn append_findings(v: &mut Vec<Finding>, w: Vec<Finding>)
    ensures
        findings_view(final(v)@) == findings_view(old(v)@) + findings_view(w@),
{
    let ghost v0 = v@;
    let ghost w0 = w@;
    let mut w = w;
    v.append(&mut w);
    assert(findings_view(v@) =~= findings_view(v0) + findings_view(w0)) by {
        assert(v@ =~= v0 + w0);
    }
}

pub proof fn lemma_findings_in_concat(d: Seq<ElementView>, a: Seq<FindingView>, b: Seq<FindingView>)
    requires
        findings_in(d, a),
        findings_in(d, b),
    ensures
        findings_in(d, a + b),
{
    assert forall|i: int, j: int| 0 <= i < (a + b).len() && 0 <= j < (a + b)[i].locations.len() implies
        crate::opendrive::checks::findings::location_in(d, #[trigger] (a + b)[i].locations[j]) by {
        if i < a.len() {
            assert((a + b)[i] == a[i]);
        } else {
            assert((a + b)[i] == b[i - a.len()]);
        }
    }
}

/// An error finding with the given locations.
pub open spec fn error_finding(description: Seq<char>, locations: Seq<LocationRequest>) -> FindingView {
    FindingView { description, level: IssueSeverity::Error, locations }
}

// ---------------------------------------------------------------------------
// junctions.connection.start_along_linkage / end_opposite_linkage
// ---------------------------------------------------------------------------

/// For a connection with contact point `contact_point`: its connecting road
/// must be linked (as predecessor at the start, as successor at the end) to
/// the incoming road; a finding where it is linked to another road.
pub open spec fn linkage_direction_findings(
    d: Seq<ElementView>,
    road_ids: Seq<(i64, usize)>,
    c: usize,
    contact_point: ContactPoint,
    description: Seq<char>,
    loc_desc: Seq<char>,
) -> Seq<FindingView> {
    if connection_contact_point(d, c as int) != Some(contact_point) {
        Seq::empty()
    } else {
        match (int_attr(d, c as int, "connectingRoad"@), int_attr(d, c as int, "incomingRoad"@)) {
            (Some(cid), Some(iid)) => match map_get(road_ids, cid) {
                None => Seq::empty(),
                Some(road) => match road_linkage(
                    d,
                    road as int,
                    if contact_point == ContactPoint::Start { LinkageTag::Predecessor } else { LinkageTag::Successor },
                ) {
                    None => Seq::empty(),
                    Some(l) => if l.id != iid {
                        seq![
                            error_finding(
                                description,
                                seq![
                                    LocationRequest::Node(loc_desc, c),
                                    LocationRequest::Point(
                                        loc_desc,
                                        if contact_point == ContactPoint::Start {
                                            PointRequest::RoadStart(road)
                                        } else {
                                            PointRequest::RoadEnd(road)
                                        },
                                    ),
                                ],
                            ),
                        ]
                    } else {
                        Seq::empty()
                    },
                },
            },
            _ => Seq::empty(),
        }
    }
}

pub open spec fn start_along_desc() -> Seq<char> {
    "The value 'start' shall be used to indicate that the connecting road runs along the linkage indicated in the element."@
}

pub open spec fn start_along_loc() -> Seq<char> {
    "Contact point 'start' not used on predecessor road connection."@
}

pub open spec fn end_opposite_desc() -> Seq<char> {
    "The value 'end' shall be used to indicate that the connecting road runs along the opposite direction of the linkage indicated in the element."@
}

pub open spec fn end_opposite_loc() -> Seq<char> {
    "Contact point 'end' not used on successor road connection."@
}

pub open spec fn direction_fn(
    d: Seq<ElementView>,
    road_ids: Seq<(i64, usize)>,
    contact_point: ContactPoint,
    description: Seq<char>,
    loc_desc: Seq<char>,
) -> spec_fn((usize, usize)) -> Seq<FindingView> {
    |p: (usize, usize)| linkage_direction_findings(d, road_ids, p.1, contact_point, description, loc_desc)
}

pub open spec fn start_along_fn(d: Seq<ElementView>, road_ids: Seq<(i64, usize)>) -> spec_fn((usize, usize)) -> Seq<FindingView> {
    direction_fn(d, road_ids, ContactPoint::Start, start_along_desc(), start_along_loc())
}

pub open spec fn end_opposite_fn(d: Seq<ElementView>, road_ids: Seq<(i64, usize)>) -> spec_fn((usize, usize)) -> Seq<FindingView> {
    direction_fn(d, road_ids, ContactPoint::End, end_opposite_desc(), end_opposite_loc())
}

fn linkage_direction_finding(
    doc: &XmlDoc,
    road_id_map: &Vec<(i64, usize)>,
    c: usize,
    contact_point: ContactPoint,
    description: &str,
    loc_desc: &str,
) -> (r: Vec<Finding>)
    requires
        c < doc@.len(),
        entries_in(doc@, road_id_map@),
    ensures
        findings_view(r@) == linkage_direction_findings(doc@, road_id_map@, c, contact_point, description@, loc_desc@),
        findings_in(doc@, findings_view(r@)),
{
    let mut r: Vec<Finding> = Vec::new();
    assert(findings_view(r@) =~= Seq::<FindingView>::empty());
    match get_contact_point_from_connection(doc, c) {
        Some(cp) => if cp != contact_point {
            return r;
        },
        None => return r,
    }
    let cid = match get_connecting_road_id_from_connection(doc, c) {
        Some(x) => x,
        None => return r,
    };
    let iid = match get_incoming_road_id_from_connection(doc, c) {
        Some(x) => x,
        None => return r,
    };
    proof {
        lemma_map_get_in(doc@, road_id_map@, cid);
    }
    let road = match map_lookup(road_id_map, cid) {
        Some(x) => x,
        None => return r,
    };
    let tag = if contact_point == ContactPoint::Start { LinkageTag::Predecessor } else { LinkageTag::Successor };
    let l = match get_road_linkage(doc, road, tag) {
        Some(l) => l,
        None => return r,
    };
    if l.id != iid {
        let point = if contact_point == ContactPoint::Start { PointRequest::RoadStart(road) } else { PointRequest::RoadEnd(road) };
        let mut locs: Vec<FindingLocation> = Vec::new();
        locs.push(FindingLocation::Node(loc_desc.to_owned(), c));
        locs.push(FindingLocation::Point(loc_desc.to_owned(), point));
        let f = Finding { description: description.to_owned(), level: IssueSeverity::Error, locations: locs };
        assert(f@.locations =~= seq![LocationRequest::Node(loc_desc@, c), LocationRequest::Point(loc_desc@, point)]);
        push_finding(&mut r, f);
        assert(findings_view(r@) =~= seq![error_finding(description@, f@.locations)]);
    }
    r
}

fn linkage_direction_check(
    doc: &XmlDoc,
    contact_point: ContactPoint,
    description: &str,
    loc_desc: &str,
) -> (r: Vec<Finding>)
    ensures
        findings_view(r@) == concat_map(
            junction_connections(doc@),
            direction_fn(doc@, id_entries(doc@, roads(doc@)), contact_point, description@, loc_desc@),
        ),
        findings_in(doc@, findings_view(r@)),
{
    let road_id_map = get_road_id_map(doc);
    let pairs = get_junction_connections(doc);
    let ghost f = direction_fn(doc@, road_id_map@, contact_point, description@, loc_desc@);
    let mut r: Vec<Finding> = Vec::new();
    let n = pairs.len();
    let mut i: usize = 0;
    assert(findings_view(r@) =~= concat_map(pairs@.take(0), f));
    while i < n
        invariant
            i <= n,
            n == pairs@.len(),
            entries_in(doc@, road_id_map@),
            forall|k: int| 0 <= k < pairs@.len() ==> (#[trigger] pairs@[k]).0 < doc@.len() && pairs@[k].1 < doc@.len(),
            f == direction_fn(doc@, road_id_map@, contact_point, description@, loc_desc@),
            findings_view(r@) == concat_map(pairs@.take(i as int), f),
            findings_in(doc@, findings_view(r@)),
        decreases n - i,
    {
        assert(pairs@.take(i + 1).drop_last() =~= pairs@.take(i as int));
        let (_, c) = pairs[i];
        let w = linkage_direction_finding(doc, &road_id_map, c, contact_point, description, loc_desc);
        let ghost r0 = findings_view(r@);
        assert(concat_map(pairs@.take(i + 1), f) == concat_map(pairs@.take(i as int), f) + f(pairs@[i as int]));
        assert(f(pairs@[i as int]) == findings_view(w@));
        append_findings(&mut r, w);
        assert(findings_in(doc@, findings_view(r@))) by {
            assert forall|a: int, b: int|
                0 <= a < findings_view(r@).len() && 0 <= b < findings_view(r@)[a].locations.len() implies
                crate::opendrive::checks::findings::location_in(doc@, #[trigger] findings_view(r@)[a].locations[b]) by {
                if a >= r0.len() {
                    assert(findings_view(r@)[a] == findings_view(w@)[a - r0.len()]);
                } else {
                    assert(findings_view(r@)[a] == r0[a]);
                }
            }
        }
        i = i + 1;
    }
    assert(pairs@.take(n as int) =~= pairs@);
    r
}

/// Connections with contact point `start` whose connecting road has a
/// predecessor other than the incoming road.
pub fn check_junction_connection_start_along_linkage(doc: &XmlDoc) -> (r: Vec<Finding>)
    ensures
        findings_view(r@) == concat_map(junction_connections(doc@), start_along_fn(doc@, id_entries(doc@, roads(doc@)))),
        findings_in(doc@, findings_view(r@)),
{
    let r = linkage_direction_check(
        doc,
        ContactPoint::Start,
        "The value 'start' shall be used to indicate that the connecting road runs along the linkage indicated in the element.",
        "Contact point 'start' not used on predecessor road connection.",
    );
    r
}


/// Connections with contact point `end` whose connecting road has a
/// successor other than the incoming road.
pub fn check_junction_connection_end_opposite_linkage(doc: &XmlDoc) -> (r: Vec<Finding>)
    ensures
        findings_view(r@) == concat_map(junction_connections(doc@), end_opposite_fn(doc@, id_entries(doc@, roads(doc@)))),
        findings_in(doc@, findings_view(r@)),
{
    linkage_direction_check(
        doc,
        ContactPoint::End,
        "The value 'end' shall be used to indicate that the connecting road runs along the opposite direction of the linkage indicated in the element.",
        "Contact point 'end' not used on successor road connection.",
    )
}


// ---------------------------------------------------------------------------
// junctions.connection.connect_road_no_incoming_road
// ---------------------------------------------------------------------------

/// The point of an incoming road that is itself a connecting road of
/// junction `jid`: its end when its successor is that junction, else its
/// start when its predecessor is, else its middle.
pub open spec fn incoming_road_point(d: Seq<ElementView>, road: usize, jid: i64) -> PointRequest {
    if linked_junction_id(d, road as int, LinkageTag::Successor) == Some(jid) {
        PointRequest::RoadEnd(road)
    } else if linked_junction_id(d, road as int, LinkageTag::Predecessor) == Some(jid) {
        PointRequest::RoadStart(road)
    } else {
        PointRequest::RoadMiddle(road)
    }
}

/// A connection of junction `j` whose incoming road is a connecting road of
/// some junction.
pub open spec fn no_incoming_findings(d: Seq<ElementView>, road_ids: Seq<(i64, usize)>, j: usize, c: usize) -> Seq<FindingView> {
    match int_attr(d, c as int, "incomingRoad"@) {
        None => Seq::empty(),
        Some(iid) => match map_get(road_ids, iid) {
            None => Seq::empty(),
            Some(road) => if belongs_to_junction(d, road as int) {
                let node = LocationRequest::Node("Connection with connecting road found as incoming road."@, c);
                let locs = match int_attr(d, j as int, "id"@) {
                    None => seq![node],
                    Some(jid) => seq![
                        node,
                        LocationRequest::Point(
                            "Incoming road which is also a connecting road."@,
                            incoming_road_point(d, road, jid),
                        ),
                    ],
                };
                seq![error_finding("Connecting roads shall not be incoming roads."@, locs)]
            } else {
                Seq::empty()
            },
        },
    }
}

pub open spec fn no_incoming_fn(d: Seq<ElementView>, road_ids: Seq<(i64, usize)>) -> spec_fn((usize, usize)) -> Seq<FindingView> {
    |p: (usize, usize)| no_incoming_findings(d, road_ids, p.0, p.1)
}

fn no_incoming_finding(doc: &XmlDoc, road_id_map: &Vec<(i64, usize)>, j: usize, c: usize) -> (r: Vec<Finding>)
    requires
        j < doc@.len(),
        c < doc@.len(),
        entries_in(doc@, road_id_map@),
    ensures
        findings_view(r@) == no_incoming_findings(doc@, road_id_map@, j, c),
        findings_in(doc@, findings_view(r@)),
{
    let mut r: Vec<Finding> = Vec::new();
    assert(findings_view(r@) =~= Seq::<FindingView>::empty());
    let iid = match get_incoming_road_id_from_connection(doc, c) {
        Some(x) => x,
        None => return r,
    };
    proof {
        lemma_map_get_in(doc@, road_id_map@, iid);
    }
    let road = match map_lookup(road_id_map, iid) {
        Some(x) => x,
        None => return r,
    };
    if !road_belongs_to_junction(doc, road) {
        return r;
    }
    let mut locs: Vec<FindingLocation> = Vec::new();
    locs.push(FindingLocation::Node("Connection with connecting road found as incoming road.".to_owned(), c));
    match get_junction_id(doc, j) {
        None => {},
        Some(jid) => {
            let point = if get_linked_junction_id(doc, road, LinkageTag::Successor) == Some(jid) {
                PointRequest::RoadEnd(road)
            } else if get_linked_junction_id(doc, road, LinkageTag::Predecessor) == Some(jid) {
                PointRequest::RoadStart(road)
            } else {
                PointRequest::RoadMiddle(road)
            };
            locs.push(FindingLocation::Point("Incoming road which is also a connecting road.".to_owned(), point));
        },
    }
    let f = Finding {
        description: "Connecting roads shall not be incoming roads.".to_owned(),
        level: IssueSeverity::Error,
        locations: locs,
    };
    assert(f@.locations =~= no_incoming_findings(doc@, road_id_map@, j, c)[0].locations);
    push_finding(&mut r, f);
    assert(findings_view(r@) =~= no_incoming_findings(doc@, road_id_map@, j, c));
    r
}

/// Connections whose incoming road is a connecting road.
pub fn check_junctions_connection_connect_road_no_incoming_road(doc: &XmlDoc) -> (r: Vec<Finding>)
    ensures
        findings_view(r@) == concat_map(junction_connections(doc@), no_incoming_fn(doc@, id_entries(doc@, roads(doc@)))),
        findings_in(doc@, findings_view(r@)),
{
    let road_id_map = get_road_id_map(doc);
    let pairs = get_junction_connections(doc);
    let ghost f = no_incoming_fn(doc@, road_id_map@);
    let mut r: Vec<Finding> = Vec::new();
    let n = pairs.len();
    let mut i: usize = 0;
    assert(findings_view(r@) =~= concat_map(pairs@.take(0), f));
    while i < n
        invariant
            i <= n,
            n == pairs@.len(),
            entries_in(doc@, road_id_map@),
            forall|k: int| 0 <= k < pairs@.len() ==> (#[trigger] pairs@[k]).0 < doc@.len() && pairs@[k].1 < doc@.len(),
            f == no_incoming_fn(doc@, road_id_map@),
            findings_view(r@) == concat_map(pairs@.take(i as int), f),
            findings_in(doc@, findings_view(r@)),
        decreases n - i,
    {
        assert(pairs@.take(i + 1).drop_last() =~= pairs@.take(i as int));
        let (j, c) = pairs[i];
        let w = no_incoming_finding(doc, &road_id_map, j, c);
        let ghost r0 = findings_view(r@);
        assert(concat_map(pairs@.take(i + 1), f) == concat_map(pairs@.take(i as int), f) + f(pairs@[i as int]));
        append_findings(&mut r, w);
        proof {
            lemma_findings_in_concat(doc@, r0, findings_view(w@));
        }
        i = i + 1;
    }
    assert(pairs@.take(n as int) =~= pairs@);
    r
}


// ---------------------------------------------------------------------------
// Lane link directions in junctions
// ---------------------------------------------------------------------------

/// A lane id as seen along the road: negated (wrapping) for a lane driven
/// in reverse.
pub open spec fn directed_id(id: i64, direction: LaneDirection) -> i64 {
    if direction == LaneDirection::Reversed {
        if id == i64::MIN { i64::MIN } else { (-id) as i64 }
    } else {
        id
    }
}

fn directed_lane_id(id: i64, direction: LaneDirection) -> (r: i64)
    ensures
        r == directed_id(id, direction),
{
    if direction == LaneDirection::Reversed {
        if id == i64::MIN { i64::MIN } else { -id }
    } else {
        id
    }
}

/// Whether `x` has the sign `positive` asks for (`> 0` or `< 0`).
pub open spec fn has_sign(x: i64, positive: bool) -> bool {
    if positive { x > 0 } else { x < 0 }
}

/// Which signs make a lane link wrong at one end of the connecting road:
/// the sign of the target lane when the source lane runs both ways, and,
/// when the connecting road's link there meets the other road at its end or
/// at its start, the signs of the source and target lanes.
pub ghost struct SideRule {
    pub both_to: bool,
    pub end_from: bool,
    pub end_to: bool,
    pub start_from: bool,
    pub start_to: bool,
}

/// Whether a lane link passes the rule of one end, given the link of the
/// connecting road at that end.
pub open spec fn side_ok(
    to_id: i64,
    from_id: i64,
    from_direction: LaneDirection,
    link: Option<RoadLinkage>,
    rule: SideRule,
) -> bool {
    match link {
        None => true,
        Some(l) => if from_direction == LaneDirection::Both {
            !has_sign(to_id, rule.both_to)
        } else if l.contact_point == ContactPoint::End {
            !has_sign(from_id, rule.end_from) && !has_sign(to_id, rule.end_to)
        } else {
            !has_sign(from_id, rule.start_from) && !has_sign(to_id, rule.start_to)
        },
    }
}

/// Whether a lane link from an incoming lane to a lane of the connecting
/// road runs the way traffic flows: always when both lanes run both ways;
/// else by the rule of the end of the connecting road that the connection
/// enters (its start, through its predecessor, or its end, through its
/// successor), the ids taken along the road.
pub open spec fn lane_link_direction_ok(
    to_lane_id: i64,
    to_lane_direction: LaneDirection,
    from_lane_id: i64,
    from_lane_direction: LaneDirection,
    predecessor_road_linkage: Option<RoadLinkage>,
    successor_road_linkage: Option<RoadLinkage>,
    connection_contact_point: ContactPoint,
    at_start: SideRule,
    at_end: SideRule,
) -> bool {
    let to_id = directed_id(to_lane_id, to_lane_direction);
    let from_id = directed_id(from_lane_id, from_lane_direction);
    if to_lane_direction == LaneDirection::Both && from_lane_direction == LaneDirection::Both {
        true
    } else if connection_contact_point == ContactPoint::Start {
        side_ok(to_id, from_id, from_lane_direction, predecessor_road_linkage, at_start)
    } else {
        side_ok(to_id, from_id, from_lane_direction, successor_road_linkage, at_end)
    }
}

/// The rules for right-hand traffic on both roads.
pub open spec fn rht_rules() -> (SideRule, SideRule) {
    (
        SideRule { both_to: false, end_from: true, end_to: true, start_from: false, start_to: true },
        SideRule { both_to: true, end_from: true, end_to: false, start_from: false, start_to: false },
    )
}

/// The rules for left-hand traffic on both roads.
pub open spec fn lht_rules() -> (SideRule, SideRule) {
    (
        SideRule { both_to: false, end_from: false, end_to: false, start_from: true, start_to: false },
        SideRule { both_to: true, end_from: false, end_to: true, start_from: true, start_to: true },
    )
}

/// The rules for a left-hand incoming road and a right-hand connecting road.
pub open spec fn lht_to_rht_rules() -> (SideRule, SideRule) {
    (
        SideRule { both_to: true, end_from: false, end_to: true, start_from: true, start_to: true },
        SideRule { both_to: false, end_from: false, end_to: false, start_from: true, start_to: false },
    )
}

/// The rules for a right-hand incoming road and a left-hand connecting road.
pub open spec fn rht_to_lht_rules() -> (SideRule, SideRule) {
    (
        SideRule { both_to: false, end_from: true, end_to: false, start_from: false, start_to: false },
        SideRule { both_to: true, end_from: true, end_to: true, start_from: false, start_to: true },
    )
}

fn sign_of(x: i64, positive: bool) -> (r: bool)
    ensures
        r == has_sign(x, positive),
{
    if positive { x > 0 } else { x < 0 }
}

fn side_valid(
    to_id: i64,
    from_id: i64,
    from_direction: LaneDirection,
    link: Option<RoadLinkage>,
    both_to: bool,
    end_from: bool,
    end_to: bool,
    start_from: bool,
    start_to: bool,
) -> (r: bool)
    ensures
        r == side_ok(to_id, from_id, from_direction, link, SideRule { both_to, end_from, end_to, start_from, start_to }),
{
    match link {
        None => true,
        Some(l) => if from_direction == LaneDirection::Both {
            !sign_of(to_id, both_to)
        } else if l.contact_point == ContactPoint::End {
            !sign_of(from_id, end_from) && !sign_of(to_id, end_to)
        } else {
            !sign_of(from_id, start_from) && !sign_of(to_id, start_to)
        },
    }
}

/// Lane link direction for right-hand traffic on both roads.
pub fn is_rht_lane_direction_valid(
    to_lane_id: i64,
    to_lane_direction: LaneDirection,
    from_lane_id: i64,
    from_lane_direction: LaneDirection,
    predecessor_road_linkage: Option<RoadLinkage>,
    successor_road_linkage: Option<RoadLinkage>,
    connection_contact_point: ContactPoint,
) -> (r: bool)
    ensures
        r == lane_link_direction_ok(
            to_lane_id,
            to_lane_direction,
            from_lane_id,
            from_lane_direction,
            predecessor_road_linkage,
            successor_road_linkage,
            connection_contact_point,
            rht_rules().0,
            rht_rules().1,
        ),
{
    if to_lane_direction == LaneDirection::Both && from_lane_direction == LaneDirection::Both {
        return true;
    }
    let to_id = directed_lane_id(to_lane_id, to_lane_direction);
    let from_id = directed_lane_id(from_lane_id, from_lane_direction);
    if connection_contact_point == ContactPoint::Start {
        side_valid(to_id, from_id, from_lane_direction, predecessor_road_linkage, false, true, true, false, true)
    } else {
        side_valid(to_id, from_id, from_lane_direction, successor_road_linkage, true, true, false, false, false)
    }
}

/// Lane link direction for left-hand traffic on both roads.
pub fn is_lht_lane_direction_valid(
    to_lane_id: i64,
    to_lane_direction: LaneDirection,
    from_lane_id: i64,
    from_lane_direction: LaneDirection,
    predecessor_road_linkage: Option<RoadLinkage>,
    successor_road_linkage: Option<RoadLinkage>,
    connection_contact_point: ContactPoint,
) -> (r: bool)
    ensures
        r == lane_link_direction_ok(
            to_lane_id,
            to_lane_direction,
            from_lane_id,
            from_lane_direction,
            predecessor_road_linkage,
            successor_road_linkage,
            connection_contact_point,
            lht_rules().0,
            lht_rules().1,
        ),
{
    if to_lane_direction == LaneDirection::Both && from_lane_direction == LaneDirection::Both {
        return true;
    }
    let to_id = directed_lane_id(to_lane_id, to_lane_direction);
    let from_id = directed_lane_id(from_lane_id, from_lane_direction);
    if connection_contact_point == ContactPoint::Start {
        side_valid(to_id, from_id, from_lane_direction, predecessor_road_linkage, false, false, false, true, false)
    } else {
        side_valid(to_id, from_id, from_lane_direction, successor_road_linkage, true, false, true, true, true)
    }
}

/// Lane link direction from a left-hand incoming road into a right-hand
/// connecting road.
pub fn is_lht_to_rht_lane_direction_valid(
    to_lane_id: i64,
    to_lane_direction: LaneDirection,
    from_lane_id: i64,
    from_lane_direction: LaneDirection,
    predecessor_road_linkage: Option<RoadLinkage>,
    successor_road_linkage: Option<RoadLinkage>,
    connection_contact_point: ContactPoint,
) -> (r: bool)
    ensures
        r == lane_link_direction_ok(
            to_lane_id,
            to_lane_direction,
            from_lane_id,
            from_lane_direction,
            predecessor_road_linkage,
            successor_road_linkage,
            connection_contact_point,
            lht_to_rht_rules().0,
            lht_to_rht_rules().1,
        ),
{
    if to_lane_direction == LaneDirection::Both && from_lane_direction == LaneDirection::Both {
        return true;
    }
    let to_id = directed_lane_id(to_lane_id, to_lane_direction);
    let from_id = directed_lane_id(from_lane_id, from_lane_direction);
    if connection_contact_point == ContactPoint::Start {
        side_valid(to_id, from_id, from_lane_direction, predecessor_road_linkage, true, false, true, true, true)
    } else {
        side_valid(to_id, from_id, from_lane_direction, successor_road_linkage, false, false, false, true, false)
    }
}

/// Lane link direction from a right-hand incoming road into a left-hand
/// connecting road.
pub fn is_rht_to_lht_lane_direction_valid(
    to_lane_id: i64,
    to_lane_direction: LaneDirection,
    from_lane_id: i64,
    from_lane_direction: LaneDirection,
    predecessor_road_linkage: Option<RoadLinkage>,
    successor_road_linkage: Option<RoadLinkage>,
    connection_contact_point: ContactPoint,
) -> (r: bool)
    ensures
        r == lane_link_direction_ok(
            to_lane_id,
            to_lane_direction,
            from_lane_id,
            from_lane_direction,
            predecessor_road_linkage,
            successor_road_linkage,
            connection_contact_point,
            rht_to_lht_rules().0,
            rht_to_lht_rules().1,
        ),
{
    if to_lane_direction == LaneDirection::Both && from_lane_direction == LaneDirection::Both {
        return true;
    }
    let to_id = directed_lane_id(to_lane_id, to_lane_direction);
    let from_id = directed_lane_id(from_lane_id, from_lane_direction);
    if connection_contact_point == ContactPoint::Start {
        side_valid(to_id, from_id, from_lane_direction, predecessor_road_linkage, false, true, false, false, false)
    } else {
        side_valid(to_id, from_id, from_lane_direction, successor_road_linkage, true, true, true, false, true)
    }
}


/// The rules for a connecting road and an incoming road of the given
/// traffic rules.
pub open spec fn rules_for(connecting: TrafficHandRule, incoming: TrafficHandRule) -> (SideRule, SideRule) {
    match (connecting, incoming) {
        (TrafficHandRule::RHT, TrafficHandRule::RHT) => rht_rules(),
        (TrafficHandRule::RHT, TrafficHandRule::LHT) => lht_to_rht_rules(),
        (TrafficHandRule::LHT, TrafficHandRule::LHT) => lht_rules(),
        (TrafficHandRule::LHT, TrafficHandRule::RHT) => rht_to_lht_rules(),
    }
}

/// What a lane link of a connection is checked against: the connecting road
/// and incoming road, the lane sections where they touch, and the contact
/// point of the connection.
pub ghost struct LinkContext {
    pub connecting_road: usize,
    pub incoming_road: usize,
    pub incoming_section: usize,
    pub connection_section: usize,
    pub contact_point: ContactPoint,
}

pub open spec fn lane_link_desc() -> Seq<char> {
    "A connecting road shall only have the <laneLink> element for that direction."@
}

pub open spec fn lane_link_loc() -> Seq<char> {
    "Lane link in opposite direction."@
}

/// A lane link whose lanes run against each other.
pub open spec fn lane_link_findings(d: Seq<ElementView>, x: LinkContext, link: usize) -> Seq<FindingView> {
    match (int_attr(d, link as int, "from"@), int_attr(d, link as int, "to"@)) {
        (Some(from_id), Some(to_id)) => match (
            lane_in_section(d, x.incoming_section as int, from_id),
            lane_in_section(d, x.connection_section as int, to_id),
        ) {
            (Some(from_lane), Some(to_lane)) => match (lane_direction(d, from_lane as int), lane_direction(d, to_lane as int)) {
                (Some(from_dir), Some(to_dir)) => {
                    let rules = rules_for(
                        traffic_hand_rule(d, x.connecting_road as int),
                        traffic_hand_rule(d, x.incoming_road as int),
                    );
                    if lane_link_direction_ok(
                        to_id,
                        to_dir,
                        from_id,
                        from_dir,
                        road_linkage(d, x.connecting_road as int, LinkageTag::Predecessor),
                        road_linkage(d, x.connecting_road as int, LinkageTag::Successor),
                        x.contact_point,
                        rules.0,
                        rules.1,
                    ) {
                        Seq::empty()
                    } else {
                        seq![
                            error_finding(
                                lane_link_desc(),
                                seq![
                                    LocationRequest::Node(lane_link_loc(), link),
                                    LocationRequest::Point(
                                        lane_link_loc(),
                                        PointRequest::LaneMiddle(
                                            x.connecting_road,
                                            x.connection_section,
                                            to_lane,
                                            if x.contact_point == ContactPoint::Start {
                                                LanePosition::RoadStart
                                            } else {
                                                LanePosition::RoadEnd
                                            },
                                        ),
                                    ),
                                ],
                            ),
                        ]
                    }
                },
                _ => Seq::empty(),
            },
            _ => Seq::empty(),
        },
        _ => Seq::empty(),
    }
}

pub open spec fn lane_link_fn(d: Seq<ElementView>, x: LinkContext) -> spec_fn(usize) -> Seq<FindingView> {
    |link: usize| lane_link_findings(d, x, link)
}

/// The lane links of connection `c` whose lanes run against each other.
pub open spec fn connection_direction_findings(d: Seq<ElementView>, road_ids: Seq<(i64, usize)>, c: usize) -> Seq<FindingView> {
    match (
        connection_contact_point(d, c as int),
        int_attr(d, c as int, "incomingRoad"@),
        int_attr(d, c as int, "connectingRoad"@),
    ) {
        (Some(cp), Some(iid), Some(cid)) => match (map_get(road_ids, cid), map_get(road_ids, iid)) {
            (Some(croad), Some(iroad)) => match contacting_lane_sections(d, c as int, road_ids) {
                None => Seq::empty(),
                Some(cls) => concat_map(
                    children_with_tag(d, c as int, "laneLink"@),
                    lane_link_fn(
                        d,
                        LinkContext {
                            connecting_road: croad,
                            incoming_road: iroad,
                            incoming_section: cls.incoming,
                            connection_section: cls.connection,
                            contact_point: cp,
                        },
                    ),
                ),
            },
            _ => Seq::empty(),
        },
        _ => Seq::empty(),
    }
}

fn lane_link_finding(
    doc: &XmlDoc,
    croad: usize,
    iroad: usize,
    incoming_section: usize,
    connection_section: usize,
    cp: ContactPoint,
    link: usize,
) -> (r: Vec<Finding>)
    requires
        croad < doc@.len(),
        iroad < doc@.len(),
        incoming_section < doc@.len(),
        connection_section < doc@.len(),
        link < doc@.len(),
    ensures
        findings_view(r@) == lane_link_findings(
            doc@,
            LinkContext {
                connecting_road: croad,
                incoming_road: iroad,
                incoming_section,
                connection_section,
                contact_point: cp,
            },
            link,
        ),
        findings_in(doc@, findings_view(r@)),
{
    let mut r: Vec<Finding> = Vec::new();
    assert(findings_view(r@) =~= Seq::<FindingView>::empty());
    let from_id = match get_from_attribute_from_lane_link(doc, link) {
        Some(x) => x,
        None => return r,
    };
    let to_id = match get_to_attribute_from_lane_link(doc, link) {
        Some(x) => x,
        None => return r,
    };
    let from_lane = match get_lane_from_lane_section(doc, incoming_section, from_id) {
        Some(x) => x,
        None => return r,
    };
    let to_lane = match get_lane_from_lane_section(doc, connection_section, to_id) {
        Some(x) => x,
        None => return r,
    };
    let from_dir = match get_lane_direction(doc, from_lane) {
        Some(x) => x,
        None => return r,
    };
    let to_dir = match get_lane_direction(doc, to_lane) {
        Some(x) => x,
        None => return r,
    };
    let pred = get_road_linkage(doc, croad, LinkageTag::Predecessor);
    let succ = get_road_linkage(doc, croad, LinkageTag::Successor);
    let valid = match (get_traffic_hand_rule_from_road(doc, croad), get_traffic_hand_rule_from_road(doc, iroad)) {
        (TrafficHandRule::RHT, TrafficHandRule::RHT) => is_rht_lane_direction_valid(
            to_id, to_dir, from_id, from_dir, pred, succ, cp,
        ),
        (TrafficHandRule::RHT, TrafficHandRule::LHT) => is_lht_to_rht_lane_direction_valid(
            to_id, to_dir, from_id, from_dir, pred, succ, cp,
        ),
        (TrafficHandRule::LHT, TrafficHandRule::LHT) => is_lht_lane_direction_valid(
            to_id, to_dir, from_id, from_dir, pred, succ, cp,
        ),
        (TrafficHandRule::LHT, TrafficHandRule::RHT) => is_rht_to_lht_lane_direction_valid(
            to_id, to_dir, from_id, from_dir, pred, succ, cp,
        ),
    };
    if !valid {
        let at = if cp == ContactPoint::Start { LanePosition::RoadStart } else { LanePosition::RoadEnd };
        let mut locs: Vec<FindingLocation> = Vec::new();
        locs.push(FindingLocation::Node("Lane link in opposite direction.".to_owned(), link));
        locs.push(FindingLocation::Point(
            "Lane link in opposite direction.".to_owned(),
            PointRequest::LaneMiddle(croad, connection_section, to_lane, at),
        ));
        let f = Finding {
            description: "A connecting road shall only have the <laneLink> element for that direction.".to_owned(),
            level: IssueSeverity::Error,
            locations: locs,
        };
        let ghost expected = lane_link_findings(
            doc@,
            LinkContext {
                connecting_road: croad,
                incoming_road: iroad,
                incoming_section,
                connection_section,
                contact_point: cp,
            },
            link,
        );
        assert(f@.locations =~= expected[0].locations);
        push_finding(&mut r, f);
        assert(findings_view(r@) =~= expected);
    }
    r
}

/// The lane links of a junction connection whose lanes run against each
/// other.
pub fn check_connection_lane_link_same_direction(
    doc: &XmlDoc,
    road_id_map: &Vec<(i64, usize)>,
    connection: usize,
) -> (r: Vec<Finding>)
    requires
        connection < doc@.len(),
        entries_in(doc@, road_id_map@),
    ensures
        findings_view(r@) == connection_direction_findings(doc@, road_id_map@, connection),
        findings_in(doc@, findings_view(r@)),
{
    let mut r: Vec<Finding> = Vec::new();
    assert(findings_view(r@) =~= Seq::<FindingView>::empty());
    let cp = match get_contact_point_from_connection(doc, connection) {
        Some(x) => x,
        None => return r,
    };
    let iid = match get_incoming_road_id_from_connection(doc, connection) {
        Some(x) => x,
        None => return r,
    };
    let cid = match get_connecting_road_id_from_connection(doc, connection) {
        Some(x) => x,
        None => return r,
    };
    proof {
        lemma_map_get_in(doc@, road_id_map@, cid);
        lemma_map_get_in(doc@, road_id_map@, iid);
    }
    let croad = match map_lookup(road_id_map, cid) {
        Some(x) => x,
        None => return r,
    };
    let iroad = match map_lookup(road_id_map, iid) {
        Some(x) => x,
        None => return r,
    };
    let cls = match get_incoming_and_connection_contacting_lane_sections(doc, connection, road_id_map) {
        Some(x) => x,
        None => return r,
    };
    let links = get_lane_links_from_connection(doc, connection);
    let ghost x = LinkContext {
        connecting_road: croad,
        incoming_road: iroad,
        incoming_section: cls.incoming,
        connection_section: cls.connection,
        contact_point: cp,
    };
    let ghost f = lane_link_fn(doc@, x);
    let n = links.len();
    let mut i: usize = 0;
    assert(findings_view(r@) =~= concat_map(links@.take(0), f));
    while i < n
        invariant
            i <= n,
            n == links@.len(),
            croad < doc@.len(),
            iroad < doc@.len(),
            cls.incoming < doc@.len(),
            cls.connection < doc@.len(),
            forall|k: int| 0 <= k < links@.len() ==> #[trigger] links@[k] < doc@.len(),
            x == (LinkContext {
                connecting_road: croad,
                incoming_road: iroad,
                incoming_section: cls.incoming,
                connection_section: cls.connection,
                contact_point: cp,
            }),
            f == lane_link_fn(doc@, x),
            findings_view(r@) == concat_map(links@.take(i as int), f),
            findings_in(doc@, findings_view(r@)),
        decreases n - i,
    {
        assert(links@.take(i + 1).drop_last() =~= links@.take(i as int));
        let w = lane_link_finding(doc, croad, iroad, cls.incoming, cls.connection, cp, links[i]);
        let ghost r0 = findings_view(r@);
        assert(concat_map(links@.take(i + 1), f) == concat_map(links@.take(i as int), f) + f(links@[i as int]));
        append_findings(&mut r, w);
        proof {
            lemma_findings_in_concat(doc@, r0, findings_view(w@));
        }
        i = i + 1;
    }
    assert(links@.take(n as int) =~= links@);
    r
}


// ---------------------------------------------------------------------------
// Grouping connections by a key
// ---------------------------------------------------------------------------

/// The keys of the elements of `s`, each once, in order of first appearance
/// (elements without a key are left out).
pub open spec fn group_keys<E, K>(s: Seq<E>, key: spec_fn(E) -> Option<K>) -> Seq<K>
    decreases s.len(),
{
    if s.len() == 0 {
        Seq::empty()
    } else {
        let prev = group_keys(s.drop_last(), key);
        match key(s.last()) {
            Some(k) => if prev.contains(k) { prev } else { prev.push(k) },
            None => prev,
        }
    }
}

/// The elements of `s` with key `k`, in order.
pub open spec fn group_members<E, K>(s: Seq<E>, key: spec_fn(E) -> Option<K>, k: K) -> Seq<E>
    decreases s.len(),
{
    if s.len() == 0 {
        Seq::empty()
    } else {
        let prev = group_members(s.drop_last(), key, k);
        if key(s.last()) == Some(k) { prev.push(s.last()) } else { prev }
    }
}

pub proof fn lemma_group_members_in<K>(s: Seq<usize>, key: spec_fn(usize) -> Option<K>, k: K, bound: nat)
    requires
        forall|i: int| 0 <= i < s.len() ==> #[trigger] s[i] < bound,
    ensures
        forall|i: int| 0 <= i < group_members(s, key, k).len() ==> #[trigger] group_members(s, key, k)[i] < bound,
    decreases s.len(),
{
    if s.len() > 0 {
        let prev = group_members(s.drop_last(), key, k);
        lemma_group_members_in(s.drop_last(), key, k, bound);
        assert(s.last() == s[s.len() - 1]);
        if key(s.last()) == Some(k) {
            assert forall|i: int| 0 <= i < prev.push(s.last()).len() implies #[trigger] prev.push(s.last())[i] < bound by {
                if i < prev.len() {
                    assert(prev.push(s.last())[i] == prev[i]);
                }
            }
        }
    }
}

/// The connecting road id of a connection, as grouping key.
pub open spec fn connecting_road_key(d: Seq<ElementView>) -> spec_fn(usize) -> Option<i64> {
    |c: usize| int_attr(d, c as int, "connectingRoad"@)
}

/// The pair (incoming road id, connecting road id) of a connection, as
/// grouping key.
pub open spec fn road_pair_key(d: Seq<ElementView>) -> spec_fn(usize) -> Option<(i64, i64)> {
    |c: usize|
        match (int_attr(d, c as int, "incomingRoad"@), int_attr(d, c as int, "connectingRoad"@)) {
            (Some(i), Some(k)) => Some((i, k)),
            _ => None,
        }
}

fn connecting_road_key_of(doc: &XmlDoc, c: usize) -> (r: Option<i64>)
    requires
        c < doc@.len(),
    ensures
        r == connecting_road_key(doc@)(c),
{
    get_connecting_road_id_from_connection(doc, c)
}

fn road_pair_key_of(doc: &XmlDoc, c: usize) -> (r: Option<(i64, i64)>)
    requires
        c < doc@.len(),
    ensures
        r == road_pair_key(doc@)(c),
{
    match (get_incoming_road_id_from_connection(doc, c), get_connecting_road_id_from_connection(doc, c)) {
        (Some(i), Some(k)) => Some((i, k)),
        _ => None,
    }
}

/// The connections of all junctions, in document order.
pub open spec fn all_connections(d: Seq<ElementView>) -> Seq<usize> {
    junction_connections(d).map_values(|p: (usize, usize)| p.1)
}

fn get_all_connections(doc: &XmlDoc) -> (r: Vec<usize>)
    ensures
        r@ == all_connections(doc@),
        forall|k: int| 0 <= k < r@.len() ==> #[trigger] r@[k] < doc@.len(),
{
    let pairs = get_junction_connections(doc);
    let mut r: Vec<usize> = Vec::new();
    let n = pairs.len();
    let mut i: usize = 0;
    while i < n
        invariant
            i <= n,
            n == pairs@.len(),
            forall|k: int| 0 <= k < pairs@.len() ==> (#[trigger] pairs@[k]).0 < doc@.len() && pairs@[k].1 < doc@.len(),
            r@ == pairs@.take(i as int).map_values(|p: (usize, usize)| p.1),
            forall|k: int| 0 <= k < r@.len() ==> #[trigger] r@[k] < doc@.len(),
        decreases n - i,
    {
        assert(pairs@.take(i + 1).map_values(|p: (usize, usize)| p.1) =~= pairs@.take(i as int).map_values(
            |p: (usize, usize)| p.1,
        ).push(pairs@[i as int].1));
        r.push(pairs[i].1);
        i = i + 1;
    }
    assert(pairs@.take(n as int) =~= pairs@);
    r
}

fn connecting_road_keys(doc: &XmlDoc, cs: &Vec<usize>) -> (r: Vec<i64>)
    requires
        forall|k: int| 0 <= k < cs@.len() ==> #[trigger] cs@[k] < doc@.len(),
    ensures
        r@ == group_keys(cs@, connecting_road_key(doc@)),
{
    let mut r: Vec<i64> = Vec::new();
    let n = cs.len();
    let mut i: usize = 0;
    while i < n
        invariant
            i <= n,
            n == cs@.len(),
            forall|k: int| 0 <= k < cs@.len() ==> #[trigger] cs@[k] < doc@.len(),
            r@ == group_keys(cs@.take(i as int), connecting_road_key(doc@)),
        decreases n - i,
    {
        assert(cs@.take(i + 1).drop_last() =~= cs@.take(i as int));
        match connecting_road_key_of(doc, cs[i]) {
            Some(k) => {
                let mut found = false;
                let mut g: usize = 0;
                while g < r.len()
                    invariant
                        g <= r@.len(),
                        found == (exists|q: int| 0 <= q < g && r@[q] == k),
                    decreases r@.len() - g,
                {
                    if r[g] == k {
                        found = true;
                        assert(r@[g as int] == k);
                    }
                    g = g + 1;
                }
                if !found {
                    r.push(k);
                }
            },
            None => {},
        }
        i = i + 1;
    }
    assert(cs@.take(n as int) =~= cs@);
    r
}

fn road_pair_keys(doc: &XmlDoc, cs: &Vec<usize>) -> (r: Vec<(i64, i64)>)
    requires
        forall|k: int| 0 <= k < cs@.len() ==> #[trigger] cs@[k] < doc@.len(),
    ensures
        r@ == group_keys(cs@, road_pair_key(doc@)),
{
    let mut r: Vec<(i64, i64)> = Vec::new();
    let n = cs.len();
    let mut i: usize = 0;
    while i < n
        invariant
            i <= n,
            n == cs@.len(),
            forall|k: int| 0 <= k < cs@.len() ==> #[trigger] cs@[k] < doc@.len(),
            r@ == group_keys(cs@.take(i as int), road_pair_key(doc@)),
        decreases n - i,
    {
        assert(cs@.take(i + 1).drop_last() =~= cs@.take(i as int));
        match road_pair_key_of(doc, cs[i]) {
            Some(k) => {
                let mut found = false;
                let mut g: usize = 0;
                while g < r.len()
                    invariant
                        g <= r@.len(),
                        found == (exists|q: int| 0 <= q < g && r@[q] == k),
                    decreases r@.len() - g,
                {
                    if r[g].0 == k.0 && r[g].1 == k.1 {
                        found = true;
                        assert(r@[g as int] == k);
                    }
                    g = g + 1;
                }
                if !found {
                    r.push(k);
                }
            },
            None => {},
        }
        i = i + 1;
    }
    assert(cs@.take(n as int) =~= cs@);
    r
}

fn connecting_road_members(doc: &XmlDoc, cs: &Vec<usize>, k: i64) -> (r: Vec<usize>)
    requires
        forall|q: int| 0 <= q < cs@.len() ==> #[trigger] cs@[q] < doc@.len(),
    ensures
        r@ == group_members(cs@, connecting_road_key(doc@), k),
{
    let mut r: Vec<usize> = Vec::new();
    let n = cs.len();
    let mut i: usize = 0;
    while i < n
        invariant
            i <= n,
            n == cs@.len(),
            forall|q: int| 0 <= q < cs@.len() ==> #[trigger] cs@[q] < doc@.len(),
            r@ == group_members(cs@.take(i as int), connecting_road_key(doc@), k),
        decreases n - i,
    {
        assert(cs@.take(i + 1).drop_last() =~= cs@.take(i as int));
        if connecting_road_key_of(doc, cs[i]) == Some(k) {
            r.push(cs[i]);
        }
        i = i + 1;
    }
    assert(cs@.take(n as int) =~= cs@);
    r
}

fn road_pair_members(doc: &XmlDoc, cs: &Vec<usize>, k: (i64, i64)) -> (r: Vec<usize>)
    requires
        forall|q: int| 0 <= q < cs@.len() ==> #[trigger] cs@[q] < doc@.len(),
    ensures
        r@ == group_members(cs@, road_pair_key(doc@), k),
{
    let mut r: Vec<usize> = Vec::new();
    let n = cs.len();
    let mut i: usize = 0;
    while i < n
        invariant
            i <= n,
            n == cs@.len(),
            forall|q: int| 0 <= q < cs@.len() ==> #[trigger] cs@[q] < doc@.len(),
            r@ == group_members(cs@.take(i as int), road_pair_key(doc@), k),
        decreases n - i,
    {
        assert(cs@.take(i + 1).drop_last() =~= cs@.take(i as int));
        let same = match road_pair_key_of(doc, cs[i]) {
            Some(p) => p.0 == k.0 && p.1 == k.1,
            None => false,
        };
        if same {
            r.push(cs[i]);
        }
        i = i + 1;
    }
    assert(cs@.take(n as int) =~= cs@);
    r
}


/// Node locations at each of `ms`, all with description `desc`.
pub open spec fn node_locations(ms: Seq<usize>, desc: Seq<char>) -> Seq<LocationRequest> {
    ms.map_values(|c: usize| LocationRequest::Node(desc, c))
}

/// The node locations of `ms` as locations of a finding, with whether some
/// of them has contact point `start` and whether some has `end`.
fn member_locations(doc: &XmlDoc, ms: &Vec<usize>, desc: &str) -> (r: (Vec<FindingLocation>, bool, bool))
    requires
        forall|q: int| 0 <= q < ms@.len() ==> #[trigger] ms@[q] < doc@.len(),
    ensures
        r.0@.map_values(|l: FindingLocation| l@) == node_locations(ms@, desc@),
        r.1 == (exists|q: int| 0 <= q < ms@.len() && connection_contact_point(doc@, #[trigger] ms@[q] as int) == Some(ContactPoint::Start)),
        r.2 == (exists|q: int| 0 <= q < ms@.len() && connection_contact_point(doc@, #[trigger] ms@[q] as int) == Some(ContactPoint::End)),
{
    let mut locs: Vec<FindingLocation> = Vec::new();
    let mut has_start = false;
    let mut has_end = false;
    let n = ms.len();
    let mut j: usize = 0;
    while j < n
        invariant
            j <= n,
            n == ms@.len(),
            forall|q: int| 0 <= q < ms@.len() ==> #[trigger] ms@[q] < doc@.len(),
            locs@.map_values(|l: FindingLocation| l@) == node_locations(ms@.take(j as int), desc@),
            has_start == (exists|q: int| 0 <= q < j && connection_contact_point(doc@, #[trigger] ms@[q] as int) == Some(ContactPoint::Start)),
            has_end == (exists|q: int| 0 <= q < j && connection_contact_point(doc@, #[trigger] ms@[q] as int) == Some(ContactPoint::End)),
        decreases n - j,
    {
        let ghost v0 = locs@.map_values(|l: FindingLocation| l@);
        locs.push(FindingLocation::Node(desc.to_owned(), ms[j]));
        assert(locs@.map_values(|l: FindingLocation| l@) =~= v0.push(LocationRequest::Node(desc@, ms@[j as int])));
        assert(ms@.take(j + 1) =~= ms@.take(j as int).push(ms@[j as int]));
        assert(node_locations(ms@.take(j + 1), desc@) =~= node_locations(ms@.take(j as int), desc@).push(
            LocationRequest::Node(desc@, ms@[j as int]),
        ));
        match get_contact_point_from_connection(doc, ms[j]) {
            Some(ContactPoint::Start) => {
                has_start = true;
            },
            Some(ContactPoint::End) => {
                has_end = true;
            },
            None => {},
        }
        j = j + 1;
    }
    assert(ms@.take(n as int) =~= ms@);
    (locs, has_start, has_end)
}

// ---------------------------------------------------------------------------
// junctions.connection.one_connection_element
// ---------------------------------------------------------------------------

/// A connecting road used by more than one connection.
pub open spec fn reused_road_findings(d: Seq<ElementView>, road_ids: Seq<(i64, usize)>, cs: Seq<usize>, k: i64) -> Seq<FindingView> {
    let ms = group_members(cs, connecting_road_key(d), k);
    if ms.len() > 1 {
        seq![
            error_finding(
                "Connecting road "@ + dec_int(k as int) + " shall be represented by only one <connection> element."@,
                node_locations(ms, "Connection with reused connecting road id."@) + match map_get(road_ids, k) {
                    Some(road) => seq![LocationRequest::Point("Connecting road being reused."@, PointRequest::RoadMiddle(road))],
                    None => Seq::empty(),
                },
            ),
        ]
    } else {
        Seq::empty()
    }
}

pub open spec fn reused_road_fn(d: Seq<ElementView>, road_ids: Seq<(i64, usize)>, cs: Seq<usize>) -> spec_fn(i64) -> Seq<FindingView> {
    |k: i64| reused_road_findings(d, road_ids, cs, k)
}

/// Connecting roads that more than one connection names, in order of first
/// use.
pub fn check_junctions_connection_one_connection_element(doc: &XmlDoc) -> (r: Vec<Finding>)
    ensures
        findings_view(r@) == concat_map(
            group_keys(all_connections(doc@), connecting_road_key(doc@)),
            reused_road_fn(doc@, id_entries(doc@, roads(doc@)), all_connections(doc@)),
        ),
        findings_in(doc@, findings_view(r@)),
{
    let road_id_map = get_road_id_map(doc);
    let cs = get_all_connections(doc);
    let keys = connecting_road_keys(doc, &cs);
    let ghost f = reused_road_fn(doc@, road_id_map@, cs@);
    let mut r: Vec<Finding> = Vec::new();
    let n = keys.len();
    let mut i: usize = 0;
    assert(findings_view(r@) =~= concat_map(keys@.take(0), f));
    while i < n
        invariant
            i <= n,
            n == keys@.len(),
            forall|q: int| 0 <= q < cs@.len() ==> #[trigger] cs@[q] < doc@.len(),
            f == reused_road_fn(doc@, road_id_map@, cs@),
            findings_view(r@) == concat_map(keys@.take(i as int), f),
            findings_in(doc@, findings_view(r@)),
        decreases n - i,
    {
        assert(keys@.take(i + 1).drop_last() =~= keys@.take(i as int));
        let k = keys[i];
        let ms = connecting_road_members(doc, &cs, k);
        proof {
            lemma_group_members_in(cs@, connecting_road_key(doc@), k, doc@.len());
        }
        let ghost r0 = findings_view(r@);
        if ms.len() > 1 {
            let (mut locs, _, _) = member_locations(doc, &ms, "Connection with reused connecting road id.");
            let ghost l0 = locs@;
            match map_lookup(&road_id_map, k) {
                Some(road) => {
                    locs.push(FindingLocation::Point("Connecting road being reused.".to_owned(), PointRequest::RoadMiddle(road)));
                },
                None => {},
            }
            let mut desc = "Connecting road ".to_owned();
            crate::text::push_dec_i64(&mut desc, k);
            desc.append(" shall be represented by only one <connection> element.");
            let fd = Finding { description: desc, level: IssueSeverity::Error, locations: locs };
            assert(fd@ =~= f(k)[0]) by {
                assert(locs@.map_values(|l: FindingLocation| l@) =~= f(k)[0].locations);
            }
            push_finding(&mut r, fd);
            assert(findings_view(r@) =~= r0 + f(k));
            assert(findings_in(doc@, f(k))) by {
                assert forall|a: int, b: int| 0 <= a < f(k).len() && 0 <= b < f(k)[a].locations.len() implies
                    crate::opendrive::checks::findings::location_in(doc@, #[trigger] f(k)[a].locations[b]) by {
                    if b < ms@.len() {
                        assert(f(k)[a].locations[b] == LocationRequest::Node("Connection with reused connecting road id."@, ms@[b]));
                    }
                }
            }
            proof {
                lemma_findings_in_concat(doc@, r0, f(k));
            }
        } else {
            assert(f(k) =~= Seq::<FindingView>::empty());
            assert(r0 + f(k) =~= r0);
        }
        assert(concat_map(keys@.take(i + 1), f) == concat_map(keys@.take(i as int), f) + f(keys@[i as int]));
        i = i + 1;
    }
    assert(keys@.take(n as int) =~= keys@);
    r
}


// ---------------------------------------------------------------------------
// junctions.connection.one_link_to_incoming
// ---------------------------------------------------------------------------

pub open spec fn multiple_connections_loc() -> Seq<char> {
    "Multiple connection elements to the same incoming road."@
}

/// The points of a connecting road used twice with the same incoming road:
/// its start if some of the connections enters it there, its end if some
/// enters it there.
pub open spec fn reused_pair_points(d: Seq<ElementView>, road_ids: Seq<(i64, usize)>, ms: Seq<usize>, cid: i64) -> Seq<LocationRequest> {
    match map_get(road_ids, cid) {
        None => Seq::empty(),
        Some(road) => (if exists|q: int| 0 <= q < ms.len() && connection_contact_point(d, #[trigger] ms[q] as int) == Some(ContactPoint::Start) {
            seq![LocationRequest::Point(multiple_connections_loc(), PointRequest::RoadStart(road))]
        } else {
            Seq::empty()
        }) + (if exists|q: int| 0 <= q < ms.len() && connection_contact_point(d, #[trigger] ms[q] as int) == Some(ContactPoint::End) {
            seq![LocationRequest::Point(multiple_connections_loc(), PointRequest::RoadEnd(road))]
        } else {
            Seq::empty()
        }),
    }
}

/// A pair (incoming road, connecting road) named by more than one
/// connection.
pub open spec fn reused_pair_findings(d: Seq<ElementView>, road_ids: Seq<(i64, usize)>, cs: Seq<usize>, k: (i64, i64)) -> Seq<FindingView> {
    let ms = group_members(cs, road_pair_key(d), k);
    if ms.len() > 1 {
        seq![
            error_finding(
                "Connecting road "@ + dec_int(k.1 as int)
                    + " shall be represented by at most one <connection> element per incoming road id."@,
                node_locations(
                    ms,
                    "Connection with reused (incoming_road_id, connecting_road_id) = ("@ + dec_int(k.0 as int) + ", "@
                        + dec_int(k.1 as int) + ") pair."@,
                ) + reused_pair_points(d, road_ids, ms, k.1),
            ),
        ]
    } else {
        Seq::empty()
    }
}

pub open spec fn reused_pair_fn(d: Seq<ElementView>, road_ids: Seq<(i64, usize)>, cs: Seq<usize>) -> spec_fn((i64, i64)) -> Seq<FindingView> {
    |k: (i64, i64)| reused_pair_findings(d, road_ids, cs, k)
}

pub open spec fn direction_check_fn(d: Seq<ElementView>, road_ids: Seq<(i64, usize)>) -> spec_fn((usize, usize)) -> Seq<FindingView> {
    |p: (usize, usize)| connection_direction_findings(d, road_ids, p.1)
}

fn reused_pair_finding(
    doc: &XmlDoc,
    road_id_map: &Vec<(i64, usize)>,
    cs: &Vec<usize>,
    k: (i64, i64),
) -> (r: Vec<Finding>)
    requires
        entries_in(doc@, road_id_map@),
        forall|q: int| 0 <= q < cs@.len() ==> #[trigger] cs@[q] < doc@.len(),
    ensures
        findings_view(r@) == reused_pair_findings(doc@, road_id_map@, cs@, k),
        findings_in(doc@, findings_view(r@)),
{
    let mut r: Vec<Finding> = Vec::new();
    let ms = road_pair_members(doc, cs, k);
    proof {
        lemma_group_members_in(cs@, road_pair_key(doc@), k, doc@.len());
    }
    let ghost expected = reused_pair_findings(doc@, road_id_map@, cs@, k);
    if ms.len() <= 1 {
        assert(findings_view(r@) =~= expected);
        return r;
    }
    let mut node_desc = "Connection with reused (incoming_road_id, connecting_road_id) = (".to_owned();
    crate::text::push_dec_i64(&mut node_desc, k.0);
    node_desc.append(", ");
    crate::text::push_dec_i64(&mut node_desc, k.1);
    node_desc.append(") pair.");
    let (mut locs, has_start, has_end) = member_locations(doc, &ms, node_desc.as_str());
    let ghost v0 = locs@.map_values(|l: FindingLocation| l@);
    match map_lookup(road_id_map, k.1) {
        Some(road) => {
            if has_start {
                locs.push(FindingLocation::Point(
                    "Multiple connection elements to the same incoming road.".to_owned(),
                    PointRequest::RoadStart(road),
                ));
            }
            let ghost v1 = locs@.map_values(|l: FindingLocation| l@);
            if has_end {
                locs.push(FindingLocation::Point(
                    "Multiple connection elements to the same incoming road.".to_owned(),
                    PointRequest::RoadEnd(road),
                ));
            }
            assert(locs@.map_values(|l: FindingLocation| l@) =~= v0 + reused_pair_points(doc@, road_id_map@, ms@, k.1));
        },
        None => {
            assert(locs@.map_values(|l: FindingLocation| l@) =~= v0 + reused_pair_points(doc@, road_id_map@, ms@, k.1));
        },
    }
    let mut desc = "Connecting road ".to_owned();
    crate::text::push_dec_i64(&mut desc, k.1);
    desc.append(" shall be represented by at most one <connection> element per incoming road id.");
    let fd = Finding { description: desc, level: IssueSeverity::Error, locations: locs };
    assert(fd@ =~= expected[0]) by {
        assert(locs@.map_values(|l: FindingLocation| l@) =~= expected[0].locations);
    }
    push_finding(&mut r, fd);
    assert(findings_view(r@) =~= expected);
    assert forall|a: int, b: int| 0 <= a < expected.len() && 0 <= b < expected[a].locations.len() implies
        crate::opendrive::checks::findings::location_in(doc@, #[trigger] expected[a].locations[b]) by {
        if b < ms@.len() {
            assert(expected[a].locations[b] == LocationRequest::Node(node_desc@, ms@[b]));
        }
    }
    r
}

/// Connections whose lane links run against the traffic direction (in
/// document order), then the (incoming road, connecting road) pairs that more
/// than one connection names, in order of first use.
pub fn check_junctions_connection_one_link_to_incoming(doc: &XmlDoc) -> (r: Vec<Finding>)
    ensures
        findings_view(r@) == concat_map(junction_connections(doc@), direction_check_fn(doc@, id_entries(doc@, roads(doc@))))
            + concat_map(
            group_keys(all_connections(doc@), road_pair_key(doc@)),
            reused_pair_fn(doc@, id_entries(doc@, roads(doc@)), all_connections(doc@)),
        ),
        findings_in(doc@, findings_view(r@)),
{
    let road_id_map = get_road_id_map(doc);
    let pairs = get_junction_connections(doc);
    let ghost f = direction_check_fn(doc@, road_id_map@);
    let mut r: Vec<Finding> = Vec::new();
    let n = pairs.len();
    let mut i: usize = 0;
    assert(findings_view(r@) =~= concat_map(pairs@.take(0), f));
    while i < n
        invariant
            i <= n,
            n == pairs@.len(),
            entries_in(doc@, road_id_map@),
            forall|k: int| 0 <= k < pairs@.len() ==> (#[trigger] pairs@[k]).0 < doc@.len() && pairs@[k].1 < doc@.len(),
            f == direction_check_fn(doc@, road_id_map@),
            findings_view(r@) == concat_map(pairs@.take(i as int), f),
            findings_in(doc@, findings_view(r@)),
        decreases n - i,
    {
        assert(pairs@.take(i + 1).drop_last() =~= pairs@.take(i as int));
        let (_, c) = pairs[i];
        let w = check_connection_lane_link_same_direction(doc, &road_id_map, c);
        let ghost r0 = findings_view(r@);
        assert(concat_map(pairs@.take(i + 1), f) == concat_map(pairs@.take(i as int), f) + f(pairs@[i as int]));
        append_findings(&mut r, w);
        proof {
            lemma_findings_in_concat(doc@, r0, findings_view(w@));
        }
        i = i + 1;
    }
    assert(pairs@.take(n as int) =~= pairs@);
    let ghost first = findings_view(r@);
    let cs = get_all_connections(doc);
    assert(cs@ == all_connections(doc@));
    let keys = road_pair_keys(doc, &cs);
    let ghost g = reused_pair_fn(doc@, road_id_map@, cs@);
    let m = keys.len();
    let mut j: usize = 0;
    assert(first + concat_map(keys@.take(0), g) =~= first);
    while j < m
        invariant
            j <= m,
            m == keys@.len(),
            entries_in(doc@, road_id_map@),
            forall|q: int| 0 <= q < cs@.len() ==> #[trigger] cs@[q] < doc@.len(),
            g == reused_pair_fn(doc@, road_id_map@, cs@),
            findings_view(r@) == first + concat_map(keys@.take(j as int), g),
            findings_in(doc@, findings_view(r@)),
        decreases m - j,
    {
        assert(keys@.take(j + 1).drop_last() =~= keys@.take(j as int));
        let w = reused_pair_finding(doc, &road_id_map, &cs, keys[j]);
        let ghost r0 = findings_view(r@);
        assert(concat_map(keys@.take(j + 1), g) == concat_map(keys@.take(j as int), g) + g(keys@[j as int]));
        append_findings(&mut r, w);
        proof {
            lemma_findings_in_concat(doc@, r0, findings_view(w@));
        }
        assert(findings_view(r@) =~= first + concat_map(keys@.take(j + 1), g));
        j = j + 1;
    }
    assert(keys@.take(m as int) =~= keys@);
    r
}


// ---------------------------------------------------------------------------
// road.linkage.is_junction_needed
// ---------------------------------------------------------------------------

/// The id of a contact point: the linked road's id and the contact point,
/// e.g. `5-end`.
pub open spec fn contact_point_id(linkage: RoadLinkage) -> Seq<char> {
    dec_int(linkage.id as int) + "-"@ + linkage.contact_point.spec_value()
}

/// The id of the contact point a linkage reaches, e.g. `5-end`.
pub fn create_contact_point_id(linkage: &RoadLinkage) -> (r: String)
    ensures
        r@ == contact_point_id(*linkage),
{
    let mut s = String::new();
    crate::text::push_dec_i64(&mut s, linkage.id);
    s.append("-");
    s.append(linkage.contact_point.value());
    assert(s@ =~= contact_point_id(*linkage));
    s
}

/// The linkage read back from a contact point id: the number before the
/// first `-` (0 when it is none), and `end` when the part after it is `end`,
/// else `start`.
pub open spec fn linkage_of_contact_point_id(cid: Seq<char>) -> RoadLinkage {
    let d1 = find_from(cid, '-', 0);
    let first = cid.subrange(0, d1);
    let second = if d1 < cid.len() { cid.subrange(d1 + 1, find_from(cid, '-', d1 + 1)) } else { Seq::empty() };
    RoadLinkage {
        id: match parse_i64_spec(first) {
            Some(v) => v,
            None => 0,
        },
        contact_point: if second == "end"@ { ContactPoint::End } else { ContactPoint::Start },
    }
}

fn read_contact_point_id(cid: &str) -> (r: RoadLinkage)
    ensures
        r == linkage_of_contact_point_id(cid@),
{
    let v = chars_of(cid);
    let n = v.len();
    proof {
        lemma_find_from(v@, '-', 0);
    }
    let d1 = find_char_from(&v, '-', 0);
    let first = copy_range(&v, 0, d1);
    let id = match parse_i64(&first) {
        Some(x) => x,
        None => 0,
    };
    let is_end = if d1 < n {
        proof {
            lemma_find_from(v@, '-', d1 + 1);
        }
        let d2 = find_char_from(&v, '-', d1 + 1);
        let second = cid.substring_char(d1 + 1, d2);
        let e = str_eq(second, "end");
        assert(second@ == cid@.subrange(d1 + 1, find_from(cid@, '-', d1 + 1)));
        assert(e == (linkage_of_contact_point_id(cid@).contact_point == ContactPoint::End));
        e
    } else {
        proof {
            reveal_strlit("end");
        }
        assert(Seq::<char>::empty() != "end"@) by {
            assert("end"@.len() == 3);
        }
        false
    };
    assert(first@ == cid@.subrange(0, find_from(cid@, '-', 0)));
    assert(id == linkage_of_contact_point_id(cid@).id);
    assert(is_end == (linkage_of_contact_point_id(cid@).contact_point == ContactPoint::End));
    RoadLinkage { id: id, contact_point: if is_end { ContactPoint::End } else { ContactPoint::Start } }
}

/// Whether `road` is the road the road id map holds for its id (the last
/// road with that id).
pub open spec fn is_map_road(d: Seq<ElementView>, road_ids: Seq<(i64, usize)>, road: usize) -> bool {
    match int_attr(d, road as int, "id"@) {
        Some(k) => map_get(road_ids, k) == Some(road),
        None => false,
    }
}

/// The roads of the road id map, in document order.
pub open spec fn map_roads(d: Seq<ElementView>, road_ids: Seq<(i64, usize)>, rs: Seq<usize>) -> Seq<usize>
    decreases rs.len(),
{
    if rs.len() == 0 {
        Seq::empty()
    } else {
        let prev = map_roads(d, road_ids, rs.drop_last());
        if is_map_road(d, road_ids, rs.last()) { prev.push(rs.last()) } else { prev }
    }
}

/// The contact point id and the link element of a road's link under `tag`.
pub open spec fn side_contact(d: Seq<ElementView>, road: usize, tag: LinkageTag) -> Seq<(Seq<char>, usize)> {
    match road_linkage(d, road as int, tag) {
        None => Seq::empty(),
        Some(l) => match road_link_element(d, road as int, l.id, tag) {
            Some(el) => seq![(contact_point_id(l), el)],
            None => Seq::empty(),
        },
    }
}

/// The contact points reached by the links of roads outside junctions.
pub open spec fn contact_entries(d: Seq<ElementView>, rs: Seq<usize>) -> Seq<(Seq<char>, usize)>
    decreases rs.len(),
{
    if rs.len() == 0 {
        Seq::empty()
    } else {
        let r = rs.last();
        contact_entries(d, rs.drop_last()) + if belongs_to_junction(d, r as int) {
            Seq::empty()
        } else {
            side_contact(d, r, LinkageTag::Predecessor) + side_contact(d, r, LinkageTag::Successor)
        }
    }
}

pub open spec fn contact_key() -> spec_fn((Seq<char>, usize)) -> Option<Seq<char>> {
    |e: (Seq<char>, usize)| Some(e.0)
}

/// A contact point that more than one road link reaches.
pub open spec fn ambiguous_contact_findings(
    d: Seq<ElementView>,
    road_ids: Seq<(i64, usize)>,
    es: Seq<(Seq<char>, usize)>,
    cid: Seq<char>,
) -> Seq<FindingView> {
    let ms = group_members(es, contact_key(), cid);
    if ms.len() > 1 {
        let l = linkage_of_contact_point_id(cid);
        let tag = if l.contact_point == ContactPoint::End { LinkageTag::Successor } else { LinkageTag::Predecessor };
        let desc = "Road cannot have ambiguous "@ + tag.spec_value() + " a junction is needed."@;
        seq![
            error_finding(
                desc,
                node_locations(ms.map_values(|e: (Seq<char>, usize)| e.1), desc) + match map_get(road_ids, l.id) {
                    Some(pr) => seq![
                        LocationRequest::Point(
                            "Point where the linkage is not clear."@,
                            if tag == LinkageTag::Predecessor { PointRequest::RoadStart(pr) } else { PointRequest::RoadEnd(pr) },
                        ),
                    ],
                    None => Seq::empty(),
                },
            ),
        ]
    } else {
        Seq::empty()
    }
}

pub open spec fn ambiguous_contact_fn(
    d: Seq<ElementView>,
    road_ids: Seq<(i64, usize)>,
    es: Seq<(Seq<char>, usize)>,
) -> spec_fn(Seq<char>) -> Seq<FindingView> {
    |cid: Seq<char>| ambiguous_contact_findings(d, road_ids, es, cid)
}

/// What the check finds: nothing when fewer than two roads have distinct
/// ids; else each contact point reached by more than one road link.
pub open spec fn junction_needed_findings(d: Seq<ElementView>) -> Seq<FindingView> {
    let ids = id_entries(d, roads(d));
    let rs = map_roads(d, ids, roads(d));
    if rs.len() < 2 {
        Seq::empty()
    } else {
        let es = contact_entries(d, rs);
        concat_map(group_keys(es, contact_key()), ambiguous_contact_fn(d, ids, es))
    }
}


pub open spec fn entries_view(es: Seq<(String, usize)>) -> Seq<(Seq<char>, usize)> {
    es.map_values(|e: (String, usize)| (e.0@, e.1))
}

pub(crate) fn get_map_roads(doc: &XmlDoc, road_id_map: &Vec<(i64, usize)>) -> (r: Vec<usize>)
    requires
        road_id_map@ == id_entries(doc@, roads(doc@)),
    ensures
        r@ == map_roads(doc@, road_id_map@, roads(doc@)),
        forall|k: int| 0 <= k < r@.len() ==> #[trigger] r@[k] < doc@.len(),
{
    let rs = crate::opendrive::utils::get_roads(doc);
    let mut r: Vec<usize> = Vec::new();
    let n = rs.len();
    let mut i: usize = 0;
    while i < n
        invariant
            i <= n,
            n == rs@.len(),
            rs@ == roads(doc@),
            forall|k: int| 0 <= k < rs@.len() ==> #[trigger] rs@[k] < doc@.len(),
            r@ == map_roads(doc@, road_id_map@, rs@.take(i as int)),
            forall|k: int| 0 <= k < r@.len() ==> #[trigger] r@[k] < doc@.len(),
        decreases n - i,
    {
        assert(rs@.take(i + 1).drop_last() =~= rs@.take(i as int));
        let road = rs[i];
        let keep = match crate::opendrive::utils::int_attribute(doc, road, "id") {
            Some(k) => match map_lookup(road_id_map, k) {
                Some(x) => x == road,
                None => false,
            },
            None => false,
        };
        if keep {
            r.push(road);
        }
        i = i + 1;
    }
    assert(rs@.take(n as int) =~= rs@);
    r
}

fn push_side_contact(doc: &XmlDoc, es: &mut Vec<(String, usize)>, road: usize, tag: LinkageTag)
    requires
        road < doc@.len(),
        forall|k: int| 0 <= k < old(es)@.len() ==> #[trigger] old(es)@[k].1 < doc@.len(),
    ensures
        entries_view(final(es)@) == entries_view(old(es)@) + side_contact(doc@, road, tag),
        forall|k: int| 0 <= k < final(es)@.len() ==> #[trigger] final(es)@[k].1 < doc@.len(),
{
    let ghost e0 = entries_view(es@);
    match get_road_linkage(doc, road, tag) {
        None => {
            assert(entries_view(es@) =~= e0 + side_contact(doc@, road, tag));
        },
        Some(l) => match get_road_link_element(doc, road, l.id, tag) {
            Some(el) => {
                let cid = create_contact_point_id(&l);
                es.push((cid, el));
                assert(entries_view(es@) =~= e0 + side_contact(doc@, road, tag));
            },
            None => {
                assert(entries_view(es@) =~= e0 + side_contact(doc@, road, tag));
            },
        },
    }
}

fn contact_keys(es: &Vec<(String, usize)>) -> (r: Vec<String>)
    ensures
        r@.map_values(|s: String| s@) == group_keys(entries_view(es@), contact_key()),
{
    let mut r: Vec<String> = Vec::new();
    let n = es.len();
    let mut i: usize = 0;
    while i < n
        invariant
            i <= n,
            n == es@.len(),
            r@.map_values(|s: String| s@) == group_keys(entries_view(es@).take(i as int), contact_key()),
        decreases n - i,
    {
        assert(entries_view(es@).take(i + 1).drop_last() =~= entries_view(es@).take(i as int));
        let ghost kv = r@.map_values(|s: String| s@);
        let k = es[i].0.as_str();
        let mut found = false;
        let mut g: usize = 0;
        while g < r.len()
            invariant
                g <= r@.len(),
                kv == r@.map_values(|s: String| s@),
                found == (exists|q: int| 0 <= q < g && kv[q] == k@),
            decreases r@.len() - g,
        {
            if str_eq(r[g].as_str(), k) {
                found = true;
                assert(kv[g as int] == k@);
            }
            g = g + 1;
        }
        assert(found == kv.contains(k@));
        if !found {
            r.push(k.to_owned());
            assert(r@.map_values(|s: String| s@) =~= kv.push(k@));
        }
        i = i + 1;
    }
    assert(entries_view(es@).take(n as int) =~= entries_view(es@));
    r
}

fn contact_members(es: &Vec<(String, usize)>, cid: &str) -> (r: Vec<usize>)
    ensures
        r@ == group_members(entries_view(es@), contact_key(), cid@).map_values(|e: (Seq<char>, usize)| e.1),
{
    let mut r: Vec<usize> = Vec::new();
    let n = es.len();
    let mut i: usize = 0;
    while i < n
        invariant
            i <= n,
            n == es@.len(),
            r@ == group_members(entries_view(es@).take(i as int), contact_key(), cid@).map_values(
                |e: (Seq<char>, usize)| e.1,
            ),
        decreases n - i,
    {
        assert(entries_view(es@).take(i + 1).drop_last() =~= entries_view(es@).take(i as int));
        let ghost prev = group_members(entries_view(es@).take(i as int), contact_key(), cid@);
        if str_eq(es[i].0.as_str(), cid) {
            r.push(es[i].1);
            assert(prev.push(entries_view(es@)[i as int]).map_values(|e: (Seq<char>, usize)| e.1) =~= prev.map_values(
                |e: (Seq<char>, usize)| e.1,
            ).push(es@[i as int].1));
        }
        i = i + 1;
    }
    assert(entries_view(es@).take(n as int) =~= entries_view(es@));
    r
}

/// Contact points of roads (outside junctions) that more than one road link
/// reaches, where a junction is needed; none when fewer than two roads have
/// distinct ids.
pub fn check_road_linkage_is_junction_needed(doc: &XmlDoc) -> (r: Vec<Finding>)
    ensures
        findings_view(r@) == junction_needed_findings(doc@),
        findings_in(doc@, findings_view(r@)),
{
    let road_id_map = get_road_id_map(doc);
    let rs = get_map_roads(doc, &road_id_map);
    let mut r: Vec<Finding> = Vec::new();
    if rs.len() < 2 {
        assert(findings_view(r@) =~= junction_needed_findings(doc@));
        return r;
    }
    let mut es: Vec<(String, usize)> = Vec::new();
    let n = rs.len();
    let mut i: usize = 0;
    assert(entries_view(es@) =~= contact_entries(doc@, rs@.take(0)));
    while i < n
        invariant
            i <= n,
            n == rs@.len(),
            forall|k: int| 0 <= k < rs@.len() ==> #[trigger] rs@[k] < doc@.len(),
            entries_view(es@) == contact_entries(doc@, rs@.take(i as int)),
            forall|k: int| 0 <= k < es@.len() ==> #[trigger] es@[k].1 < doc@.len(),
        decreases n - i,
    {
        assert(rs@.take(i + 1).drop_last() =~= rs@.take(i as int));
        let road = rs[i];
        let ghost e0 = entries_view(es@);
        if !road_belongs_to_junction(doc, road) {
            push_side_contact(doc, &mut es, road, LinkageTag::Predecessor);
            push_side_contact(doc, &mut es, road, LinkageTag::Successor);
            assert(entries_view(es@) =~= e0 + (side_contact(doc@, road, LinkageTag::Predecessor) + side_contact(
                doc@,
                road,
                LinkageTag::Successor,
            )));
        } else {
            assert(entries_view(es@) =~= e0 + Seq::<(Seq<char>, usize)>::empty());
        }
        i = i + 1;
    }
    assert(rs@.take(n as int) =~= rs@);
    let keys = contact_keys(&es);
    let ghost kv = keys@.map_values(|s: String| s@);
    let ghost f = ambiguous_contact_fn(doc@, road_id_map@, entries_view(es@));
    let m = keys.len();
    let mut j: usize = 0;
    assert(findings_view(r@) =~= concat_map(kv.take(0), f));
    while j < m
        invariant
            j <= m,
            m == keys@.len(),
            kv == keys@.map_values(|s: String| s@),
            entries_in(doc@, road_id_map@),
            forall|k: int| 0 <= k < es@.len() ==> #[trigger] es@[k].1 < doc@.len(),
            f == ambiguous_contact_fn(doc@, road_id_map@, entries_view(es@)),
            findings_view(r@) == concat_map(kv.take(j as int), f),
            findings_in(doc@, findings_view(r@)),
        decreases m - j,
    {
        assert(kv.take(j + 1).drop_last() =~= kv.take(j as int));
        let cid = keys[j].as_str();
        let ms = contact_members(&es, cid);
        let ghost gm = group_members(entries_view(es@), contact_key(), cid@);
        assert forall|q: int| 0 <= q < ms@.len() implies #[trigger] ms@[q] < doc@.len() by {
            lemma_contact_members_in(entries_view(es@), cid@, doc@.len());
            assert(ms@[q] == gm[q].1);
        }
        let ghost r0 = findings_view(r@);
        assert(concat_map(kv.take(j + 1), f) == concat_map(kv.take(j as int), f) + f(kv[j as int]));
        if ms.len() > 1 {
            let l = read_contact_point_id(cid);
            let tag = if l.contact_point == ContactPoint::End { LinkageTag::Successor } else { LinkageTag::Predecessor };
            let mut desc = "Road cannot have ambiguous ".to_owned();
            desc.append(tag.value());
            desc.append(" a junction is needed.");
            let (mut locs, _, _) = member_locations(doc, &ms, desc.as_str());
            let ghost v0 = locs@.map_values(|x: FindingLocation| x@);
            proof {
                lemma_map_get_in(doc@, road_id_map@, l.id);
            }
            match map_lookup(&road_id_map, l.id) {
                Some(pr) => {
                    let point = if tag == LinkageTag::Predecessor { PointRequest::RoadStart(pr) } else { PointRequest::RoadEnd(pr) };
                    locs.push(FindingLocation::Point("Point where the linkage is not clear.".to_owned(), point));
                },
                None => {},
            }
            let fd = Finding { description: desc, level: IssueSeverity::Error, locations: locs };
            assert(fd@ =~= f(kv[j as int])[0]) by {
                assert(locs@.map_values(|x: FindingLocation| x@) =~= f(kv[j as int])[0].locations);
            }
            push_finding(&mut r, fd);
            assert(findings_view(r@) =~= r0 + f(kv[j as int]));
            assert(findings_in(doc@, f(kv[j as int]))) by {
                assert forall|a: int, b: int| 0 <= a < f(kv[j as int]).len() && 0 <= b < f(kv[j as int])[a].locations.len() implies
                    crate::opendrive::checks::findings::location_in(doc@, #[trigger] f(kv[j as int])[a].locations[b]) by {
                    if b < ms@.len() {
                        assert(f(kv[j as int])[a].locations[b] == LocationRequest::Node(desc@, ms@[b]));
                    }
                }
            }
            proof {
                lemma_findings_in_concat(doc@, r0, f(kv[j as int]));
            }
        } else {
            assert(f(kv[j as int]) =~= Seq::<FindingView>::empty());
            assert(r0 + f(kv[j as int]) =~= r0);
        }
        j = j + 1;
    }
    assert(kv.take(m as int) =~= kv);
    r
}

proof fn lemma_contact_members_in(es: Seq<(Seq<char>, usize)>, cid: Seq<char>, bound: nat)
    requires
        forall|i: int| 0 <= i < es.len() ==> #[trigger] es[i].1 < bound,
    ensures
        forall|i: int| 0 <= i < group_members(es, contact_key(), cid).len() ==> #[trigger] group_members(es, contact_key(), cid)[i].1 < bound,
    decreases es.len(),
{
    if es.len() > 0 {
        let prev = group_members(es.drop_last(), contact_key(), cid);
        lemma_contact_members_in(es.drop_last(), cid, bound);
        assert(es.last() == es[es.len() - 1]);
        if contact_key()(es.last()) == Some(cid) {
            assert forall|i: int| 0 <= i < prev.push(es.last()).len() implies #[trigger] prev.push(es.last())[i].1 < bound by {
                if i < prev.len() {
                    assert(prev.push(es.last())[i] == prev[i]);
                }
            }
        }
    }
}


// ---------------------------------------------------------------------------
// road.lane.link.lanes_across_lane_sections
// ---------------------------------------------------------------------------

pub open spec fn missing_link_desc() -> Seq<char> {
    "Missing lane link."@
}

/// Lane `id` links to lane `cid` of `second`, which does not link back.
pub open spec fn missing_back_link(d: Seq<ElementView>, second: ContactingLaneSection, id: i64, cid: i64) -> Seq<FindingView> {
    match lane_in_section(d, second.lane_section as int, cid) {
        None => Seq::empty(),
        Some(cl) => if lane_link_ids(d, cl as int, second.linkage_tag).contains(id) {
            Seq::empty()
        } else {
            seq![error_finding(missing_link_desc(), seq![LocationRequest::Node(missing_link_desc(), cl)])]
        },
    }
}

pub open spec fn missing_back_link_fn(d: Seq<ElementView>, second: ContactingLaneSection, id: i64) -> spec_fn(i64) -> Seq<FindingView> {
    |cid: i64| missing_back_link(d, second, id, cid)
}

/// The lanes of `second` that `lane` (of `first`) links to and that do not
/// link back to it.
pub open spec fn lane_missing_links(d: Seq<ElementView>, first: ContactingLaneSection, second: ContactingLaneSection, lane: usize) -> Seq<FindingView> {
    match int_attr(d, lane as int, "id"@) {
        None => Seq::empty(),
        Some(id) => concat_map(lane_link_ids(d, lane as int, first.linkage_tag), missing_back_link_fn(d, second, id)),
    }
}

pub open spec fn lane_missing_links_fn(d: Seq<ElementView>, first: ContactingLaneSection, second: ContactingLaneSection) -> spec_fn(usize) -> Seq<FindingView> {
    |lane: usize| lane_missing_links(d, first, second, lane)
}

/// The links from the lanes of `first` into `second` that are not returned.
pub open spec fn one_direction_missing(d: Seq<ElementView>, first: ContactingLaneSection, second: ContactingLaneSection) -> Seq<FindingView> {
    concat_map(left_and_right_lanes(d, first.lane_section as int), lane_missing_links_fn(d, first, second))
}

/// The links between two touching lane sections that are not returned, in
/// both directions.
pub open spec fn two_sections_missing(d: Seq<ElementView>, a: ContactingLaneSection, b: ContactingLaneSection) -> Seq<FindingView> {
    one_direction_missing(d, a, b) + one_direction_missing(d, b, a)
}

/// The missing links between consecutive lane sections of `ls`.
pub open spec fn middle_missing(d: Seq<ElementView>, ls: Seq<usize>) -> Seq<FindingView>
    decreases ls.len(),
{
    if ls.len() < 2 {
        Seq::empty()
    } else {
        middle_missing(d, ls.drop_last()) + two_sections_missing(
            d,
            ContactingLaneSection { lane_section: ls[ls.len() - 2], linkage_tag: LinkageTag::Successor },
            ContactingLaneSection { lane_section: ls.last(), linkage_tag: LinkageTag::Predecessor },
        )
    }
}

/// The missing links between a road's lane section at one end (its first
/// one for the predecessor, its last one for the successor) and the lane
/// section of the road linked there.
pub open spec fn end_missing(d: Seq<ElementView>, road_ids: Seq<(i64, usize)>, road: usize, tag: LinkageTag) -> Seq<FindingView> {
    let own = if tag == LinkageTag::Predecessor { first_lane_section(d, road as int) } else { last_lane_section(d, road as int) };
    match own {
        None => Seq::empty(),
        Some(ls) => match road_linkage(d, road as int, tag) {
            None => Seq::empty(),
            Some(l) => match contact_lane_section_of_linkage(d, l, road_ids) {
                None => Seq::empty(),
                Some(other) => two_sections_missing(d, ContactingLaneSection { lane_section: ls, linkage_tag: tag }, other),
            },
        },
    }
}

/// The missing lane links of a road: between its lane sections, and (for a
/// road outside junctions) to the roads linked at its ends.
pub open spec fn road_missing_links(d: Seq<ElementView>, road_ids: Seq<(i64, usize)>, road: usize) -> Seq<FindingView> {
    middle_missing(d, lane_sections(d, road as int)) + if belongs_to_junction(d, road as int) {
        Seq::empty()
    } else {
        end_missing(d, road_ids, road, LinkageTag::Predecessor) + end_missing(d, road_ids, road, LinkageTag::Successor)
    }
}

pub open spec fn road_missing_links_fn(d: Seq<ElementView>, road_ids: Seq<(i64, usize)>) -> spec_fn(usize) -> Seq<FindingView> {
    |road: usize| road_missing_links(d, road_ids, road)
}

fn contains_id(v: &Vec<i64>, id: i64) -> (r: bool)
    ensures
        r == v@.contains(id),
{
    let mut i: usize = 0;
    while i < v.len()
        invariant
            i <= v@.len(),
            forall|q: int| 0 <= q < i ==> v@[q] != id,
        decreases v@.len() - i,
    {
        if v[i] == id {
            assert(v@[i as int] == id);
            return true;
        }
        i = i + 1;
    }
    false
}

fn missing_back_link_finding(doc: &XmlDoc, second: ContactingLaneSection, id: i64, cid: i64) -> (r: Vec<Finding>)
    requires
        second.lane_section < doc@.len(),
    ensures
        findings_view(r@) == missing_back_link(doc@, second, id, cid),
        findings_in(doc@, findings_view(r@)),
{
    let mut r: Vec<Finding> = Vec::new();
    assert(findings_view(r@) =~= Seq::<FindingView>::empty());
    let cl = match get_lane_from_lane_section(doc, second.lane_section, cid) {
        Some(x) => x,
        None => return r,
    };
    let back = get_connecting_lane_ids(doc, cl, second.linkage_tag);
    if !contains_id(&back, id) {
        let mut locs: Vec<FindingLocation> = Vec::new();
        locs.push(FindingLocation::Node("Missing lane link.".to_owned(), cl));
        let f = Finding { description: "Missing lane link.".to_owned(), level: IssueSeverity::Error, locations: locs };
        assert(f@.locations =~= seq![LocationRequest::Node(missing_link_desc(), cl)]);
        push_finding(&mut r, f);
        assert(findings_view(r@) =~= missing_back_link(doc@, second, id, cid));
    }
    r
}

fn lane_missing_link_findings(doc: &XmlDoc, first: ContactingLaneSection, second: ContactingLaneSection, lane: usize) -> (r: Vec<Finding>)
    requires
        lane < doc@.len(),
        second.lane_section < doc@.len(),
    ensures
        findings_view(r@) == lane_missing_links(doc@, first, second, lane),
        findings_in(doc@, findings_view(r@)),
{
    let mut r: Vec<Finding> = Vec::new();
    assert(findings_view(r@) =~= Seq::<FindingView>::empty());
    let id = match get_lane_id(doc, lane) {
        Some(x) => x,
        None => return r,
    };
    let ids = get_connecting_lane_ids(doc, lane, first.linkage_tag);
    let ghost f = missing_back_link_fn(doc@, second, id);
    let n = ids.len();
    let mut i: usize = 0;
    assert(findings_view(r@) =~= concat_map(ids@.take(0), f));
    while i < n
        invariant
            i <= n,
            n == ids@.len(),
            second.lane_section < doc@.len(),
            f == missing_back_link_fn(doc@, second, id),
            findings_view(r@) == concat_map(ids@.take(i as int), f),
            findings_in(doc@, findings_view(r@)),
        decreases n - i,
    {
        assert(ids@.take(i + 1).drop_last() =~= ids@.take(i as int));
        let w = missing_back_link_finding(doc, second, id, ids[i]);
        let ghost r0 = findings_view(r@);
        assert(concat_map(ids@.take(i + 1), f) == concat_map(ids@.take(i as int), f) + f(ids@[i as int]));
        append_findings(&mut r, w);
        proof {
            lemma_findings_in_concat(doc@, r0, findings_view(w@));
        }
        i = i + 1;
    }
    assert(ids@.take(n as int) =~= ids@);
    r
}

fn one_direction_missing_findings(doc: &XmlDoc, first: ContactingLaneSection, second: ContactingLaneSection) -> (r: Vec<Finding>)
    requires
        first.lane_section < doc@.len(),
        second.lane_section < doc@.len(),
    ensures
        findings_view(r@) == one_direction_missing(doc@, first, second),
        findings_in(doc@, findings_view(r@)),
{
    let lanes = get_left_and_right_lanes_from_lane_section(doc, first.lane_section);
    let ghost f = lane_missing_links_fn(doc@, first, second);
    let mut r: Vec<Finding> = Vec::new();
    let n = lanes.len();
    let mut i: usize = 0;
    assert(findings_view(r@) =~= concat_map(lanes@.take(0), f));
    while i < n
        invariant
            i <= n,
            n == lanes@.len(),
            second.lane_section < doc@.len(),
            forall|k: int| 0 <= k < lanes@.len() ==> #[trigger] lanes@[k] < doc@.len(),
            f == lane_missing_links_fn(doc@, first, second),
            findings_view(r@) == concat_map(lanes@.take(i as int), f),
            findings_in(doc@, findings_view(r@)),
        decreases n - i,
    {
        assert(lanes@.take(i + 1).drop_last() =~= lanes@.take(i as int));
        let w = lane_missing_link_findings(doc, first, second, lanes[i]);
        let ghost r0 = findings_view(r@);
        assert(concat_map(lanes@.take(i + 1), f) == concat_map(lanes@.take(i as int), f) + f(lanes@[i as int]));
        append_findings(&mut r, w);
        proof {
            lemma_findings_in_concat(doc@, r0, findings_view(w@));
        }
        i = i + 1;
    }
    assert(lanes@.take(n as int) =~= lanes@);
    r
}

fn two_sections_missing_findings(doc: &XmlDoc, a: ContactingLaneSection, b: ContactingLaneSection) -> (r: Vec<Finding>)
    requires
        a.lane_section < doc@.len(),
        b.lane_section < doc@.len(),
    ensures
        findings_view(r@) == two_sections_missing(doc@, a, b),
        findings_in(doc@, findings_view(r@)),
{
    let mut r = one_direction_missing_findings(doc, a, b);
    let w = one_direction_missing_findings(doc, b, a);
    let ghost r0 = findings_view(r@);
    append_findings(&mut r, w);
    proof {
        lemma_findings_in_concat(doc@, r0, findings_view(w@));
    }
    r
}

fn end_missing_findings(doc: &XmlDoc, road_id_map: &Vec<(i64, usize)>, road: usize, tag: LinkageTag) -> (r: Vec<Finding>)
    requires
        road < doc@.len(),
        entries_in(doc@, road_id_map@),
    ensures
        findings_view(r@) == end_missing(doc@, road_id_map@, road, tag),
        findings_in(doc@, findings_view(r@)),
{
    let r: Vec<Finding> = Vec::new();
    assert(findings_view(r@) =~= Seq::<FindingView>::empty());
    let own = if tag == LinkageTag::Predecessor { get_first_lane_section(doc, road) } else { get_last_lane_section(doc, road) };
    let ls = match own {
        Some(x) => x,
        None => return r,
    };
    let l = match get_road_linkage(doc, road, tag) {
        Some(x) => x,
        None => return r,
    };
    let other = match get_contact_lane_section_from_linked_road(doc, &l, road_id_map) {
        Some(x) => x,
        None => return r,
    };
    two_sections_missing_findings(doc, ContactingLaneSection { lane_section: ls, linkage_tag: tag }, other)
}

fn road_missing_link_findings(doc: &XmlDoc, road_id_map: &Vec<(i64, usize)>, road: usize) -> (r: Vec<Finding>)
    requires
        road < doc@.len(),
        entries_in(doc@, road_id_map@),
    ensures
        findings_view(r@) == road_missing_links(doc@, road_id_map@, road),
        findings_in(doc@, findings_view(r@)),
{
    let ls = get_lane_sections(doc, road);
    let mut r: Vec<Finding> = Vec::new();
    let n = ls.len();
    if n < 2 {
        assert(findings_view(r@) =~= middle_missing(doc@, ls@));
    } else {
        let mut i: usize = 1;
        assert(findings_view(r@) =~= middle_missing(doc@, ls@.take(1)));
        while i < n
            invariant
                1 <= i <= n,
                n == ls@.len(),
                forall|k: int| 0 <= k < ls@.len() ==> #[trigger] ls@[k] < doc@.len(),
                findings_view(r@) == middle_missing(doc@, ls@.take(i as int)),
                findings_in(doc@, findings_view(r@)),
            decreases n - i,
        {
            assert(ls@.take(i + 1).drop_last() =~= ls@.take(i as int));
            assert(ls@.take(i + 1)[i - 1] == ls@[i - 1]);
            let w = two_sections_missing_findings(
                doc,
                ContactingLaneSection { lane_section: ls[i - 1], linkage_tag: LinkageTag::Successor },
                ContactingLaneSection { lane_section: ls[i], linkage_tag: LinkageTag::Predecessor },
            );
            let ghost r0 = findings_view(r@);
            append_findings(&mut r, w);
            proof {
                lemma_findings_in_concat(doc@, r0, findings_view(w@));
            }
            i = i + 1;
        }
        assert(ls@.take(n as int) =~= ls@);
    }
    let ghost m0 = findings_view(r@);
    if !road_belongs_to_junction(doc, road) {
        let w1 = end_missing_findings(doc, road_id_map, road, LinkageTag::Predecessor);
        append_findings(&mut r, w1);
        proof {
            lemma_findings_in_concat(doc@, m0, findings_view(w1@));
        }
        let ghost m1 = findings_view(r@);
        let w2 = end_missing_findings(doc, road_id_map, road, LinkageTag::Successor);
        append_findings(&mut r, w2);
        proof {
            lemma_findings_in_concat(doc@, m1, findings_view(w2@));
        }
        assert(findings_view(r@) =~= m0 + (findings_view(w1@) + findings_view(w2@)));
    } else {
        assert(findings_view(r@) =~= m0 + Seq::<FindingView>::empty());
    }
    r
}

/// Lane links between touching lane sections (within a road, and to the
/// roads linked at the ends of roads outside junctions) that the other lane
/// does not return.
pub fn check_lanes_across_lane_sections(doc: &XmlDoc) -> (r: Vec<Finding>)
    ensures
        findings_view(r@) == concat_map(roads(doc@), road_missing_links_fn(doc@, id_entries(doc@, roads(doc@)))),
        findings_in(doc@, findings_view(r@)),
{
    let road_id_map = get_road_id_map(doc);
    let rs = crate::opendrive::utils::get_roads(doc);
    let ghost f = road_missing_links_fn(doc@, road_id_map@);
    let mut r: Vec<Finding> = Vec::new();
    let n = rs.len();
    let mut i: usize = 0;
    assert(findings_view(r@) =~= concat_map(rs@.take(0), f));
    while i < n
        invariant
            i <= n,
            n == rs@.len(),
            entries_in(doc@, road_id_map@),
            forall|k: int| 0 <= k < rs@.len() ==> #[trigger] rs@[k] < doc@.len(),
            f == road_missing_links_fn(doc@, road_id_map@),
            findings_view(r@) == concat_map(rs@.take(i as int), f),
            findings_in(doc@, findings_view(r@)),
        decreases n - i,
    {
        assert(rs@.take(i + 1).drop_last() =~= rs@.take(i as int));
        let w = road_missing_link_findings(doc, &road_id_map, rs[i]);
        let ghost r0 = findings_view(r@);
        assert(concat_map(rs@.take(i + 1), f) == concat_map(rs@.take(i as int), f) + f(rs@[i as int]));
        append_findings(&mut r, w);
        proof {
            lemma_findings_in_concat(doc@, r0, findings_view(w@));
        }
        i = i + 1;
    }
    assert(rs@.take(n as int) =~= rs@);
    r
}


// ---------------------------------------------------------------------------
// Stable ordering by an integer key
// ---------------------------------------------------------------------------

/// `s` (ordered by key) with `x` inserted after every element whose key is
/// at most its own.
pub open spec fn insert_by_key(s: Seq<(i64, usize)>, x: (i64, usize)) -> Seq<(i64, usize)>
    decreases s.len(),
{
    if s.len() == 0 {
        seq![x]
    } else if s.last().0 <= x.0 {
        s.push(x)
    } else {
        insert_by_key(s.drop_last(), x).push(s.last())
    }
}

/// `s` ordered by key, elements with equal keys kept in their order.
pub open spec fn sort_by_key(s: Seq<(i64, usize)>) -> Seq<(i64, usize)>
    decreases s.len(),
{
    if s.len() == 0 {
        Seq::empty()
    } else {
        insert_by_key(sort_by_key(s.drop_last()), s.last())
    }
}

proof fn lemma_insert_at(s: Seq<(i64, usize)>, x: (i64, usize), p: int)
    requires
        0 <= p <= s.len(),
        p == 0 || s[p - 1].0 <= x.0,
        forall|q: int| p <= q < s.len() ==> #[trigger] s[q].0 > x.0,
    ensures
        insert_by_key(s, x) == s.take(p).push(x) + s.skip(p),
    decreases s.len(),
{
    if s.len() == 0 {
        assert(s.take(p).push(x) + s.skip(p) =~= seq![x]);
    } else if p == s.len() {
        assert(s.take(p).push(x) + s.skip(p) =~= s.push(x));
    } else {
        let t = s.drop_last();
        lemma_insert_at(t, x, p);
        assert(t.take(p).push(x) + t.skip(p) + seq![s.last()] =~= s.take(p).push(x) + s.skip(p));
        assert(insert_by_key(s, x) == insert_by_key(t, x).push(s.last()));
        assert(insert_by_key(t, x).push(s.last()) =~= t.take(p).push(x) + t.skip(p) + seq![s.last()]);
    }
}

/// Orders `v` by key; equal keys keep their order.
pub fn sort_by_key_stable(v: &Vec<(i64, usize)>) -> (r: Vec<(i64, usize)>)
    ensures
        r@ == sort_by_key(v@),
{
    let mut r: Vec<(i64, usize)> = Vec::new();
    let n = v.len();
    let mut i: usize = 0;
    while i < n
        invariant
            i <= n,
            n == v@.len(),
            r@ == sort_by_key(v@.take(i as int)),
            r@.len() == i,
        decreases n - i,
    {
        assert(v@.take(i + 1).drop_last() =~= v@.take(i as int));
        let x = v[i];
        let mut p = r.len();
        while p > 0 && r[p - 1].0 > x.0
            invariant
                p <= r@.len(),
                forall|q: int| p <= q < r@.len() ==> #[trigger] r@[q].0 > x.0,
            decreases p,
        {
            p = p - 1;
        }
        proof {
            lemma_insert_at(r@, x, p as int);
        }
        let ghost r0 = r@;
        r.insert(p, x);
        assert(r@ =~= r0.take(p as int).push(x) + r0.skip(p as int));
        i = i + 1;
    }
    assert(v@.take(n as int) =~= v@);
    r
}

// ---------------------------------------------------------------------------
// road.lane.level_true_one_side
// ---------------------------------------------------------------------------

/// Whether a lane's level is `true`.
pub open spec fn lane_level(d: Seq<ElementView>, lane: usize) -> bool {
    attribute(d, lane as int, "level"@) == Some("true"@)
}

/// The magnitude of a lane id (wrapping at the smallest `i64`).
pub open spec fn id_magnitude(id: i64) -> i64 {
    if id < 0 {
        if id == i64::MIN { i64::MIN } else { (-id) as i64 }
    } else {
        id
    }
}

/// The lanes of `lanes` that have an id, keyed by their id (or by its
/// magnitude), in order.
pub open spec fn keyed_lanes(d: Seq<ElementView>, lanes: Seq<usize>, magnitude: bool) -> Seq<(i64, usize)>
    decreases lanes.len(),
{
    if lanes.len() == 0 {
        Seq::empty()
    } else {
        let prev = keyed_lanes(d, lanes.drop_last(), magnitude);
        match int_attr(d, lanes.last() as int, "id"@) {
            Some(id) => prev.push((if magnitude { id_magnitude(id) } else { id }, lanes.last())),
            None => prev,
        }
    }
}

pub open spec fn level_one_side_desc() -> Seq<char> {
    "Lane level False encountered on same side after True set."@
}

/// Walking the lanes of one side from the centre outwards: whether a lane of
/// level `true` was seen, and the lanes of level `false` met after it.
pub open spec fn true_level_scan(d: Seq<ElementView>, road: usize, ls: usize, s: Seq<(i64, usize)>) -> (bool, Seq<FindingView>)
    decreases s.len(),
{
    if s.len() == 0 {
        (false, Seq::empty())
    } else {
        let (found, fs) = true_level_scan(d, road, ls, s.drop_last());
        let lane = s.last().1;
        if lane_level(d, lane) {
            (true, fs)
        } else if found {
            (
                true,
                fs.push(
                    error_finding(
                        level_one_side_desc(),
                        seq![
                            LocationRequest::Node(level_one_side_desc(), lane),
                            LocationRequest::Point(
                                level_one_side_desc(),
                                PointRequest::LaneMiddle(road, ls, lane, LanePosition::SectionMiddle),
                            ),
                        ],
                    ),
                ),
            )
        } else {
            (false, fs)
        }
    }
}

/// The lanes of lane section `ls` of `road` whose level is `false` though a
/// lane nearer the centre on the same side has level `true`: left lanes by
/// ascending id, then right lanes by ascending magnitude.
pub open spec fn section_level_findings(d: Seq<ElementView>, road: usize, ls: usize) -> Seq<FindingView> {
    true_level_scan(d, road, ls, sort_by_key(keyed_lanes(d, side_lanes(d, ls as int, "left"@), false))).1
        + true_level_scan(d, road, ls, sort_by_key(keyed_lanes(d, side_lanes(d, ls as int, "right"@), true))).1
}

pub open spec fn section_level_fn(d: Seq<ElementView>, road: usize) -> spec_fn(usize) -> Seq<FindingView> {
    |ls: usize| section_level_findings(d, road, ls)
}

pub open spec fn road_sections_level_fn(d: Seq<ElementView>) -> spec_fn((usize, Seq<usize>)) -> Seq<FindingView> {
    |p: (usize, Seq<usize>)| concat_map(p.1, section_level_fn(d, p.0))
}

pub open spec fn sections_view(v: Seq<(usize, Vec<usize>)>) -> Seq<(usize, Seq<usize>)> {
    v.map_values(|p: (usize, Vec<usize>)| (p.0, p.1@))
}

fn keyed_side_lanes(doc: &XmlDoc, lanes: &Vec<usize>, magnitude: bool) -> (r: Vec<(i64, usize)>)
    requires
        forall|k: int| 0 <= k < lanes@.len() ==> #[trigger] lanes@[k] < doc@.len(),
    ensures
        r@ == keyed_lanes(doc@, lanes@, magnitude),
        forall|k: int| 0 <= k < r@.len() ==> #[trigger] r@[k].1 < doc@.len(),
{
    let mut r: Vec<(i64, usize)> = Vec::new();
    let n = lanes.len();
    let mut i: usize = 0;
    while i < n
        invariant
            i <= n,
            n == lanes@.len(),
            forall|k: int| 0 <= k < lanes@.len() ==> #[trigger] lanes@[k] < doc@.len(),
            r@ == keyed_lanes(doc@, lanes@.take(i as int), magnitude),
            forall|k: int| 0 <= k < r@.len() ==> #[trigger] r@[k].1 < doc@.len(),
        decreases n - i,
    {
        assert(lanes@.take(i + 1).drop_last() =~= lanes@.take(i as int));
        match get_lane_id(doc, lanes[i]) {
            Some(id) => {
                let key = if magnitude {
                    if id < 0 {
                        if id == i64::MIN { i64::MIN } else { -id }
                    } else {
                        id
                    }
                } else {
                    id
                };
                r.push((key, lanes[i]));
            },
            None => {},
        }
        i = i + 1;
    }
    assert(lanes@.take(n as int) =~= lanes@);
    r
}

proof fn lemma_insert_by_key_in(s: Seq<(i64, usize)>, x: (i64, usize), bound: nat)
    requires
        forall|k: int| 0 <= k < s.len() ==> #[trigger] s[k].1 < bound,
        x.1 < bound,
    ensures
        forall|k: int| 0 <= k < insert_by_key(s, x).len() ==> #[trigger] insert_by_key(s, x)[k].1 < bound,
        insert_by_key(s, x).len() == s.len() + 1,
    decreases s.len(),
{
    if s.len() > 0 && s.last().0 > x.0 {
        lemma_insert_by_key_in(s.drop_last(), x, bound);
        let t = insert_by_key(s.drop_last(), x);
        assert forall|k: int| 0 <= k < t.push(s.last()).len() implies #[trigger] t.push(s.last())[k].1 < bound by {
            if k < t.len() {
                assert(t.push(s.last())[k] == t[k]);
            }
        }
    }
}

proof fn lemma_sort_by_key_in(s: Seq<(i64, usize)>, bound: nat)
    requires
        forall|k: int| 0 <= k < s.len() ==> #[trigger] s[k].1 < bound,
    ensures
        forall|k: int| 0 <= k < sort_by_key(s).len() ==> #[trigger] sort_by_key(s)[k].1 < bound,
    decreases s.len(),
{
    if s.len() > 0 {
        lemma_sort_by_key_in(s.drop_last(), bound);
        assert(s.last() == s[s.len() - 1]);
        lemma_insert_by_key_in(sort_by_key(s.drop_last()), s.last(), bound);
    }
}

fn true_level_side(doc: &XmlDoc, road: usize, ls: usize, s: &Vec<(i64, usize)>) -> (r: Vec<Finding>)
    requires
        forall|k: int| 0 <= k < s@.len() ==> #[trigger] s@[k].1 < doc@.len(),
    ensures
        findings_view(r@) == true_level_scan(doc@, road, ls, s@).1,
        findings_in(doc@, findings_view(r@)),
{
    let mut r: Vec<Finding> = Vec::new();
    let mut found = false;
    let n = s.len();
    let mut i: usize = 0;
    assert(findings_view(r@) =~= true_level_scan(doc@, road, ls, s@.take(0)).1);
    while i < n
        invariant
            i <= n,
            n == s@.len(),
            forall|k: int| 0 <= k < s@.len() ==> #[trigger] s@[k].1 < doc@.len(),
            found == true_level_scan(doc@, road, ls, s@.take(i as int)).0,
            findings_view(r@) == true_level_scan(doc@, road, ls, s@.take(i as int)).1,
            findings_in(doc@, findings_view(r@)),
        decreases n - i,
    {
        assert(s@.take(i + 1).drop_last() =~= s@.take(i as int));
        let lane = s[i].1;
        if get_lane_level_from_lane(doc, lane) {
            found = true;
        } else if found {
            let mut locs: Vec<FindingLocation> = Vec::new();
            locs.push(FindingLocation::Node("Lane level False encountered on same side after True set.".to_owned(), lane));
            locs.push(FindingLocation::Point(
                "Lane level False encountered on same side after True set.".to_owned(),
                PointRequest::LaneMiddle(road, ls, lane, LanePosition::SectionMiddle),
            ));
            let f = Finding {
                description: "Lane level False encountered on same side after True set.".to_owned(),
                level: IssueSeverity::Error,
                locations: locs,
            };
            let ghost r0 = findings_view(r@);
            push_finding(&mut r, f);
            assert(f@.locations =~= true_level_scan(doc@, road, ls, s@.take(i + 1)).1.last().locations);
            assert(findings_view(r@) =~= true_level_scan(doc@, road, ls, s@.take(i + 1)).1);
            assert forall|a: int, b: int| 0 <= a < findings_view(r@).len() && 0 <= b < findings_view(r@)[a].locations.len() implies
                crate::opendrive::checks::findings::location_in(doc@, #[trigger] findings_view(r@)[a].locations[b]) by {
                if a < r0.len() {
                    assert(findings_view(r@)[a] == r0[a]);
                }
            }
        }
        i = i + 1;
    }
    assert(s@.take(n as int) =~= s@);
    r
}

fn section_level(doc: &XmlDoc, road: usize, ls: usize) -> (r: Vec<Finding>)
    requires
        ls < doc@.len(),
    ensures
        findings_view(r@) == section_level_findings(doc@, road, ls),
        findings_in(doc@, findings_view(r@)),
{
    let left = get_left_lanes_from_lane_section(doc, ls);
    let right = get_right_lanes_from_lane_section(doc, ls);
    let kl = keyed_side_lanes(doc, &left, false);
    let kr = keyed_side_lanes(doc, &right, true);
    let sl = sort_by_key_stable(&kl);
    let sr = sort_by_key_stable(&kr);
    proof {
        lemma_sort_by_key_in(kl@, doc@.len());
        lemma_sort_by_key_in(kr@, doc@.len());
    }
    let mut r = true_level_side(doc, road, ls, &sl);
    let w = true_level_side(doc, road, ls, &sr);
    let ghost r0 = findings_view(r@);
    append_findings(&mut r, w);
    proof {
        lemma_findings_in_concat(doc@, r0, findings_view(w@));
    }
    r
}

/// In each lane section (taken, road by road, in the order `sections` gives
/// them, ordered by their start), the lanes of level `false` that follow a
/// lane of level `true` on the same side.
pub fn check_level_in_lane_section(doc: &XmlDoc, sections: &Vec<(usize, Vec<usize>)>) -> (r: Vec<Finding>)
    requires
        forall|k: int, q: int| 0 <= k < sections@.len() && 0 <= q < sections@[k].1@.len() ==> #[trigger] sections@[k].1@[q] < doc@.len(),
    ensures
        findings_view(r@) == concat_map(sections_view(sections@), road_sections_level_fn(doc@)),
        findings_in(doc@, findings_view(r@)),
{
    let ghost sv = sections_view(sections@);
    let ghost f = road_sections_level_fn(doc@);
    let mut r: Vec<Finding> = Vec::new();
    let n = sections.len();
    let mut i: usize = 0;
    assert(findings_view(r@) =~= concat_map(sv.take(0), f));
    while i < n
        invariant
            i <= n,
            n == sections@.len(),
            sv == sections_view(sections@),
            f == road_sections_level_fn(doc@),
            forall|k: int, q: int| 0 <= k < sections@.len() && 0 <= q < sections@[k].1@.len() ==> #[trigger] sections@[k].1@[q] < doc@.len(),
            findings_view(r@) == concat_map(sv.take(i as int), f),
            findings_in(doc@, findings_view(r@)),
        decreases n - i,
    {
        assert(sv.take(i + 1).drop_last() =~= sv.take(i as int));
        let road = sections[i].0;
        let lss = &sections[i].1;
        let ghost g = section_level_fn(doc@, road);
        let ghost r0 = findings_view(r@);
        let m = lss.len();
        let mut j: usize = 0;
        assert(r0 + concat_map(lss@.take(0), g) =~= r0);
        while j < m
            invariant
                j <= m,
                m == lss@.len(),
                g == section_level_fn(doc@, road),
                forall|q: int| 0 <= q < lss@.len() ==> #[trigger] lss@[q] < doc@.len(),
                findings_view(r@) == r0 + concat_map(lss@.take(j as int), g),
                findings_in(doc@, findings_view(r@)),
            decreases m - j,
        {
            assert(lss@.take(j + 1).drop_last() =~= lss@.take(j as int));
            let w = section_level(doc, road, lss[j]);
            let ghost r1 = findings_view(r@);
            assert(concat_map(lss@.take(j + 1), g) == concat_map(lss@.take(j as int), g) + g(lss@[j as int]));
            append_findings(&mut r, w);
            proof {
                lemma_findings_in_concat(doc@, r1, findings_view(w@));
            }
            assert(findings_view(r@) =~= r0 + concat_map(lss@.take(j + 1), g));
            j = j + 1;
        }
        assert(lss@.take(m as int) =~= lss@);
        assert(concat_map(sv.take(i + 1), f) == concat_map(sv.take(i as int), f) + f(sv[i as int]));
        i = i + 1;
    }
    assert(sv.take(n as int) =~= sv);
    r
}


/// A warning finding with the given locations.
pub open spec fn warning_finding(description: Seq<char>, locations: Seq<LocationRequest>) -> FindingView {
    FindingView { description, level: IssueSeverity::Warning, locations }
}

/// `lane` once for each of its linked lanes (under `tag`) in `target` whose
/// level differs from its own.
pub open spec fn lane_level_mismatches(d: Seq<ElementView>, lane: usize, target: usize, tag: LinkageTag) -> Seq<usize> {
    concat_map(lane_link_ids(d, lane as int, tag), |id: i64|
        match lane_in_section(d, target as int, id) {
            Some(tl) => if lane_level(d, tl) != lane_level(d, lane) { seq![lane] } else { Seq::<usize>::empty() },
            None => Seq::<usize>::empty(),
        })
}

/// The lanes of `current` linked (under `tag`) to a lane of `target` of
/// another level, once per such link.
pub open spec fn linkage_level_warnings(d: Seq<ElementView>, current: usize, target: usize, tag: LinkageTag) -> Seq<usize> {
    concat_map(left_and_right_lanes(d, current as int), |lane: usize| lane_level_mismatches(d, lane, target, tag))
}

/// The lanes of `lanes` keyed by the row where they start.
pub open spec fn by_row(d: Seq<ElementView>, lanes: Seq<usize>) -> Seq<(i64, usize)> {
    lanes.map_values(|lane: usize| (d[lane as int].row as i64, lane))
}

pub open spec fn consecutive_desc() -> Seq<char> {
    "Lane levels are not the same in two consecutive lane sections"@
}

/// The level changes between lane section `previous` and the next one,
/// `current`, ordered by the row of the lane.
pub open spec fn consecutive_level_findings(d: Seq<ElementView>, current: usize, previous: usize) -> Seq<FindingView> {
    sort_by_key(
        by_row(
            d,
            linkage_level_warnings(d, current, previous, LinkageTag::Predecessor) + linkage_level_warnings(
                d,
                previous,
                current,
                LinkageTag::Successor,
            ),
        ),
    ).map_values(|p: (i64, usize)| warning_finding(consecutive_desc(), seq![LocationRequest::Node(consecutive_desc(), p.1)]))
}

/// The level changes between consecutive lane sections of `ls`.
pub open spec fn sections_level_findings(d: Seq<ElementView>, ls: Seq<usize>) -> Seq<FindingView>
    decreases ls.len(),
{
    if ls.len() < 2 {
        Seq::empty()
    } else {
        sections_level_findings(d, ls.drop_last()) + consecutive_level_findings(d, ls.last(), ls[ls.len() - 2])
    }
}

pub open spec fn road_sections_change_fn(d: Seq<ElementView>) -> spec_fn(usize) -> Seq<FindingView> {
    |road: usize| sections_level_findings(d, lane_sections(d, road as int))
}

fn lane_mismatches(doc: &XmlDoc, lane: usize, target: usize, tag: LinkageTag) -> (r: Vec<usize>)
    requires
        lane < doc@.len(),
        target < doc@.len(),
    ensures
        r@ == lane_level_mismatches(doc@, lane, target, tag),
        forall|k: int| 0 <= k < r@.len() ==> #[trigger] r@[k] < doc@.len(),
{
    let ids = get_connecting_lane_ids(doc, lane, tag);
    let level = get_lane_level_from_lane(doc, lane);
    let ghost f = |id: i64|
        match lane_in_section(doc@, target as int, id) {
            Some(tl) => if lane_level(doc@, tl) != lane_level(doc@, lane) { seq![lane] } else { Seq::<usize>::empty() },
            None => Seq::<usize>::empty(),
        };
    let mut r: Vec<usize> = Vec::new();
    let n = ids.len();
    let mut i: usize = 0;
    assert(r@ =~= concat_map(ids@.take(0), f));
    while i < n
        invariant
            i <= n,
            n == ids@.len(),
            lane < doc@.len(),
            target < doc@.len(),
            level == lane_level(doc@, lane),
            f == (|id: i64|
                match lane_in_section(doc@, target as int, id) {
                    Some(tl) => if lane_level(doc@, tl) != lane_level(doc@, lane) { seq![lane] } else { Seq::<usize>::empty() },
                    None => Seq::<usize>::empty(),
                }),
            r@ == concat_map(ids@.take(i as int), f),
            forall|k: int| 0 <= k < r@.len() ==> #[trigger] r@[k] < doc@.len(),
        decreases n - i,
    {
        assert(ids@.take(i + 1).drop_last() =~= ids@.take(i as int));
        assert(concat_map(ids@.take(i + 1), f) == concat_map(ids@.take(i as int), f) + f(ids@[i as int]));
        let ghost r0 = r@;
        match get_lane_from_lane_section(doc, target, ids[i]) {
            Some(tl) => {
                if get_lane_level_from_lane(doc, tl) != level {
                    r.push(lane);
                    assert(r@ =~= r0 + f(ids@[i as int]));
                } else {
                    assert(r@ =~= r0 + f(ids@[i as int]));
                }
            },
            None => {
                assert(r@ =~= r0 + f(ids@[i as int]));
            },
        }
        i = i + 1;
    }
    assert(ids@.take(n as int) =~= ids@);
    assert(f == (|id: i64|
        match lane_in_section(doc@, target as int, id) {
            Some(tl) => if lane_level(doc@, tl) != lane_level(doc@, lane) { seq![lane] } else { Seq::<usize>::empty() },
            None => Seq::<usize>::empty(),
        }));
    r
}


fn level_warnings(doc: &XmlDoc, current: usize, target: usize, tag: LinkageTag) -> (r: Vec<usize>)
    requires
        current < doc@.len(),
        target < doc@.len(),
    ensures
        r@ == linkage_level_warnings(doc@, current, target, tag),
        forall|k: int| 0 <= k < r@.len() ==> #[trigger] r@[k] < doc@.len(),
{
    let lanes = get_left_and_right_lanes_from_lane_section(doc, current);
    let ghost f = |lane: usize| lane_level_mismatches(doc@, lane, target, tag);
    let mut r: Vec<usize> = Vec::new();
    let n = lanes.len();
    let mut i: usize = 0;
    assert(r@ =~= concat_map(lanes@.take(0), f));
    while i < n
        invariant
            i <= n,
            n == lanes@.len(),
            target < doc@.len(),
            forall|k: int| 0 <= k < lanes@.len() ==> #[trigger] lanes@[k] < doc@.len(),
            f == (|lane: usize| lane_level_mismatches(doc@, lane, target, tag)),
            r@ == concat_map(lanes@.take(i as int), f),
            forall|k: int| 0 <= k < r@.len() ==> #[trigger] r@[k] < doc@.len(),
        decreases n - i,
    {
        assert(lanes@.take(i + 1).drop_last() =~= lanes@.take(i as int));
        assert(concat_map(lanes@.take(i + 1), f) == concat_map(lanes@.take(i as int), f) + f(lanes@[i as int]));
        let mut w = lane_mismatches(doc, lanes[i], target, tag);
        let ghost r0 = r@;
        let ghost w0 = w@;
        r.append(&mut w);
        assert(r@ =~= r0 + w0);
        i = i + 1;
    }
    assert(lanes@.take(n as int) =~= lanes@);
    r
}

fn consecutive_level(doc: &XmlDoc, current: usize, previous: usize) -> (r: Vec<Finding>)
    requires
        current < doc@.len(),
        previous < doc@.len(),
    ensures
        findings_view(r@) == consecutive_level_findings(doc@, current, previous),
        findings_in(doc@, findings_view(r@)),
{
    let mut ws = level_warnings(doc, current, previous, LinkageTag::Predecessor);
    let mut ws2 = level_warnings(doc, previous, current, LinkageTag::Successor);
    let ghost a = ws@;
    let ghost b = ws2@;
    ws.append(&mut ws2);
    assert(ws@ =~= a + b);
    let mut keyed: Vec<(i64, usize)> = Vec::new();
    let n = ws.len();
    let mut i: usize = 0;
    while i < n
        invariant
            i <= n,
            n == ws@.len(),
            forall|k: int| 0 <= k < ws@.len() ==> #[trigger] ws@[k] < doc@.len(),
            keyed@ == by_row(doc@, ws@.take(i as int)),
        decreases n - i,
    {
        let row = doc.row(ws[i]);
        keyed.push((row as i64, ws[i]));
        assert(keyed@ =~= by_row(doc@, ws@.take(i + 1)));
        i = i + 1;
    }
    assert(ws@.take(n as int) =~= ws@);
    let sorted = sort_by_key_stable(&keyed);
    proof {
        assert forall|k: int| 0 <= k < keyed@.len() implies #[trigger] keyed@[k].1 < doc@.len() by {
            assert(keyed@[k].1 == ws@[k]);
        }
        lemma_sort_by_key_in(keyed@, doc@.len());
    }
    let mut r: Vec<Finding> = Vec::new();
    let m = sorted.len();
    let mut j: usize = 0;
    let ghost target = sorted@.map_values(|p: (i64, usize)| warning_finding(consecutive_desc(), seq![LocationRequest::Node(consecutive_desc(), p.1)]));
    while j < m
        invariant
            j <= m,
            m == sorted@.len(),
            forall|k: int| 0 <= k < sorted@.len() ==> #[trigger] sorted@[k].1 < doc@.len(),
            target == sorted@.map_values(|p: (i64, usize)| warning_finding(consecutive_desc(), seq![LocationRequest::Node(consecutive_desc(), p.1)])),
            findings_view(r@) == target.take(j as int),
            findings_in(doc@, findings_view(r@)),
        decreases m - j,
    {
        let mut locs: Vec<FindingLocation> = Vec::new();
        locs.push(FindingLocation::Node("Lane levels are not the same in two consecutive lane sections".to_owned(), sorted[j].1));
        let f = Finding {
            description: "Lane levels are not the same in two consecutive lane sections".to_owned(),
            level: IssueSeverity::Warning,
            locations: locs,
        };
        assert(f@ =~= target[j as int]) by {
            assert(f@.locations =~= seq![LocationRequest::Node(consecutive_desc(), sorted@[j as int].1)]);
        }
        let ghost r0 = findings_view(r@);
        push_finding(&mut r, f);
        assert(findings_view(r@) =~= target.take(j + 1));
        assert forall|a: int, b: int| 0 <= a < findings_view(r@).len() && 0 <= b < findings_view(r@)[a].locations.len() implies
            crate::opendrive::checks::findings::location_in(doc@, #[trigger] findings_view(r@)[a].locations[b]) by {
            if a < r0.len() {
                assert(findings_view(r@)[a] == r0[a]);
            }
        }
        j = j + 1;
    }
    assert(target.take(m as int) =~= target);
    r
}

fn sections_level(doc: &XmlDoc, road: usize) -> (r: Vec<Finding>)
    requires
        road < doc@.len(),
    ensures
        findings_view(r@) == sections_level_findings(doc@, lane_sections(doc@, road as int)),
        findings_in(doc@, findings_view(r@)),
{
    let ls = get_lane_sections(doc, road);
    let mut r: Vec<Finding> = Vec::new();
    let n = ls.len();
    if n < 2 {
        assert(findings_view(r@) =~= sections_level_findings(doc@, ls@));
        return r;
    }
    let mut i: usize = 1;
    assert(findings_view(r@) =~= sections_level_findings(doc@, ls@.take(1)));
    while i < n
        invariant
            1 <= i <= n,
            n == ls@.len(),
            forall|k: int| 0 <= k < ls@.len() ==> #[trigger] ls@[k] < doc@.len(),
            findings_view(r@) == sections_level_findings(doc@, ls@.take(i as int)),
            findings_in(doc@, findings_view(r@)),
        decreases n - i,
    {
        assert(ls@.take(i + 1).drop_last() =~= ls@.take(i as int));
        assert(ls@.take(i + 1)[i - 1] == ls@[i - 1]);
        let w = consecutive_level(doc, ls[i], ls[i - 1]);
        let ghost r0 = findings_view(r@);
        append_findings(&mut r, w);
        proof {
            lemma_findings_in_concat(doc@, r0, findings_view(w@));
        }
        i = i + 1;
    }
    assert(ls@.take(n as int) =~= ls@);
    r
}


pub open spec fn connected_roads_desc() -> Seq<char> {
    "Lane levels are not the same between two connected roads."@
}

/// A lane of `current` (in `road`) linked under `tag` to lane `id` of the
/// other road's lane section `other`, when the two levels differ.
pub open spec fn road_link_level(
    d: Seq<ElementView>,
    road: usize,
    current: usize,
    other: usize,
    tag: LinkageTag,
    lane: usize,
    id: i64,
) -> Seq<FindingView> {
    match lane_in_section(d, other as int, id) {
        None => Seq::empty(),
        Some(ol) => if lane_level(d, ol) != lane_level(d, lane) {
            seq![
                warning_finding(
                    connected_roads_desc(),
                    seq![
                        LocationRequest::Node(connected_roads_desc(), lane),
                        LocationRequest::Node(connected_roads_desc(), ol),
                        LocationRequest::Point(
                            connected_roads_desc(),
                            PointRequest::LaneMiddle(
                                road,
                                current,
                                lane,
                                if tag == LinkageTag::Predecessor { LanePosition::RoadStart } else { LanePosition::RoadEnd },
                            ),
                        ),
                    ],
                ),
            ]
        } else {
            Seq::empty()
        },
    }
}

/// The level changes between a road's lane section at one end and the lane
/// section of the road linked there.
pub open spec fn road_end_level_findings(d: Seq<ElementView>, road_ids: Seq<(i64, usize)>, road: usize, tag: LinkageTag) -> Seq<FindingView> {
    let own = if tag == LinkageTag::Predecessor { first_lane_section(d, road as int) } else { last_lane_section(d, road as int) };
    match own {
        None => Seq::empty(),
        Some(cur) => match road_linkage(d, road as int, tag) {
            None => Seq::empty(),
            Some(l) => match contact_lane_section_of_linkage(d, l, road_ids) {
                None => Seq::empty(),
                Some(o) => concat_map(
                    left_and_right_lanes(d, cur as int),
                    |lane: usize|
                        concat_map(
                            lane_link_ids(d, lane as int, tag),
                            |id: i64| road_link_level(d, road, cur, o.lane_section, tag, lane, id),
                        ),
                ),
            },
        },
    }
}

pub open spec fn road_level_fn(d: Seq<ElementView>, road_ids: Seq<(i64, usize)>) -> spec_fn(usize) -> Seq<FindingView> {
    |road: usize|
        road_end_level_findings(d, road_ids, road, LinkageTag::Predecessor) + road_end_level_findings(
            d,
            road_ids,
            road,
            LinkageTag::Successor,
        )
}

fn lane_road_link_levels(
    doc: &XmlDoc,
    road: usize,
    current: usize,
    other: usize,
    tag: LinkageTag,
    lane: usize,
) -> (r: Vec<Finding>)
    requires
        road < doc@.len(),
        current < doc@.len(),
        other < doc@.len(),
        lane < doc@.len(),
    ensures
        findings_view(r@) == concat_map(
            lane_link_ids(doc@, lane as int, tag),
            |id: i64| road_link_level(doc@, road, current, other, tag, lane, id),
        ),
        findings_in(doc@, findings_view(r@)),
{
    let ids = get_connecting_lane_ids(doc, lane, tag);
    let level = get_lane_level_from_lane(doc, lane);
    let ghost f = |id: i64| road_link_level(doc@, road, current, other, tag, lane, id);
    let mut r: Vec<Finding> = Vec::new();
    let n = ids.len();
    let mut i: usize = 0;
    assert(findings_view(r@) =~= concat_map(ids@.take(0), f));
    while i < n
        invariant
            i <= n,
            n == ids@.len(),
            lane < doc@.len(),
            other < doc@.len(),
            level == lane_level(doc@, lane),
            f == (|id: i64| road_link_level(doc@, road, current, other, tag, lane, id)),
            findings_view(r@) == concat_map(ids@.take(i as int), f),
            findings_in(doc@, findings_view(r@)),
        decreases n - i,
    {
        assert(ids@.take(i + 1).drop_last() =~= ids@.take(i as int));
        assert(concat_map(ids@.take(i + 1), f) == concat_map(ids@.take(i as int), f) + f(ids@[i as int]));
        let ghost r0 = findings_view(r@);
        match get_lane_from_lane_section(doc, other, ids[i]) {
            Some(ol) => {
                if get_lane_level_from_lane(doc, ol) != level {
                    let at = if tag == LinkageTag::Predecessor { LanePosition::RoadStart } else { LanePosition::RoadEnd };
                    let mut locs: Vec<FindingLocation> = Vec::new();
                    locs.push(FindingLocation::Node("Lane levels are not the same between two connected roads.".to_owned(), lane));
                    locs.push(FindingLocation::Node("Lane levels are not the same between two connected roads.".to_owned(), ol));
                    locs.push(FindingLocation::Point(
                        "Lane levels are not the same between two connected roads.".to_owned(),
                        PointRequest::LaneMiddle(road, current, lane, at),
                    ));
                    let fd = Finding {
                        description: "Lane levels are not the same between two connected roads.".to_owned(),
                        level: IssueSeverity::Warning,
                        locations: locs,
                    };
                    assert(fd@ =~= f(ids@[i as int])[0]) by {
                        assert(fd@.locations =~= f(ids@[i as int])[0].locations);
                    }
                    push_finding(&mut r, fd);
                    assert(findings_view(r@) =~= r0 + f(ids@[i as int]));
                    assert forall|a: int, b: int| 0 <= a < findings_view(r@).len() && 0 <= b < findings_view(r@)[a].locations.len() implies
                        crate::opendrive::checks::findings::location_in(doc@, #[trigger] findings_view(r@)[a].locations[b]) by {
                        if a < r0.len() {
                            assert(findings_view(r@)[a] == r0[a]);
                        }
                    }
                } else {
                    assert(findings_view(r@) =~= r0 + f(ids@[i as int]));
                }
            },
            None => {
                assert(findings_view(r@) =~= r0 + f(ids@[i as int]));
            },
        }
        i = i + 1;
    }
    assert(ids@.take(n as int) =~= ids@);
    r
}

fn road_end_level(doc: &XmlDoc, road_id_map: &Vec<(i64, usize)>, road: usize, tag: LinkageTag) -> (r: Vec<Finding>)
    requires
        road < doc@.len(),
        entries_in(doc@, road_id_map@),
    ensures
        findings_view(r@) == road_end_level_findings(doc@, road_id_map@, road, tag),
        findings_in(doc@, findings_view(r@)),
{
    let mut r: Vec<Finding> = Vec::new();
    assert(findings_view(r@) =~= Seq::<FindingView>::empty());
    let own = if tag == LinkageTag::Predecessor { get_first_lane_section(doc, road) } else { get_last_lane_section(doc, road) };
    let cur = match own {
        Some(x) => x,
        None => return r,
    };
    let l = match get_road_linkage(doc, road, tag) {
        Some(x) => x,
        None => return r,
    };
    let o = match get_contact_lane_section_from_linked_road(doc, &l, road_id_map) {
        Some(x) => x,
        None => return r,
    };
    let lanes = get_left_and_right_lanes_from_lane_section(doc, cur);
    let ghost f = |lane: usize|
        concat_map(
            lane_link_ids(doc@, lane as int, tag),
            |id: i64| road_link_level(doc@, road, cur, o.lane_section, tag, lane, id),
        );
    let n = lanes.len();
    let mut i: usize = 0;
    assert(findings_view(r@) =~= concat_map(lanes@.take(0), f));
    while i < n
        invariant
            i <= n,
            n == lanes@.len(),
            road < doc@.len(),
            cur < doc@.len(),
            o.lane_section < doc@.len(),
            forall|k: int| 0 <= k < lanes@.len() ==> #[trigger] lanes@[k] < doc@.len(),
            f == (|lane: usize|
                concat_map(
                    lane_link_ids(doc@, lane as int, tag),
                    |id: i64| road_link_level(doc@, road, cur, o.lane_section, tag, lane, id),
                )),
            findings_view(r@) == concat_map(lanes@.take(i as int), f),
            findings_in(doc@, findings_view(r@)),
        decreases n - i,
    {
        assert(lanes@.take(i + 1).drop_last() =~= lanes@.take(i as int));
        assert(concat_map(lanes@.take(i + 1), f) == concat_map(lanes@.take(i as int), f) + f(lanes@[i as int]));
        let w = lane_road_link_levels(doc, road, cur, o.lane_section, tag, lanes[i]);
        let ghost r0 = findings_view(r@);
        append_findings(&mut r, w);
        proof {
            lemma_findings_in_concat(doc@, r0, findings_view(w@));
        }
        i = i + 1;
    }
    assert(lanes@.take(n as int) =~= lanes@);
    r
}

pub open spec fn junction_level_desc() -> Seq<char> {
    "Lane levels are not the same between incoming road and junction."@
}

/// A lane link of a connection between an incoming lane and a connecting
/// lane of different levels.
pub open spec fn junction_link_level(d: Seq<ElementView>, incoming: usize, connection: usize, link: usize) -> Seq<FindingView> {
    match (int_attr(d, link as int, "from"@), int_attr(d, link as int, "to"@)) {
        (Some(a), Some(b)) => match (lane_in_section(d, incoming as int, a), lane_in_section(d, connection as int, b)) {
            (Some(il), Some(cl)) => if lane_level(d, il) != lane_level(d, cl) {
                seq![
                    warning_finding(
                        junction_level_desc(),
                        seq![LocationRequest::Node(junction_level_desc(), il), LocationRequest::Node(junction_level_desc(), cl)],
                    ),
                ]
            } else {
                Seq::empty()
            },
            _ => Seq::empty(),
        },
        _ => Seq::empty(),
    }
}

pub open spec fn junction_level_fn(d: Seq<ElementView>, road_ids: Seq<(i64, usize)>) -> spec_fn((usize, usize)) -> Seq<FindingView> {
    |p: (usize, usize)|
        match contacting_lane_sections(d, p.1 as int, road_ids) {
            None => Seq::empty(),
            Some(cls) => concat_map(
                children_with_tag(d, p.1 as int, "laneLink"@),
                |link: usize| junction_link_level(d, cls.incoming, cls.connection, link),
            ),
        }
}

fn junction_link_level_finding(doc: &XmlDoc, incoming: usize, connection: usize, link: usize) -> (r: Vec<Finding>)
    requires
        incoming < doc@.len(),
        connection < doc@.len(),
        link < doc@.len(),
    ensures
        findings_view(r@) == junction_link_level(doc@, incoming, connection, link),
        findings_in(doc@, findings_view(r@)),
{
    let mut r: Vec<Finding> = Vec::new();
    assert(findings_view(r@) =~= Seq::<FindingView>::empty());
    let a = match get_from_attribute_from_lane_link(doc, link) {
        Some(x) => x,
        None => return r,
    };
    let b = match get_to_attribute_from_lane_link(doc, link) {
        Some(x) => x,
        None => return r,
    };
    let il = match get_lane_from_lane_section(doc, incoming, a) {
        Some(x) => x,
        None => return r,
    };
    let cl = match get_lane_from_lane_section(doc, connection, b) {
        Some(x) => x,
        None => return r,
    };
    if get_lane_level_from_lane(doc, il) != get_lane_level_from_lane(doc, cl) {
        let mut locs: Vec<FindingLocation> = Vec::new();
        locs.push(FindingLocation::Node("Lane levels are not the same between incoming road and junction.".to_owned(), il));
        locs.push(FindingLocation::Node("Lane levels are not the same between incoming road and junction.".to_owned(), cl));
        let fd = Finding {
            description: "Lane levels are not the same between incoming road and junction.".to_owned(),
            level: IssueSeverity::Warning,
            locations: locs,
        };
        assert(fd@.locations =~= junction_link_level(doc@, incoming, connection, link)[0].locations);
        push_finding(&mut r, fd);
        assert(findings_view(r@) =~= junction_link_level(doc@, incoming, connection, link));
    }
    r
}

fn junction_level(doc: &XmlDoc, road_id_map: &Vec<(i64, usize)>, c: usize) -> (r: Vec<Finding>)
    requires
        c < doc@.len(),
        entries_in(doc@, road_id_map@),
    ensures
        findings_view(r@) == junction_level_fn(doc@, road_id_map@)((0usize, c)),
        findings_in(doc@, findings_view(r@)),
{
    let mut r: Vec<Finding> = Vec::new();
    assert(findings_view(r@) =~= Seq::<FindingView>::empty());
    let cls = match get_incoming_and_connection_contacting_lane_sections(doc, c, road_id_map) {
        Some(x) => x,
        None => return r,
    };
    let links = get_lane_links_from_connection(doc, c);
    let ghost f = |link: usize| junction_link_level(doc@, cls.incoming, cls.connection, link);
    let n = links.len();
    let mut i: usize = 0;
    assert(findings_view(r@) =~= concat_map(links@.take(0), f));
    while i < n
        invariant
            i <= n,
            n == links@.len(),
            cls.incoming < doc@.len(),
            cls.connection < doc@.len(),
            forall|k: int| 0 <= k < links@.len() ==> #[trigger] links@[k] < doc@.len(),
            f == (|link: usize| junction_link_level(doc@, cls.incoming, cls.connection, link)),
            findings_view(r@) == concat_map(links@.take(i as int), f),
            findings_in(doc@, findings_view(r@)),
        decreases n - i,
    {
        assert(links@.take(i + 1).drop_last() =~= links@.take(i as int));
        assert(concat_map(links@.take(i + 1), f) == concat_map(links@.take(i as int), f) + f(links@[i as int]));
        let w = junction_link_level_finding(doc, cls.incoming, cls.connection, links[i]);
        let ghost r0 = findings_view(r@);
        append_findings(&mut r, w);
        proof {
            lemma_findings_in_concat(doc@, r0, findings_view(w@));
        }
        i = i + 1;
    }
    assert(links@.take(n as int) =~= links@);
    r
}


/// What the lane level check finds: the level order within each lane
/// section (lane sections given by `sections`), then the level changes
/// between consecutive lane sections of each road, between linked roads,
/// and across junction connections.
pub open spec fn lane_level_findings(d: Seq<ElementView>, sections: Seq<(usize, Seq<usize>)>) -> Seq<FindingView> {
    let ids = id_entries(d, roads(d));
    concat_map(sections, road_sections_level_fn(d)) + concat_map(roads(d), road_sections_change_fn(d)) + concat_map(
        roads(d),
        road_level_fn(d, ids),
    ) + concat_map(junction_connections(d), junction_level_fn(d, ids))
}

/// The lane level check. `sections` gives, road by road, the lane sections
/// ordered by their start.
pub fn check_lane_level_true_one_side(doc: &XmlDoc, sections: &Vec<(usize, Vec<usize>)>) -> (r: Vec<Finding>)
    requires
        forall|k: int, q: int| 0 <= k < sections@.len() && 0 <= q < sections@[k].1@.len() ==> #[trigger] sections@[k].1@[q] < doc@.len(),
    ensures
        findings_view(r@) == lane_level_findings(doc@, sections_view(sections@)),
        findings_in(doc@, findings_view(r@)),
{
    let road_id_map = get_road_id_map(doc);
    let mut r = check_level_in_lane_section(doc, sections);
    let rs = crate::opendrive::utils::get_roads(doc);
    let ghost p0 = findings_view(r@);
    let ghost f = road_sections_change_fn(doc@);
    let n = rs.len();
    let mut i: usize = 0;
    assert(p0 + concat_map(rs@.take(0), f) =~= p0);
    while i < n
        invariant
            i <= n,
            n == rs@.len(),
            forall|k: int| 0 <= k < rs@.len() ==> #[trigger] rs@[k] < doc@.len(),
            f == road_sections_change_fn(doc@),
            findings_view(r@) == p0 + concat_map(rs@.take(i as int), f),
            findings_in(doc@, findings_view(r@)),
        decreases n - i,
    {
        assert(rs@.take(i + 1).drop_last() =~= rs@.take(i as int));
        assert(concat_map(rs@.take(i + 1), f) == concat_map(rs@.take(i as int), f) + f(rs@[i as int]));
        let w = sections_level(doc, rs[i]);
        let ghost r0 = findings_view(r@);
        append_findings(&mut r, w);
        proof {
            lemma_findings_in_concat(doc@, r0, findings_view(w@));
        }
        assert(findings_view(r@) =~= p0 + concat_map(rs@.take(i + 1), f));
        i = i + 1;
    }
    assert(rs@.take(n as int) =~= rs@);
    let ghost p1 = findings_view(r@);
    let ghost g = road_level_fn(doc@, road_id_map@);
    let mut i: usize = 0;
    assert(p1 + concat_map(rs@.take(0), g) =~= p1);
    while i < n
        invariant
            i <= n,
            n == rs@.len(),
            entries_in(doc@, road_id_map@),
            forall|k: int| 0 <= k < rs@.len() ==> #[trigger] rs@[k] < doc@.len(),
            g == road_level_fn(doc@, road_id_map@),
            findings_view(r@) == p1 + concat_map(rs@.take(i as int), g),
            findings_in(doc@, findings_view(r@)),
        decreases n - i,
    {
        assert(rs@.take(i + 1).drop_last() =~= rs@.take(i as int));
        assert(concat_map(rs@.take(i + 1), g) == concat_map(rs@.take(i as int), g) + g(rs@[i as int]));
        let w1 = road_end_level(doc, &road_id_map, rs[i], LinkageTag::Predecessor);
        let w2 = road_end_level(doc, &road_id_map, rs[i], LinkageTag::Successor);
        let ghost r0 = findings_view(r@);
        append_findings(&mut r, w1);
        proof {
            lemma_findings_in_concat(doc@, r0, findings_view(w1@));
        }
        let ghost r1 = findings_view(r@);
        append_findings(&mut r, w2);
        proof {
            lemma_findings_in_concat(doc@, r1, findings_view(w2@));
        }
        assert(findings_view(r@) =~= p1 + concat_map(rs@.take(i + 1), g));
        i = i + 1;
    }
    let ghost p2 = findings_view(r@);
    let pairs = get_junction_connections(doc);
    let ghost h = junction_level_fn(doc@, road_id_map@);
    let m = pairs.len();
    let mut j: usize = 0;
    assert(p2 + concat_map(pairs@.take(0), h) =~= p2);
    while j < m
        invariant
            j <= m,
            m == pairs@.len(),
            entries_in(doc@, road_id_map@),
            forall|k: int| 0 <= k < pairs@.len() ==> (#[trigger] pairs@[k]).0 < doc@.len() && pairs@[k].1 < doc@.len(),
            h == junction_level_fn(doc@, road_id_map@),
            findings_view(r@) == p2 + concat_map(pairs@.take(j as int), h),
            findings_in(doc@, findings_view(r@)),
        decreases m - j,
    {
        assert(pairs@.take(j + 1).drop_last() =~= pairs@.take(j as int));
        assert(concat_map(pairs@.take(j + 1), h) == concat_map(pairs@.take(j as int), h) + h(pairs@[j as int]));
        let w = junction_level(doc, &road_id_map, pairs[j].1);
        assert(h(pairs@[j as int]) == h((0usize, pairs@[j as int].1)));
        let ghost r0 = findings_view(r@);
        append_findings(&mut r, w);
        proof {
            lemma_findings_in_concat(doc@, r0, findings_view(w@));
        }
        assert(findings_view(r@) =~= p2 + concat_map(pairs@.take(j + 1), h));
        j = j + 1;
    }
    assert(pairs@.take(m as int) =~= pairs@);
    r
}


/// The semantic checkers
pub open spec fn semantic_table() -> Seq<(Seq<char>, Seq<char>, Seq<char>, Option<Seq<char>>)> {
    seq![
        ("check_asam_xodr_road_lane_level_true_one_side"@, "Road lane level must be true on one side."@, "asam.net:xodr:1.7.0:road.lane.level_true_one_side"@, None),
        ("check_asam_xodr_road_lane_access_no_mix_of_deny_or_allow"@, "Lane access must not mix deny and allow."@, "asam.net:xodr:1.7.0:road.lane.access.no_mix_of_deny_or_allow"@, None),
        ("check_asam_xodr_road_lane_link_lanes_across_lane_sections"@, "Lane links across lane sections."@, "asam.net:xodr:1.4.0:road.lane.link.lanes_across_lane_sections"@, None),
        ("check_asam_xodr_road_linkage_is_junction_needed"@, "Road linkage may require a junction."@, "asam.net:xodr:1.4.0:road.linkage.is_junction_needed"@, None),
        ("check_asam_xodr_road_lane_link_zero_width_at_start"@, "Lane link zero width at start."@, "asam.net:xodr:1.7.0:road.lane.link.zero_width_at_start"@, None),
        ("check_asam_xodr_road_lane_link_zero_width_at_end"@, "Lane link zero width at end."@, "asam.net:xodr:1.7.0:road.lane.link.zero_width_at_end"@, None),
        ("check_asam_xodr_road_lane_link_new_lane_appear"@, "New lane appears in lane link."@, "asam.net:xodr:1.4.0:road.lane.link.new_lane_appear"@, None),
        ("check_asam_xodr_junctions_connection_connect_road_no_incoming_road"@, "Connection road with no incoming road."@, "asam.net:xodr:1.4.0:junctions.connection.connect_road_no_incoming_road"@, None),
        ("check_asam_xodr_junctions_connection_one_connection_element"@, "One connection element."@, "asam.net:xodr:1.7.0:junctions.connection.one_connection_element"@, Some("<=1.7.0"@)),
        ("check_asam_xodr_junctions_connection_one_link_to_incoming"@, "One link to incoming road."@, "asam.net:xodr:1.8.0:junctions.connection.one_link_to_incoming"@, None),
        ("check_asam_xodr_junctions_connection_start_along_linkage"@, "Connection start along linkage."@, "asam.net:xodr:1.7.0:junctions.connection.start_along_linkage"@, None),
        ("check_asam_xodr_junctions_connection_end_opposite_linkage"@, "Connection end opposite linkage."@, "asam.net:xodr:1.7.0:junctions.connection.end_opposite_linkage"@, None),
    ]
}

/// The semantic checkers, in the order they run; each waits for the basic checks and goes by
/// the schema version.
pub fn specs() -> (r: Vec<CheckerSpec>)
    ensures
        r@.map_values(|c: CheckerSpec| spec_entry(c)) == semantic_table(),
        forall|k: int| 0 <= k < r@.len() ==> after_basic_checks(#[trigger] r@[k]),
{
    let mut r: Vec<CheckerSpec> = Vec::new();
    r.push(checker_after_basic(
        "check_asam_xodr_road_lane_level_true_one_side",
        "Road lane level must be true on one side.",
        "asam.net:xodr:1.7.0:road.lane.level_true_one_side",
        None,
    ));
    r.push(checker_after_basic(
        "check_asam_xodr_road_lane_access_no_mix_of_deny_or_allow",
        "Lane access must not mix deny and allow.",
        "asam.net:xodr:1.7.0:road.lane.access.no_mix_of_deny_or_allow",
        None,
    ));
    r.push(checker_after_basic(
        "check_asam_xodr_road_lane_link_lanes_across_lane_sections",
        "Lane links across lane sections.",
        "asam.net:xodr:1.4.0:road.lane.link.lanes_across_lane_sections",
        None,
    ));
    r.push(checker_after_basic(
        "check_asam_xodr_road_linkage_is_junction_needed",
        "Road linkage may require a junction.",
        "asam.net:xodr:1.4.0:road.linkage.is_junction_needed",
        None,
    ));
    r.push(checker_after_basic(
        "check_asam_xodr_road_lane_link_zero_width_at_start",
        "Lane link zero width at start.",
        "asam.net:xodr:1.7.0:road.lane.link.zero_width_at_start",
        None,
    ));
    r.push(checker_after_basic(
        "check_asam_xodr_road_lane_link_zero_width_at_end",
        "Lane link zero width at end.",
        "asam.net:xodr:1.7.0:road.lane.link.zero_width_at_end",
        None,
    ));
    r.push(checker_after_basic(
        "check_asam_xodr_road_lane_link_new_lane_appear",
        "New lane appears in lane link.",
        "asam.net:xodr:1.4.0:road.lane.link.new_lane_appear",
        None,
    ));
    r.push(checker_after_basic(
        "check_asam_xodr_junctions_connection_connect_road_no_incoming_road",
        "Connection road with no incoming road.",
        "asam.net:xodr:1.4.0:junctions.connection.connect_road_no_incoming_road",
        None,
    ));
    r.push(checker_after_basic(
        "check_asam_xodr_junctions_connection_one_connection_element",
        "One connection element.",
        "asam.net:xodr:1.7.0:junctions.connection.one_connection_element",
        Some("<=1.7.0"),
    ));
    r.push(checker_after_basic(
        "check_asam_xodr_junctions_connection_one_link_to_incoming",
        "One link to incoming road.",
        "asam.net:xodr:1.8.0:junctions.connection.one_link_to_incoming",
        None,
    ));
    r.push(checker_after_basic(
        "check_asam_xodr_junctions_connection_start_along_linkage",
        "Connection start along linkage.",
        "asam.net:xodr:1.7.0:junctions.connection.start_along_linkage",
        None,
    ));
    r.push(checker_after_basic(
        "check_asam_xodr_junctions_connection_end_opposite_linkage",
        "Connection end opposite linkage.",
        "asam.net:xodr:1.7.0:junctions.connection.end_opposite_linkage",
        None,
    ));
    assert(r@.map_values(|c: CheckerSpec| spec_entry(c)) =~= semantic_table());
    r
}


/// Whether `s` is ordered by key.
pub open spec fn sorted_by_key(s: Seq<(i64, usize)>) -> bool {
    forall|i: int, j: int| 0 <= i < j < s.len() ==> s[i].0 <= s[j].0
}

proof fn lemma_insert_by_key(t: Seq<(i64, usize)>, x: (i64, usize))
    ensures
        insert_by_key(t, x).to_multiset() == t.to_multiset().insert(x),
        insert_by_key(t, x).len() == t.len() + 1,
        sorted_by_key(t) ==> sorted_by_key(insert_by_key(t, x)),
    decreases t.len(),
{
    broadcast use vstd::seq_lib::group_to_multiset_ensures;
    broadcast use vstd::multiset::group_multiset_axioms;

    if t.len() == 0 {
        assert(seq![x] =~= Seq::<(i64, usize)>::empty().push(x));
    } else if t.last().0 <= x.0 {
    } else {
        let u = t.drop_last();
        lemma_insert_by_key(u, x);
        let v = insert_by_key(u, x);
        assert(t =~= u.push(t.last()));
        assert(v.push(t.last()).to_multiset() =~= t.to_multiset().insert(x));
        if sorted_by_key(t) {
            assert forall|i: int| 0 <= i < v.len() implies #[trigger] v[i].0 <= t.last().0 by {
                assert(v.to_multiset().count(v[i]) > 0) by {
                    assert(v.contains(v[i]));
                }
                if v[i] != x {
                    assert(u.to_multiset().count(v[i]) > 0);
                    assert(u.contains(v[i]));
                    let q = choose|q: int| 0 <= q < u.len() && u[q] == v[i];
                    assert(t[q] == u[q]);
                }
            }
            assert forall|i: int, j: int| 0 <= i < j < v.push(t.last()).len() implies v.push(t.last())[i].0
                <= v.push(t.last())[j].0 by {
                if j == v.len() {
                    assert(v.push(t.last())[i] == v[i]);
                } else {
                    assert(v.push(t.last())[i] == v[i]);
                    assert(v.push(t.last())[j] == v[j]);
                }
            }
        }
    }
}

/// Ordering by key keeps every element (as often as it occurs) and leaves
/// the elements ordered by key.
pub proof fn law_sort_by_key_orders(s: Seq<(i64, usize)>)
    ensures
        sorted_by_key(sort_by_key(s)),
        sort_by_key(s).to_multiset() == s.to_multiset(),
        sort_by_key(s).len() == s.len(),
    decreases s.len(),
{
    broadcast use vstd::seq_lib::group_to_multiset_ensures;

    if s.len() > 0 {
        law_sort_by_key_orders(s.drop_last());
        lemma_insert_by_key(sort_by_key(s.drop_last()), s.last());
        assert(s =~= s.drop_last().push(s.last()));
    }
}

} // verus!
