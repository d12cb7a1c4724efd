//! Laws of the semantic checks: what the lane link direction rules accept,
//! which lanes the level check reports, and that the check of lane links
//! across lane sections looks both ways.
use vstd::prelude::*;

use crate::opendrive::checks::findings::{FindingView, LocationRequest};
use crate::opendrive::checks::semantic::{
    error_finding, lane_level, lane_link_direction_ok, level_one_side_desc, lht_rules, lht_to_rht_rules,
    missing_back_link_fn, missing_link_desc, one_direction_missing, rht_rules,
    rht_to_lht_rules, true_level_scan, two_sections_missing, lane_missing_links, lane_missing_links_fn, SideRule,
};
use crate::opendrive::models::{ContactPoint, ContactingLaneSection, LaneDirection, RoadLinkage};
use crate::opendrive::utils::{int_attr, lane_in_section, lane_link_ids, left_and_right_lanes};
use crate::result::IssueSeverity;
use crate::text::lemma_concat_map_contains;
use crate::xml::ElementView;

verus! {

/// Right-hand traffic on both roads, the connecting lane running along its road and the incoming
/// lane along its road or both ways. A connection entering the connecting
/// road at its start is judged at the connecting road's predecessor, one
/// entering at its end at its successor; without that link every lane link
/// is valid. With it, a lane link from a lane running both ways is valid
/// exactly when the connecting lane id is not negative (at the start) or
/// not positive (at the end); otherwise the signs of the incoming (`from`) and
/// connecting (`to`) lane ids that are valid depend on whether the other
/// road is met at its end or at its start, as stated.
pub proof fn law_rht_lane_link_direction(
    to_id: i64,
    from_id: i64,
    from_direction: LaneDirection,
    predecessor: Option<RoadLinkage>,
    successor: Option<RoadLinkage>,
    connection_contact_point: ContactPoint,
)
    requires
        from_direction != LaneDirection::Reversed,
    ensures
        lane_link_direction_ok(
            to_id,
            LaneDirection::Standard,
            from_id,
            from_direction,
            predecessor,
            successor,
            connection_contact_point,
            rht_rules().0,
            rht_rules().1,
        ) == match connection_contact_point {
            ContactPoint::Start => match predecessor {
                None => true,
                Some(l) => if from_direction == LaneDirection::Both {
                    to_id >= 0
                } else if l.contact_point == ContactPoint::End {
                    from_id <= 0 && to_id <= 0
                } else {
                    from_id >= 0 && to_id <= 0
                },
            },
            ContactPoint::End => match successor {
                None => true,
                Some(l) => if from_direction == LaneDirection::Both {
                    to_id <= 0
                } else if l.contact_point == ContactPoint::End {
                    from_id <= 0 && to_id >= 0
                } else {
                    from_id >= 0 && to_id >= 0
                },
            },
        },
{
}

/// Left-hand traffic on both roads, the connecting lane running along its road and the incoming
/// lane along its road or both ways. A connection entering the connecting
/// road at its start is judged at the connecting road's predecessor, one
/// entering at its end at its successor; without that link every lane link
/// is valid. With it, a lane link from a lane running both ways is valid
/// exactly when the connecting lane id is not negative (at the start) or
/// not positive (at the end); otherwise the signs of the incoming (`from`) and
/// connecting (`to`) lane ids that are valid depend on whether the other
/// road is met at its end or at its start, as stated.
pub proof fn law_lht_lane_link_direction(
    to_id: i64,
    from_id: i64,
    from_direction: LaneDirection,
    predecessor: Option<RoadLinkage>,
    successor: Option<RoadLinkage>,
    connection_contact_point: ContactPoint,
)
    requires
        from_direction != LaneDirection::Reversed,
    ensures
        lane_link_direction_ok(
            to_id,
            LaneDirection::Standard,
            from_id,
            from_direction,
            predecessor,
            successor,
            connection_contact_point,
            lht_rules().0,
            lht_rules().1,
        ) == match connection_contact_point {
            ContactPoint::Start => match predecessor {
                None => true,
                Some(l) => if from_direction == LaneDirection::Both {
                    to_id >= 0
                } else if l.contact_point == ContactPoint::End {
                    from_id >= 0 && to_id >= 0
                } else {
                    from_id <= 0 && to_id >= 0
                },
            },
            ContactPoint::End => match successor {
                None => true,
                Some(l) => if from_direction == LaneDirection::Both {
                    to_id <= 0
                } else if l.contact_point == ContactPoint::End {
                    from_id >= 0 && to_id <= 0
                } else {
                    from_id <= 0 && to_id <= 0
                },
            },
        },
{
}

/// A left-hand incoming road and a right-hand connecting road, the connecting lane running along its road and the incoming
/// lane along its road or both ways. A connection entering the connecting
/// road at its start is judged at the connecting road's predecessor, one
/// entering at its end at its successor; without that link every lane link
/// is valid. With it, a lane link from a lane running both ways is valid
/// exactly when the connecting lane id is not positive (at the start) or
/// not negative (at the end); otherwise the signs of the incoming (`from`) and
/// connecting (`to`) lane ids that are valid depend on whether the other
/// road is met at its end or at its start, as stated.
pub proof fn law_lht_to_rht_lane_link_direction(
    to_id: i64,
    from_id: i64,
    from_direction: LaneDirection,
    predecessor: Option<RoadLinkage>,
    successor: Option<RoadLinkage>,
    connection_contact_point: ContactPoint,
)
    requires
        from_direction != LaneDirection::Reversed,
    ensures
        lane_link_direction_ok(
            to_id,
            LaneDirection::Standard,
            from_id,
            from_direction,
            predecessor,
            successor,
            connection_contact_point,
            lht_to_rht_rules().0,
            lht_to_rht_rules().1,
        ) == match connection_contact_point {
            ContactPoint::Start => match predecessor {
                None => true,
                Some(l) => if from_direction == LaneDirection::Both {
                    to_id <= 0
                } else if l.contact_point == ContactPoint::End {
                    from_id >= 0 && to_id <= 0
                } else {
                    from_id <= 0 && to_id <= 0
                },
            },
            ContactPoint::End => match successor {
                None => true,
                Some(l) => if from_direction == LaneDirection::Both {
                    to_id >= 0
                } else if l.contact_point == ContactPoint::End {
                    from_id >= 0 && to_id >= 0
                } else {
                    from_id <= 0 && to_id >= 0
                },
            },
        },
{
}

/// A right-hand incoming road and a left-hand connecting road, the connecting lane running along its road and the incoming
/// lane along its road or both ways. A connection entering the connecting
/// road at its start is judged at the connecting road's predecessor, one
/// entering at its end at its successor; without that link every lane link
/// is valid. With it, a lane link from a lane running both ways is valid
/// exactly when the connecting lane id is not negative (at the start) or
/// not positive (at the end); otherwise the signs of the incoming (`from`) and
/// connecting (`to`) lane ids that are valid depend on whether the other
/// road is met at its end or at its start, as stated.
pub proof fn law_rht_to_lht_lane_link_direction(
    to_id: i64,
    from_id: i64,
    from_direction: LaneDirection,
    predecessor: Option<RoadLinkage>,
    successor: Option<RoadLinkage>,
    connection_contact_point: ContactPoint,
)
    requires
        from_direction != LaneDirection::Reversed,
    ensures
        lane_link_direction_ok(
            to_id,
            LaneDirection::Standard,
            from_id,
            from_direction,
            predecessor,
            successor,
            connection_contact_point,
            rht_to_lht_rules().0,
            rht_to_lht_rules().1,
        ) == match connection_contact_point {
            ContactPoint::Start => match predecessor {
                None => true,
                Some(l) => if from_direction == LaneDirection::Both {
                    to_id >= 0
                } else if l.contact_point == ContactPoint::End {
                    from_id <= 0 && to_id >= 0
                } else {
                    from_id >= 0 && to_id >= 0
                },
            },
            ContactPoint::End => match successor {
                None => true,
                Some(l) => if from_direction == LaneDirection::Both {
                    to_id <= 0
                } else if l.contact_point == ContactPoint::End {
                    from_id <= 0 && to_id <= 0
                } else {
                    from_id >= 0 && to_id <= 0
                },
            },
        },
{
}

/// A lane running against its road is judged as a lane running along it
/// with the opposite id, under every rule.
pub proof fn law_reversed_lane_takes_opposite_id(
    to_id: i64,
    to_direction: LaneDirection,
    from_id: i64,
    from_direction: LaneDirection,
    predecessor: Option<RoadLinkage>,
    successor: Option<RoadLinkage>,
    connection_contact_point: ContactPoint,
    at_start: SideRule,
    at_end: SideRule,
)
    requires
        to_id != i64::MIN,
        from_id != i64::MIN,
    ensures
        lane_link_direction_ok(to_id, LaneDirection::Reversed, from_id, from_direction, predecessor, successor,
            connection_contact_point, at_start, at_end)
            == lane_link_direction_ok(-to_id as i64, LaneDirection::Standard, from_id, from_direction, predecessor,
            successor, connection_contact_point, at_start, at_end),
        lane_link_direction_ok(to_id, to_direction, from_id, LaneDirection::Reversed, predecessor, successor,
            connection_contact_point, at_start, at_end)
            == lane_link_direction_ok(to_id, to_direction, -from_id as i64, LaneDirection::Standard, predecessor,
            successor, connection_contact_point, at_start, at_end),
{
}

/// Whether some lane of `s` has level true.
pub open spec fn some_level_true(d: Seq<ElementView>, s: Seq<(i64, usize)>) -> bool {
    exists|j: int| 0 <= j < s.len() && lane_level(d, #[trigger] s[j].1)
}

/// Walking the lanes of a side from the centre outwards, a lane of level
/// true has been seen exactly when one of the lanes walked has level true.
pub proof fn law_level_scan_seen(d: Seq<ElementView>, road: usize, ls: usize, s: Seq<(i64, usize)>)
    ensures
        true_level_scan(d, road, ls, s).0 == some_level_true(d, s),
    decreases s.len(),
{
    if s.len() > 0 {
        let t = s.drop_last();
        law_level_scan_seen(d, road, ls, t);
        assert(s.last() == s[s.len() - 1]);
        if some_level_true(d, t) {
            let j = choose|j: int| 0 <= j < t.len() && lane_level(d, #[trigger] t[j].1);
            assert(t[j] == s[j]);
        }
        if some_level_true(d, s) {
            let j = choose|j: int| 0 <= j < s.len() && lane_level(d, #[trigger] s[j].1);
            if j < t.len() {
                assert(t[j] == s[j]);
            }
        }
    }
}

/// One more lane walked outwards: it is reported, by one finding after those
/// of the lanes before it, exactly when its level is false and some lane
/// before it has level true; the finding is an error located first at that
/// lane. Otherwise the findings stay as they were.
pub proof fn law_level_scan_step(d: Seq<ElementView>, road: usize, ls: usize, s: Seq<(i64, usize)>, x: (i64, usize))
    ensures
        ({
            let before = true_level_scan(d, road, ls, s).1;
            let after = true_level_scan(d, road, ls, s.push(x)).1;
            if !lane_level(d, x.1) && some_level_true(d, s) {
                &&& after.len() == before.len() + 1
                &&& after.take(before.len() as int) == before
                &&& after.last().level == IssueSeverity::Error
                &&& after.last().description == level_one_side_desc()
                &&& after.last().locations[0] == LocationRequest::Node(level_one_side_desc(), x.1)
            } else {
                after == before
            }
        }),
{
    law_level_scan_seen(d, road, ls, s);
    assert(s.push(x).drop_last() =~= s);
    assert(s.push(x).last() == x);
    let before = true_level_scan(d, road, ls, s).1;
    let after = true_level_scan(d, road, ls, s.push(x)).1;
    if !lane_level(d, x.1) && some_level_true(d, s) {
        assert(after.take(before.len() as int) =~= before);
    }
}

/// The lane links between two touching lane sections that are not returned
/// are the same, whichever of the two sections is taken first.
pub proof fn law_two_sections_missing_symmetric(d: Seq<ElementView>, a: ContactingLaneSection, b: ContactingLaneSection)
    ensures
        two_sections_missing(d, a, b).to_multiset() == two_sections_missing(d, b, a).to_multiset(),
{
    let x = one_direction_missing(d, a, b);
    let y = one_direction_missing(d, b, a);
    vstd::seq_lib::lemma_multiset_commutative(x, y);
    vstd::seq_lib::lemma_multiset_commutative(y, x);
    assert(x.to_multiset().add(y.to_multiset()) =~= y.to_multiset().add(x.to_multiset()));
}

/// A lane of one lane section that links to a lane of the other, where that
/// lane does not link back to it, gives a "Missing lane link." error at the
/// lane not linking back; this holds in either direction between the two
/// touching lane sections.
pub proof fn law_unreturned_link_found(
    d: Seq<ElementView>,
    first: ContactingLaneSection,
    second: ContactingLaneSection,
    lane: usize,
    id: i64,
    cid: i64,
    back: usize,
)
    requires
        left_and_right_lanes(d, first.lane_section as int).contains(lane),
        int_attr(d, lane as int, "id"@) == Some(id),
        lane_link_ids(d, lane as int, first.linkage_tag).contains(cid),
        lane_in_section(d, second.lane_section as int, cid) == Some(back),
        !lane_link_ids(d, back as int, second.linkage_tag).contains(id),
    ensures
        two_sections_missing(d, first, second).contains(
            error_finding(missing_link_desc(), seq![LocationRequest::Node(missing_link_desc(), back)]),
        ),
        two_sections_missing(d, second, first).contains(
            error_finding(missing_link_desc(), seq![LocationRequest::Node(missing_link_desc(), back)]),
        ),
{
    let f = error_finding(missing_link_desc(), seq![LocationRequest::Node(missing_link_desc(), back)]);
    let g = missing_back_link_fn(d, second, id);
    assert(g(cid) == seq![f]);
    assert(g(cid)[0] == f);
    let links = lane_link_ids(d, lane as int, first.linkage_tag);
    let k = choose|k: int| 0 <= k < links.len() && links[k] == cid;
    assert(g(links[k]).contains(f));
    lemma_concat_map_contains(links, g, f);
    assert(lane_missing_links(d, first, second, lane).contains(f));
    let lanes = left_and_right_lanes(d, first.lane_section as int);
    let h = lane_missing_links_fn(d, first, second);
    let m = choose|m: int| 0 <= m < lanes.len() && lanes[m] == lane;
    assert(h(lanes[m]).contains(f));
    lemma_concat_map_contains(lanes, h, f);
    let x = one_direction_missing(d, first, second);
    let y = one_direction_missing(d, second, first);
    assert(x.contains(f));
    let i = choose|i: int| 0 <= i < x.len() && x[i] == f;
    assert((x + y)[i] == f);
    assert((y + x)[y.len() + i] == f);
}

/// Each finding of the links from `first` into `second` that are not
/// returned stands for one such link: a lane of `first` (with an id) linking
/// to a lane of `second` that does not link back to it, the finding being
/// the "Missing lane link." error at the lane not linking back. The lanes
/// and ids are returned.
pub proof fn law_missing_link_finding_explained(
    d: Seq<ElementView>,
    first: ContactingLaneSection,
    second: ContactingLaneSection,
    f: FindingView,
) -> (w: (usize, i64, i64, usize))
    requires
        one_direction_missing(d, first, second).contains(f),
    ensures
        left_and_right_lanes(d, first.lane_section as int).contains(w.0),
        int_attr(d, w.0 as int, "id"@) == Some(w.1),
        lane_link_ids(d, w.0 as int, first.linkage_tag).contains(w.2),
        lane_in_section(d, second.lane_section as int, w.2) == Some(w.3),
        !lane_link_ids(d, w.3 as int, second.linkage_tag).contains(w.1),
        f == error_finding(missing_link_desc(), seq![LocationRequest::Node(missing_link_desc(), w.3)]),
{
    let lanes = left_and_right_lanes(d, first.lane_section as int);
    let h = lane_missing_links_fn(d, first, second);
    lemma_concat_map_contains(lanes, h, f);
    let m = choose|m: int| 0 <= m < lanes.len() && #[trigger] h(lanes[m]).contains(f);
    let lane = lanes[m];
    assert(lanes.contains(lane));
    let id = int_attr(d, lane as int, "id"@).unwrap();
    let g = missing_back_link_fn(d, second, id);
    let ids = lane_link_ids(d, lane as int, first.linkage_tag);
    lemma_concat_map_contains(ids, g, f);
    let k = choose|k: int| 0 <= k < ids.len() && #[trigger] g(ids[k]).contains(f);
    let cid = ids[k];
    assert(ids.contains(cid));
    let back = lane_in_section(d, second.lane_section as int, cid).unwrap();
    assert(g(cid).contains(f));
    (lane, id, cid, back)
}

} // verus!
