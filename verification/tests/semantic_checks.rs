use xodr_qcr::opendrive::checks::findings::{record_findings, Finding, FindingLocation, LanePosition, PointRequest};
use xodr_qcr::opendrive::checks::{lane_width, new_lane, semantic};
use xodr_qcr::opendrive::models::{ContactPoint, LaneDirection, RoadLinkage};
use xodr_qcr::opendrive::utils;
use xodr_qcr::result::InertialLocation;
use xodr_qcr::xml::XmlDoc;
use xodr_qcr::{IssueSeverity, Result};

fn parse(text: &str) -> XmlDoc {
    XmlDoc::parse(text).ok().expect("well-formed test document")
}

// Element numbers (document order) are given in the comments.
const JUNCTION: &str = r#"<OpenDRIVE>
<header revMajor="1" revMinor="7"/>
<road id="1" junction="-1">
<link><successor elementType="junction" elementId="100"/></link>
<lanes><laneSection s="0"><right><lane id="-1"/></right></laneSection></lanes>
</road>
<road id="2" junction="-1">
<link><predecessor elementType="junction" elementId="100"/></link>
<lanes><laneSection s="0"><right><lane id="-1"/></right></laneSection></lanes>
</road>
<road id="10" junction="100">
<link>
<predecessor elementType="road" elementId="1" contactPoint="end"/>
<successor elementType="road" elementId="2" contactPoint="start"/>
</link>
<lanes><laneSection s="0"><right><lane id="-1"/></right></laneSection></lanes>
</road>
<junction id="100">
<connection id="0" incomingRoad="1" connectingRoad="10" contactPoint="start"><laneLink from="-1" to="-1"/></connection>
<connection id="1" incomingRoad="2" connectingRoad="10" contactPoint="start"/>
<connection id="2" incomingRoad="2" connectingRoad="10" contactPoint="end"/>
<connection id="3" incomingRoad="10" connectingRoad="10" contactPoint="end"/>
</junction>
</OpenDRIVE>"#;
// 0 OpenDRIVE, 1 header, 2 road 1 (3 link, 4 successor, 5 lanes, 6 laneSection,
// 7 right, 8 lane), 9 road 2 (10..15), 16 road 10 (17 link, 18 predecessor,
// 19 successor, 20 lanes, 21 laneSection, 22 right, 23 lane), 24 junction,
// 25 connection 0, 26 laneLink, 27 connection 1, 28 connection 2,
// 29 connection 3.

fn node_at(f: &Finding, k: usize) -> (String, usize) {
    match &f.locations[k] {
        FindingLocation::Node(d, n) => (d.clone(), *n),
        FindingLocation::Point(..) => panic!("expected an element location"),
    }
}

fn point_at(f: &Finding, k: usize) -> (String, PointRequest) {
    match &f.locations[k] {
        FindingLocation::Point(d, p) => (d.clone(), *p),
        FindingLocation::Node(..) => panic!("expected a point location"),
    }
}

#[test]
fn element_numbers_of_junction_document() {
    let d = parse(JUNCTION);
    assert_eq!(d.tag(16), "road");
    assert_eq!(d.attribute(16, "id"), Some("10"));
    assert_eq!(d.tag(24), "junction");
    assert_eq!(d.attribute(27, "id"), Some("1"));
    assert_eq!(d.attribute(29, "id"), Some("3"));
    assert_eq!(semantic::get_junction_connections(&d), vec![(24, 25), (24, 27), (24, 28), (24, 29)]);
}

#[test]
fn start_along_linkage_flags_other_incoming_road() {
    let d = parse(JUNCTION);
    let f = semantic::check_junction_connection_start_along_linkage(&d);
    assert_eq!(f.len(), 1);
    assert_eq!(f[0].level, IssueSeverity::Error);
    assert!(f[0].description.starts_with("The value 'start' shall be used"));
    assert_eq!(f[0].locations.len(), 2);
    assert_eq!(node_at(&f[0], 0), ("Contact point 'start' not used on predecessor road connection.".to_string(), 27));
    assert_eq!(point_at(&f[0], 1).1, PointRequest::RoadStart(16));
}

#[test]
fn end_opposite_linkage_flags_other_incoming_road() {
    let d = parse(JUNCTION);
    let f = semantic::check_junction_connection_end_opposite_linkage(&d);
    assert_eq!(f.len(), 1);
    assert!(f[0].description.starts_with("The value 'end' shall be used"));
    assert_eq!(node_at(&f[0], 0).1, 29);
    assert_eq!(point_at(&f[0], 1).1, PointRequest::RoadEnd(16));
}

#[test]
fn connecting_road_as_incoming_road() {
    let d = parse(JUNCTION);
    let f = semantic::check_junctions_connection_connect_road_no_incoming_road(&d);
    assert_eq!(f.len(), 1);
    assert_eq!(f[0].description, "Connecting roads shall not be incoming roads.");
    assert_eq!(node_at(&f[0], 0), ("Connection with connecting road found as incoming road.".to_string(), 29));
    assert_eq!(point_at(&f[0], 1), ("Incoming road which is also a connecting road.".to_string(), PointRequest::RoadMiddle(16)));
}

#[test]
fn connecting_road_reused_by_connections() {
    let d = parse(JUNCTION);
    let f = semantic::check_junctions_connection_one_connection_element(&d);
    assert_eq!(f.len(), 1);
    assert_eq!(f[0].description, "Connecting road 10 shall be represented by only one <connection> element.");
    let nodes: Vec<usize> = (0..4).map(|k| node_at(&f[0], k).1).collect();
    assert_eq!(nodes, vec![25, 27, 28, 29]);
    assert_eq!(point_at(&f[0], 4).1, PointRequest::RoadMiddle(16));
    assert_eq!(f[0].locations.len(), 5);
}

#[test]
fn pair_of_incoming_and_connecting_road_reused() {
    let d = parse(JUNCTION);
    let f = semantic::check_junctions_connection_one_link_to_incoming(&d);
    assert_eq!(f.len(), 1);
    assert_eq!(
        f[0].description,
        "Connecting road 10 shall be represented by at most one <connection> element per incoming road id."
    );
    assert_eq!(
        node_at(&f[0], 0),
        ("Connection with reused (incoming_road_id, connecting_road_id) = (2, 10) pair.".to_string(), 27)
    );
    assert_eq!(node_at(&f[0], 1).1, 28);
    assert_eq!(point_at(&f[0], 2).1, PointRequest::RoadStart(16));
    assert_eq!(point_at(&f[0], 3).1, PointRequest::RoadEnd(16));
}

#[test]
fn lane_link_against_traffic_is_found() {
    let text = JUNCTION.replace(r#"<laneLink from="-1" to="-1"/>"#, r#"<laneLink from="-1" to="1"/>"#);
    // The connecting road needs a lane 1 for the link to be looked at.
    let text = text.replace(
        r#"<lanes><laneSection s="0"><right><lane id="-1"/></right></laneSection></lanes>
</road>
<junction"#,
        r#"<lanes><laneSection s="0"><left><lane id="1"/></left><right><lane id="-1"/></right></laneSection></lanes>
</road>
<junction"#,
    );
    let d = parse(&text);
    let map = utils::get_road_id_map(&d);
    let connections = semantic::get_junction_connections(&d);
    let f = semantic::check_connection_lane_link_same_direction(&d, &map, connections[0].1);
    assert_eq!(f.len(), 1);
    assert_eq!(f[0].description, "A connecting road shall only have the <laneLink> element for that direction.");
    assert_eq!(d.tag(node_at(&f[0], 0).1), "laneLink");
    let all = semantic::check_junctions_connection_one_link_to_incoming(&d);
    assert_eq!(all.len(), 2);
    assert_eq!(all[0].description, f[0].description);
}

#[test]
fn right_hand_traffic_lane_directions() {
    let end = Some(RoadLinkage { id: 1, contact_point: ContactPoint::End });
    let start = Some(RoadLinkage { id: 1, contact_point: ContactPoint::Start });
    let s = LaneDirection::Standard;
    assert!(semantic::is_rht_lane_direction_valid(-1, s, -1, s, end, None, ContactPoint::Start));
    assert!(!semantic::is_rht_lane_direction_valid(1, s, -1, s, end, None, ContactPoint::Start));
    assert!(semantic::is_rht_lane_direction_valid(-1, s, 1, s, start, None, ContactPoint::Start));
    assert!(!semantic::is_rht_lane_direction_valid(-1, s, -1, s, start, None, ContactPoint::Start));
    // A reversed lane counts with the opposite sign.
    assert!(semantic::is_rht_lane_direction_valid(1, LaneDirection::Reversed, -1, s, end, None, ContactPoint::Start));
    // Both lanes in both directions are always valid.
    let both = LaneDirection::Both;
    assert!(semantic::is_rht_lane_direction_valid(5, both, 5, both, end, end, ContactPoint::End));
    // Without the linkage of the contact point nothing is checked.
    assert!(semantic::is_rht_lane_direction_valid(1, s, 1, s, None, None, ContactPoint::Start));
    assert!(semantic::is_rht_lane_direction_valid(1, s, -1, s, None, end, ContactPoint::End));
    assert!(!semantic::is_rht_lane_direction_valid(-1, s, -1, s, None, end, ContactPoint::End));
}

#[test]
fn left_hand_traffic_lane_directions() {
    let end = Some(RoadLinkage { id: 1, contact_point: ContactPoint::End });
    let s = LaneDirection::Standard;
    assert!(semantic::is_lht_lane_direction_valid(1, s, 1, s, end, None, ContactPoint::Start));
    assert!(!semantic::is_lht_lane_direction_valid(-1, s, -1, s, end, None, ContactPoint::Start));
    let r1 = semantic::is_lht_to_rht_lane_direction_valid(-1, s, 1, s, end, None, ContactPoint::Start);
    let r2 = semantic::is_rht_to_lht_lane_direction_valid(1, s, -1, s, end, None, ContactPoint::Start);
    assert!(r1);
    assert!(r2);
    assert!(!semantic::is_lht_to_rht_lane_direction_valid(-1, s, -1, s, end, None, ContactPoint::Start));
}

const AMBIGUOUS: &str = r#"<OpenDRIVE>
<road id="1" junction="-1"><link><successor elementType="road" elementId="3" contactPoint="start"/></link></road>
<road id="2" junction="-1"><link><successor elementType="road" elementId="3" contactPoint="start"/></link></road>
<road id="3" junction="-1"/>
</OpenDRIVE>"#;
// 0 OpenDRIVE, 1 road 1, 2 link, 3 successor, 4 road 2, 5 link, 6 successor, 7 road 3.

#[test]
fn ambiguous_linkage_needs_junction() {
    assert_eq!(
        semantic::create_contact_point_id(&RoadLinkage { id: 3, contact_point: ContactPoint::Start }),
        "3-start"
    );
    let d = parse(AMBIGUOUS);
    let f = semantic::check_road_linkage_is_junction_needed(&d);
    assert_eq!(f.len(), 1);
    assert_eq!(f[0].description, "Road cannot have ambiguous predecessor a junction is needed.");
    assert_eq!(node_at(&f[0], 0).1, 3);
    assert_eq!(node_at(&f[0], 1).1, 6);
    assert_eq!(point_at(&f[0], 2), ("Point where the linkage is not clear.".to_string(), PointRequest::RoadStart(7)));
}

#[test]
fn single_road_needs_no_junction() {
    let d = parse(r#"<OpenDRIVE><road id="1"><link><successor elementType="road" elementId="1" contactPoint="end"/></link></road></OpenDRIVE>"#);
    assert!(semantic::check_road_linkage_is_junction_needed(&d).is_empty());
}

const SECTIONS: &str = r#"<OpenDRIVE>
<road id="1" junction="-1">
<lanes>
<laneSection s="0"><right><lane id="-1"><link><successor id="-1"/></link></lane></right></laneSection>
<laneSection s="5"><right><lane id="-1"/></right></laneSection>
</lanes>
</road>
</OpenDRIVE>"#;
// 0 OpenDRIVE, 1 road, 2 lanes, 3 laneSection, 4 right, 5 lane, 6 link,
// 7 successor, 8 laneSection, 9 right, 10 lane.

#[test]
fn missing_return_lane_link() {
    let d = parse(SECTIONS);
    let f = semantic::check_lanes_across_lane_sections(&d);
    assert_eq!(f.len(), 1);
    assert_eq!(f[0].description, "Missing lane link.");
    assert_eq!(node_at(&f[0], 0).1, 10);
    let fixed = SECTIONS.replace(
        r#"<laneSection s="5"><right><lane id="-1"/>"#,
        r#"<laneSection s="5"><right><lane id="-1"><link><predecessor id="-1"/></link></lane>"#,
    );
    assert!(semantic::check_lanes_across_lane_sections(&parse(&fixed)).is_empty());
}

const LEVELS: &str = r#"<OpenDRIVE>
<road id="1" junction="-1">
<lanes>
<laneSection s="0">
<left><lane id="2" level="false"/><lane id="1" level="true"/></left>
<right><lane id="-1" level="true"/><lane id="-2" level="false"/></right>
</laneSection>
</lanes>
</road>
</OpenDRIVE>"#;
// 0 OpenDRIVE, 1 road, 2 lanes, 3 laneSection, 4 left, 5 lane 2, 6 lane 1,
// 7 right, 8 lane -1, 9 lane -2.

#[test]
fn level_false_after_true_on_one_side() {
    let d = parse(LEVELS);
    let sections = vec![(1usize, vec![3usize])];
    let f = semantic::check_level_in_lane_section(&d, &sections);
    // Left lanes are taken by id (1 then 2), right lanes by |id| (-1 then -2).
    assert_eq!(f.len(), 2);
    assert_eq!(node_at(&f[0], 0).1, 5);
    assert_eq!(node_at(&f[1], 0).1, 9);
    assert_eq!(point_at(&f[1], 1).1, PointRequest::LaneMiddle(1, 3, 9, LanePosition::SectionMiddle));
    assert_eq!(f[0].description, "Lane level False encountered on same side after True set.");
    let all = semantic::check_lane_level_true_one_side(&d, &sections);
    assert_eq!(all.len(), 2);
}

#[test]
fn level_differs_between_linked_roads() {
    let d = parse(r#"<OpenDRIVE>
<road id="1" junction="-1">
<link><successor elementType="road" elementId="2" contactPoint="start"/></link>
<lanes><laneSection s="0"><right><lane id="-1" level="true"><link><successor id="-1"/></link></lane></right></laneSection></lanes>
</road>
<road id="2" junction="-1">
<lanes><laneSection s="0"><right><lane id="-1"/></right></laneSection></lanes>
</road>
</OpenDRIVE>"#);
    let f = semantic::check_lane_level_true_one_side(&d, &vec![]);
    assert_eq!(f.len(), 1);
    assert_eq!(f[0].level, IssueSeverity::Warning);
    assert_eq!(f[0].description, "Lane levels are not the same between two connected roads.");
}

#[test]
fn stable_sort_keeps_equal_keys_in_order() {
    let v = vec![(3, 0), (-1, 1), (3, 2), (0, 3), (-1, 4)];
    assert_eq!(semantic::sort_by_key_stable(&v), vec![(-1, 1), (-1, 4), (0, 3), (3, 0), (3, 2)]);
    assert!(semantic::sort_by_key_stable(&vec![]).is_empty());
}

#[test]
fn findings_become_issues() {
    let d = parse(JUNCTION);
    let f = semantic::check_junctions_connection_one_connection_element(&d);
    let mut r = Result::new();
    r.register_checker("c", "desc");
    let p = InertialLocation { x: "1".to_string(), y: "2".to_string(), z: "0".to_string() };
    let points = vec![vec![None, None, None, None, Some(p)]];
    record_findings(&mut r, &d, "c", "rule", &f, &points);
    let checker = &r.bundle.checkers[0];
    assert_eq!(checker.issues.len(), 1);
    let issue = &checker.issues[0];
    assert_eq!(issue.rule_uid, "rule");
    // Each element gives an xml and a file location; the point one more.
    assert_eq!(issue.locations.len(), 9);
    assert_eq!(issue.locations[0].xml[0].xpath, "/OpenDRIVE/junction/connection[1]");
    assert_eq!(issue.locations[8].inertial[0].y, "2");
    assert!(r.has_errors());
}

#[test]
fn semantic_checkers_are_registered_with_rules() {
    let specs = semantic::specs();
    assert_eq!(specs.len(), 12);
    assert!(specs.iter().all(|s| s.rule_uid.starts_with("asam.net:xodr:")));
    assert!(specs.iter().any(|s| s.id == "check_asam_xodr_road_lane_level_true_one_side"));
}

const ZERO_WIDTH: &str = r#"<OpenDRIVE>
<road id="1" junction="-1">
<lanes>
<laneSection s="0">
<right>
<lane id="-1"><link><predecessor id="-1"/><successor id="-1"/></link></lane>
<lane id="-2"/>
<lane><link><predecessor id="-3"/></link></lane>
</right>
</laneSection>
</lanes>
</road>
</OpenDRIVE>"#;
// 0 OpenDRIVE, 1 road, 2 lanes, 3 laneSection, 4 right, 5 lane -1, 6 link,
// 7 predecessor, 8 successor, 9 lane -2, 10 lane without id, 11 link,
// 12 predecessor.

#[test]
fn zero_width_lanes_with_predecessors() {
    let d = parse(ZERO_WIDTH);
    let f = lane_width::check_zero_width_at_start(&d, &vec![5, 9, 10]);
    assert_eq!(f.len(), 2);
    assert_eq!(
        f[0].description,
        " Lanes that have a width of zero at the beginning of the lane section shall have no predecessor element."
    );
    assert_eq!(f[0].level, IssueSeverity::Error);
    assert_eq!(node_at(&f[0], 0), ("Lane with width zero and predecessors.".to_string(), 5));
    assert_eq!(point_at(&f[0], 1).1, PointRequest::LaneMiddle(1, 3, 5, LanePosition::SectionStart));
    // A lane without id counts as a center lane.
    assert_eq!(f[1].level, IssueSeverity::Warning);
    assert_eq!(node_at(&f[1], 0).1, 10);
    assert!(lane_width::check_zero_width_at_start(&d, &vec![9]).is_empty());
}

#[test]
fn zero_width_lanes_with_successors() {
    let d = parse(ZERO_WIDTH);
    let f = lane_width::check_zero_width_at_end(&d, &vec![(1, vec![3])], &vec![5, 9]);
    assert_eq!(f.len(), 1);
    assert_eq!(f[0].description, " Lanes that have a width of zero at the end of the lane section shall have no successor element.");
    assert_eq!(node_at(&f[0], 0), ("Lane with width zero and successors.".to_string(), 5));
    assert_eq!(point_at(&f[0], 1).1, PointRequest::LaneMiddle(1, 3, 5, LanePosition::SectionEnd));
    // Lane sections left out of the ordered list are not looked at.
    assert!(lane_width::check_zero_width_at_end(&d, &vec![(1, vec![])], &vec![5]).is_empty());
}

#[test]
fn zero_width_lane_reached_by_junction_link() {
    let d = parse(r#"<OpenDRIVE>
<road id="10" junction="100"><lanes><laneSection s="0"><right><lane id="-1"/></right></laneSection></lanes></road>
<junction id="100"><connection incomingRoad="1" connectingRoad="10" contactPoint="start"><laneLink from="-1" to="-1"/></connection></junction>
</OpenDRIVE>"#);
    let f = lane_width::check_zero_width_at_start(&d, &vec![5]);
    assert_eq!(f.len(), 1);
    assert_eq!(node_at(&f[0], 0).1, 5);
    assert_eq!(point_at(&f[0], 1).1, PointRequest::LaneMiddle(1, 3, 5, LanePosition::SectionStart));
    // At the end the connection (contact point start) does not count.
    assert!(lane_width::check_zero_width_at_end(&d, &vec![(1, vec![3])], &vec![5]).is_empty());
}

const APPEARING: &str = r#"<OpenDRIVE>
<road id="1" junction="-1">
<link><successor elementType="road" elementId="2" contactPoint="start"/></link>
<lanes>
<laneSection s="0"><right><lane id="-1"><link><successor id="-1"/><successor id="-2"/></link></lane></right></laneSection>
</lanes>
</road>
<road id="2" junction="-1">
<lanes>
<laneSection s="0"><right><lane id="-1"/><lane id="-2"/></right></laneSection>
</lanes>
</road>
</OpenDRIVE>"#;
// 0 OpenDRIVE, 1 road 1, 2 link, 3 successor, 4 lanes, 5 laneSection,
// 6 right, 7 lane -1, 8 link, 9 successor, 10 successor, 11 road 2, 12 lanes,
// 13 laneSection, 14 right, 15 lane -1, 16 lane -2.

#[test]
fn appearing_lane_linked_to_original_lane() {
    let d = parse(APPEARING);
    let sections = vec![(1usize, vec![5usize]), (11, vec![13])];
    assert!(new_lane::new_lane_lengths_known(&d, &sections));
    let f = new_lane::check_new_lane_appear(&d, &sections, &vec![16], &vec![], &vec![]);
    assert_eq!(f.len(), 1);
    assert_eq!(
        f[0].description,
        "If a new lane appears besides, only the continuing lane shall be connected to the original lane, not the appearing lane."
    );
    assert_eq!(node_at(&f[0], 0), ("Lane with successor with width zero.".to_string(), 7));
    assert_eq!(node_at(&f[0], 1), ("Successor lane with width zero.".to_string(), 16));
    // Only the start widths count for a contact point at the start.
    assert!(new_lane::check_new_lane_appear(&d, &sections, &vec![], &vec![16], &vec![16]).is_empty());
}

#[test]
fn appearing_lane_needs_ordered_sections_of_linked_road() {
    let d = parse(APPEARING);
    assert!(!new_lane::new_lane_lengths_known(&d, &vec![(1, vec![5]), (11, vec![])]));
}

#[test]
fn appearing_lane_between_lane_sections() {
    let d = parse(r#"<OpenDRIVE><road id="1" junction="-1"><lanes>
<laneSection s="0"><right><lane id="-1"><link><successor id="-2"/></link></lane></right></laneSection>
<laneSection s="5"><right><lane id="-1"/><lane id="-2"/></right></laneSection>
</lanes></road></OpenDRIVE>"#);
    // 0 OpenDRIVE, 1 road, 2 lanes, 3 laneSection, 4 right, 5 lane, 6 link,
    // 7 successor, 8 laneSection, 9 right, 10 lane -1, 11 lane -2.
    let f = new_lane::check_new_lane_appear(&d, &vec![(1, vec![3, 8])], &vec![11], &vec![], &vec![]);
    assert_eq!(f.len(), 1);
    assert_eq!(node_at(&f[0], 0).1, 5);
    assert_eq!(node_at(&f[0], 1).1, 11);
    // Taken in the other order, the lane sections are not linked that way.
    assert!(new_lane::check_new_lane_appear(&d, &vec![(1, vec![8, 3])], &vec![11], &vec![], &vec![]).is_empty());
}
