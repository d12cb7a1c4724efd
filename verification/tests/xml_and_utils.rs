use xodr_qcr::opendrive::models::{ContactPoint, LaneDirection, LinkageTag, TrafficHandRule};
use xodr_qcr::opendrive::utils;
use xodr_qcr::xml::XmlDoc;

fn parse(text: &str) -> XmlDoc {
    XmlDoc::parse(text).ok().expect("well-formed test document")
}

const TWO_ROADS: &str = r#"<?xml version="1.0"?>
<OpenDRIVE>
  <header revMajor="1" revMinor="7"/>
  <road id="1" junction="-1" rule="LHT">
    <link>
      <predecessor elementType="road" elementId="2" contactPoint="end"/>
      <successor elementType="junction" elementId="7"/>
    </link>
    <lanes>
      <laneSection s="0">
        <left>
          <lane id="1" level="true"><link><successor id="1"/></link></lane>
        </left>
        <right>
          <lane id="-1" direction="reversed"/>
          <lane id="-2" direction="sideways"/>
        </right>
      </laneSection>
      <laneSection s="10"/>
    </lanes>
  </road>
  <road id="2" junction="-1">
    <lanes><laneSection s="0"/></lanes>
  </road>
  <junction id="7">
    <connection id="0" incomingRoad="1" connectingRoad="2" contactPoint="start">
      <laneLink from="1" to="-1"/>
    </connection>
  </junction>
</OpenDRIVE>"#;

#[test]
fn parse_reports_error_position() {
    let e = XmlDoc::parse("<a><b></a>").err().expect("not well-formed");
    assert_eq!(e.row, 1);
    assert!(e.column > 1);
}

#[test]
fn xpath_indexes_same_tag_siblings_only() {
    let d = parse(TWO_ROADS);
    assert_eq!(d.xpath(0), "/OpenDRIVE");
    let roads = utils::get_roads(&d);
    assert_eq!(roads.len(), 2);
    assert_eq!(d.xpath(roads[0]), "/OpenDRIVE/road[1]");
    assert_eq!(d.xpath(roads[1]), "/OpenDRIVE/road[2]");
    let sections = utils::get_lane_sections(&d, roads[0]);
    assert_eq!(d.xpath(sections[0]), "/OpenDRIVE/road[1]/lanes/laneSection[1]");
    let header = d.first_child(0, "header").unwrap();
    assert_eq!(utils::node_xpath(&d, header), "/OpenDRIVE/header");
    assert_eq!(utils::node_row(&d, header), Some(3));
}

#[test]
fn to_int_trims_and_rejects() {
    assert_eq!(utils::to_int(" 42 "), Some(42));
    assert_eq!(utils::to_int("-7"), Some(-7));
    assert_eq!(utils::to_int("+3"), Some(3));
    assert_eq!(utils::to_int("1.5"), None);
    assert_eq!(utils::to_int(""), None);
    assert_eq!(utils::to_int("9223372036854775808"), None);
    assert_eq!(utils::to_int("-9223372036854775808"), Some(i64::MIN));
}

#[test]
fn xml_bool_ignores_case() {
    assert!(utils::xml_string_to_bool("TRUE"));
    assert!(utils::xml_string_to_bool("true"));
    assert!(!utils::xml_string_to_bool("yes"));
    assert!(!utils::xml_string_to_bool(" true"));
}

#[test]
fn schema_version_from_header() {
    let d = parse(TWO_ROADS);
    assert_eq!(utils::get_standard_schema_version(&d), Some("1.7.0".to_string()));
    let d2 = parse("<OpenDRIVE><header revMajor=\"1\"/></OpenDRIVE>");
    assert_eq!(utils::get_standard_schema_version(&d2), None);
}

#[test]
fn road_links_and_maps() {
    let d = parse(TWO_ROADS);
    let roads = utils::get_roads(&d);
    let map = utils::get_road_id_map(&d);
    assert_eq!(map, vec![(1, roads[0]), (2, roads[1])]);
    assert_eq!(utils::map_lookup(&map, 2), Some(roads[1]));
    assert_eq!(utils::map_lookup(&map, 3), None);
    let l = utils::get_road_linkage(&d, roads[0], LinkageTag::Predecessor).unwrap();
    assert_eq!(l.id, 2);
    assert!(l.contact_point == ContactPoint::End);
    assert!(utils::get_road_linkage(&d, roads[0], LinkageTag::Successor).is_none());
    assert_eq!(utils::get_linked_junction_id(&d, roads[0], LinkageTag::Successor), Some(7));
    assert_eq!(utils::get_predecessor_road_id(&d, roads[0]), Some(2));
    assert!(!utils::road_belongs_to_junction(&d, roads[0]));
    assert!(utils::get_traffic_hand_rule_from_road(&d, roads[0]) == TrafficHandRule::LHT);
    assert!(utils::get_traffic_hand_rule_from_road(&d, roads[1]) == TrafficHandRule::RHT);
    let link = utils::get_road_link_element(&d, roads[0], 2, LinkageTag::Predecessor).unwrap();
    assert_eq!(d.tag(link), "predecessor");
    let jmap = utils::get_junction_id_map(&d);
    assert_eq!(jmap.len(), 1);
}

#[test]
fn lanes_and_lane_links() {
    let d = parse(TWO_ROADS);
    let roads = utils::get_roads(&d);
    let first = utils::get_first_lane_section(&d, roads[0]).unwrap();
    let last = utils::get_last_lane_section(&d, roads[0]).unwrap();
    assert!(first != last);
    let lanes = utils::get_left_and_right_lanes_from_lane_section(&d, first);
    assert_eq!(lanes.len(), 3);
    assert_eq!(utils::get_left_lanes_from_lane_section(&d, first).len(), 1);
    assert_eq!(utils::get_right_lanes_from_lane_section(&d, first).len(), 2);
    let l1 = utils::get_lane_from_lane_section(&d, first, 1).unwrap();
    assert!(utils::get_lane_level_from_lane(&d, l1));
    assert_eq!(utils::get_successor_lane_ids(&d, l1), vec![1]);
    assert_eq!(utils::get_predecessor_lane_ids(&d, l1), Vec::<i64>::new());
    let r1 = utils::get_lane_from_lane_section(&d, first, -1).unwrap();
    assert!(utils::get_lane_direction(&d, r1) == Some(LaneDirection::Reversed));
    assert!(utils::get_lane_direction(&d, l1) == Some(LaneDirection::Standard));
    let r2 = utils::get_lane_from_lane_section(&d, first, -2).unwrap();
    assert!(utils::get_lane_direction(&d, r2).is_none());
    assert_eq!(utils::get_lane_id(&d, r2), Some(-2));
}

#[test]
fn junction_connections() {
    let d = parse(TWO_ROADS);
    let roads = utils::get_roads(&d);
    let js = utils::get_junctions(&d);
    let cs = utils::get_connections_from_junction(&d, js[0]);
    assert_eq!(cs.len(), 1);
    assert_eq!(utils::get_junction_id(&d, js[0]), Some(7));
    assert_eq!(utils::get_incoming_road_id_from_connection(&d, cs[0]), Some(1));
    assert_eq!(utils::get_connecting_road_id_from_connection(&d, cs[0]), Some(2));
    assert!(utils::get_contact_point_from_connection(&d, cs[0]) == Some(ContactPoint::Start));
    let links = utils::get_lane_links_from_connection(&d, cs[0]);
    assert_eq!(utils::get_from_attribute_from_lane_link(&d, links[0]), Some(1));
    assert_eq!(utils::get_to_attribute_from_lane_link(&d, links[0]), Some(-1));
    let map = utils::get_road_id_map(&d);
    let jmap = utils::get_junction_id_map(&d);
    let between = utils::get_connections_between_road_and_junction(&d, 1, 7, &map, &jmap, ContactPoint::End);
    assert_eq!(between.len(), 0);
    let of = utils::get_connections_of_connecting_road(&d, 2, js[0], ContactPoint::Start);
    assert_eq!(of, cs);
    let cls = utils::get_incoming_and_connection_contacting_lane_sections(&d, cs[0], &map);
    assert!(cls.is_none());
    let road2_ls = utils::get_first_lane_section(&d, roads[1]).unwrap();
    assert_eq!(
        utils::get_contact_lane_section_from_junction_connection_road(&d, roads[1], ContactPoint::End),
        Some(road2_ls)
    );
}

#[test]
fn enum_names_round_trip() {
    assert!(ContactPoint::from_str("start") == Some(ContactPoint::Start));
    assert!(ContactPoint::from_str("end") == Some(ContactPoint::End));
    assert!(ContactPoint::from_str("middle").is_none());
    assert_eq!(ContactPoint::End.value(), "end");
    assert_eq!(LinkageTag::Predecessor.value(), "predecessor");
    assert!(TrafficHandRule::from_str("RHT") == Some(TrafficHandRule::RHT));
    assert!(LaneDirection::from_str("both") == Some(LaneDirection::Both));
}
