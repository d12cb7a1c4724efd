use xodr_qcr::opendrive::checks::bundle::bundle_specs;
use xodr_qcr::opendrive::checks::findings::record_findings;
use xodr_qcr::opendrive::checks::{basic, finish_checker, prepare_checker, schema_version_after_basic_checks, semantic};
use xodr_qcr::xml::XmlDoc;
use xodr_qcr::{IssueSeverity, Result, StatusType};

const C_NO_INCOMING: &str = "check_asam_xodr_junctions_connection_connect_road_no_incoming_road";
const R_NO_INCOMING: &str = "asam.net:xodr:1.4.0:junctions.connection.connect_road_no_incoming_road";
const C_JUNCTION_NEEDED: &str = "check_asam_xodr_road_linkage_is_junction_needed";
const R_JUNCTION_NEEDED: &str = "asam.net:xodr:1.4.0:road.linkage.is_junction_needed";
const C_ONE_CONN: &str = "check_asam_xodr_junctions_connection_one_connection_element";
const R_ONE_CONN: &str = "asam.net:xodr:1.7.0:junctions.connection.one_connection_element";

/// Runs the basic checks and then the semantic checker `id` on a document
/// whose schema check has passed.
fn run_semantic(text: &str, id: &str) -> Result {
    let d = XmlDoc::parse(text).ok().expect("well-formed test document");
    let specs = bundle_specs();
    let mut r = Result::new();
    for spec in specs.iter().take(4) {
        if !prepare_checker(&mut r, spec, None) {
            continue;
        }
        match spec.id {
            "check_asam_xodr_xml_valid_xml_document" => basic::valid_xml_document_run(&mut r, Ok(text)),
            "check_asam_xodr_xml_root_tag_is_opendrive" => basic::root_tag_is_opendrive_run(&mut r, Some(&d)),
            "check_asam_xodr_xml_fileheader_is_present" => basic::fileheader_is_present_run(&mut r, Some(&d)),
            _ => basic::version_is_defined_run(&mut r, Some(&d)),
        }
        finish_checker(&mut r, spec.id);
    }
    let version = schema_version_after_basic_checks(&r, Some(&d));
    let schema = &specs[4];
    if prepare_checker(&mut r, schema, version.as_deref()) {
        finish_checker(&mut r, schema.id);
    }
    let spec = specs.iter().find(|s| s.id == id).expect("a checker of the bundle");
    if prepare_checker(&mut r, spec, version.as_deref()) {
        let findings = match id {
            C_NO_INCOMING => semantic::check_junctions_connection_connect_road_no_incoming_road(&d),
            C_JUNCTION_NEEDED => semantic::check_road_linkage_is_junction_needed(&d),
            _ => semantic::check_junctions_connection_one_connection_element(&d),
        };
        let points = findings.iter().map(|f| vec![None; f.locations.len()]).collect();
        record_findings(&mut r, &d, spec.id, spec.rule_uid, &findings, &points);
        finish_checker(&mut r, spec.id);
    }
    r
}

fn check_issues(r: &Result, rule: &str, count: usize, xpaths: &[&str], level: IssueSeverity, checker: &str) {
    assert_eq!(r.get_checker_status(checker), Some(StatusType::Completed));
    let issues: Vec<_> = r.bundle.checkers.iter().flat_map(|c| &c.issues).filter(|i| i.rule_uid == rule).collect();
    assert_eq!(issues.len(), count);
    let found: Vec<&str> = issues.iter().flat_map(|i| &i.locations).flat_map(|l| &l.xml).map(|x| x.xpath.as_str()).collect();
    for x in xpaths {
        assert!(found.contains(x), "expected xpath not found: {x}; found {found:?}");
    }
    for i in issues {
        assert_eq!(i.level, level);
    }
}

fn check_skipped(r: &Result, rule: &str, checker: &str) {
    assert_eq!(r.get_checker_status(checker), Some(StatusType::Skipped));
    assert_eq!(r.bundle.checkers.iter().flat_map(|c| &c.issues).filter(|i| i.rule_uid == rule).count(), 0);
}

/// Two incoming roads and a connecting road between them in one junction.
fn one_junction(major_minor: &str, connections: &str) -> String {
    format!(
        r#"<OpenDRIVE>
    <header {major_minor}/>
    <road id="1" junction="-1" length="10.0"><link><successor elementType="junction" elementId="100"/></link></road>
    <road id="2" junction="-1" length="10.0"><link><predecessor elementType="junction" elementId="100"/></link></road>
    <road id="10" junction="100" length="5.0">
        <link>
            <predecessor elementType="road" elementId="1" contactPoint="end"/>
            <successor elementType="road" elementId="2" contactPoint="start"/>
        </link>
    </road>
    <road id="11" junction="100" length="5.0">
        <link>
            <predecessor elementType="road" elementId="2" contactPoint="start"/>
            <successor elementType="road" elementId="1" contactPoint="end"/>
        </link>
    </road>
    <junction id="100">
{connections}
    </junction>
</OpenDRIVE>
"#
    )
}

const TWO_CONNECTING_ROADS: &str = r#"        <connection id="0" incomingRoad="1" connectingRoad="10" contactPoint="start"/>
        <connection id="1" incomingRoad="2" connectingRoad="11" contactPoint="start"/>"#;

const ONE_CONNECTING_ROAD_TWICE: &str = r#"        <connection id="0" incomingRoad="1" connectingRoad="10" contactPoint="start"/>
        <connection id="1" incomingRoad="2" connectingRoad="10" contactPoint="end"/>"#;

#[test]
fn test_junctions_connection_road_no_incoming_road() {
    let valid = one_junction(r#"revMajor="1" revMinor="7""#, TWO_CONNECTING_ROADS);
    let r = run_semantic(&valid, C_NO_INCOMING);
    check_issues(&r, R_NO_INCOMING, 0, &[], IssueSeverity::Error, C_NO_INCOMING);

    // A second junction whose connections come in on the connecting roads
    // of the first.
    let invalid = valid.replace(
        "</OpenDRIVE>",
        r#"<junction id="200">
        <connection id="0" incomingRoad="10" connectingRoad="11" contactPoint="start"/>
        <connection id="1" incomingRoad="11" connectingRoad="10" contactPoint="start"/>
    </junction>
</OpenDRIVE>"#,
    );
    let r = run_semantic(&invalid, C_NO_INCOMING);
    check_issues(
        &r,
        R_NO_INCOMING,
        2,
        &["/OpenDRIVE/junction[2]/connection[1]", "/OpenDRIVE/junction[2]/connection[2]"],
        IssueSeverity::Error,
        C_NO_INCOMING,
    );
}

#[test]
fn test_junctions_connection_one_connection_element() {
    let r = run_semantic(&one_junction(r#"revMajor="1" revMinor="7""#, TWO_CONNECTING_ROADS), C_ONE_CONN);
    check_issues(&r, R_ONE_CONN, 0, &[], IssueSeverity::Error, C_ONE_CONN);

    let r = run_semantic(&one_junction(r#"revMajor="1" revMinor="7""#, ONE_CONNECTING_ROAD_TWICE), C_ONE_CONN);
    check_issues(
        &r,
        R_ONE_CONN,
        1,
        &["/OpenDRIVE/junction/connection[1]", "/OpenDRIVE/junction/connection[2]"],
        IssueSeverity::Error,
        C_ONE_CONN,
    );
}

#[test]
fn test_junctions_connection_one_connection_element_applicable_version() {
    // 1.8: after the versions the rule applies to.
    let r = run_semantic(&one_junction(r#"revMajor="1" revMinor="8""#, TWO_CONNECTING_ROADS), C_ONE_CONN);
    check_skipped(&r, R_ONE_CONN, C_ONE_CONN);

    // 1.6: before the rule's version.
    let r = run_semantic(&one_junction(r#"revMajor="1" revMinor="6""#, ONE_CONNECTING_ROAD_TWICE), C_ONE_CONN);
    check_skipped(&r, R_ONE_CONN, C_ONE_CONN);
}

/// Three roads; `link2` and `link3` are the links of roads 2 and 3.
fn three_roads(link2: &str, link3: &str) -> String {
    format!(
        r#"<OpenDRIVE>
    <header revMajor="1" revMinor="7"/>
    <road id="1" junction="-1" length="10.0"/>
    <road id="2" junction="-1" length="10.0"><link>{link2}</link></road>
    <road id="3" junction="-1" length="10.0"><link>{link3}</link></road>
</OpenDRIVE>
"#
    )
}

#[test]
fn test_road_linkage_is_junction_needed() {
    let valid = three_roads(
        r#"<predecessor elementType="road" elementId="1" contactPoint="end"/>"#,
        r#"<predecessor elementType="road" elementId="2" contactPoint="end"/>"#,
    );
    let r = run_semantic(&valid, C_JUNCTION_NEEDED);
    check_issues(&r, R_JUNCTION_NEEDED, 0, &[], IssueSeverity::Error, C_JUNCTION_NEEDED);

    let invalid = three_roads(
        r#"<predecessor elementType="road" elementId="1" contactPoint="end"/>"#,
        r#"<predecessor elementType="road" elementId="1" contactPoint="end"/>"#,
    );
    let r = run_semantic(&invalid, C_JUNCTION_NEEDED);
    check_issues(
        &r,
        R_JUNCTION_NEEDED,
        1,
        &["/OpenDRIVE/road[2]/link/predecessor", "/OpenDRIVE/road[3]/link/predecessor"],
        IssueSeverity::Error,
        C_JUNCTION_NEEDED,
    );

    let converge = three_roads(
        r#"<successor elementType="road" elementId="1" contactPoint="start"/>"#,
        r#"<successor elementType="road" elementId="1" contactPoint="start"/>"#,
    );
    let r = run_semantic(&converge, C_JUNCTION_NEEDED);
    check_issues(
        &r,
        R_JUNCTION_NEEDED,
        1,
        &["/OpenDRIVE/road[2]/link/successor", "/OpenDRIVE/road[3]/link/successor"],
        IssueSeverity::Error,
        C_JUNCTION_NEEDED,
    );
}
