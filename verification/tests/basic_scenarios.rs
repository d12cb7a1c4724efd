use xodr_qcr::opendrive::checks::bundle::bundle_specs;
use xodr_qcr::opendrive::checks::{basic, finish_checker, prepare_checker};
use xodr_qcr::opendrive::utils;
use xodr_qcr::xml::XmlDoc;
use xodr_qcr::{IssueSeverity, Result, StatusType};

const CHECKER_VALID_XML: &str = "check_asam_xodr_xml_valid_xml_document";
const CHECKER_ROOT: &str = "check_asam_xodr_xml_root_tag_is_opendrive";
const CHECKER_FILEHEADER: &str = "check_asam_xodr_xml_fileheader_is_present";
const CHECKER_VERSION: &str = "check_asam_xodr_xml_version_is_defined";

const RULE_VALID_XML: &str = "asam.net:xodr:1.0.0:xml.valid_xml_document";
const RULE_ROOT: &str = "asam.net:xodr:1.0.0:xml.root_tag_is_opendrive";
const RULE_FILEHEADER: &str = "asam.net:xodr:1.0.0:xml.fileheader_is_present";
const RULE_VERSION: &str = "asam.net:xodr:1.0.0:xml.version_is_defined";

/// Runs the basic checks of the bundle, in order, on the text of a file.
fn run_basic(text: &str) -> Result {
    let doc = XmlDoc::parse(text).ok();
    let mut r = Result::new();
    for spec in bundle_specs().iter().take(4) {
        if !prepare_checker(&mut r, spec, None) {
            continue;
        }
        match spec.id {
            CHECKER_VALID_XML => basic::valid_xml_document_run(&mut r, Ok(text)),
            CHECKER_ROOT => basic::root_tag_is_opendrive_run(&mut r, doc.as_ref()),
            CHECKER_FILEHEADER => basic::fileheader_is_present_run(&mut r, doc.as_ref()),
            _ => basic::version_is_defined_run(&mut r, doc.as_ref()),
        }
        finish_checker(&mut r, spec.id);
    }
    r
}

fn issues_of(r: &Result, rule: &str) -> Vec<IssueSeverity> {
    r.bundle.checkers.iter().flat_map(|c| &c.issues).filter(|i| i.rule_uid == rule).map(|i| i.level).collect()
}

const VALID: &str = r#"<?xml version="1.0" standalone="yes"?>
<OpenDRIVE>
    <header revMajor="1" revMinor="7" name="" version="1.00" date="2024-01-01T00:00:00"/>
    <road name="" length="10.0" id="1" junction="-1">
        <planView><geometry s="0.0" x="0.0" y="0.0" hdg="0.0" length="10.0"><line/></geometry></planView>
        <lanes><laneSection s="0.0"><center><lane id="0" type="none" level="false"/></center></laneSection></lanes>
    </road>
</OpenDRIVE>
"#;

#[test]
fn test_valid_xml_document_positive() {
    let r = run_basic(VALID);
    assert_eq!(r.get_checker_status(CHECKER_VALID_XML), Some(StatusType::Completed));
    assert_eq!(issues_of(&r, RULE_VALID_XML).len(), 0);
}

#[test]
fn test_valid_xml_document_negative() {
    let r = run_basic("<OpenDRIVE>\n    <header revMajor=\"1\" revMinor=\"7\">\n</OpenDRIVE>\n");
    assert_eq!(r.get_checker_status(CHECKER_VALID_XML), Some(StatusType::Completed));
    assert_eq!(issues_of(&r, RULE_VALID_XML), vec![IssueSeverity::Error]);
}

#[test]
fn test_root_tag_is_opendrive_positive() {
    let r = run_basic(VALID);
    assert_eq!(r.get_checker_status(CHECKER_ROOT), Some(StatusType::Completed));
    assert_eq!(issues_of(&r, RULE_ROOT).len(), 0);
}

#[test]
fn test_root_tag_is_opendrive_negative() {
    let r = run_basic("<OpenScenario>\n    <header revMajor=\"1\" revMinor=\"7\"/>\n</OpenScenario>\n");
    assert_eq!(r.get_checker_status(CHECKER_ROOT), Some(StatusType::Completed));
    assert_eq!(issues_of(&r, RULE_ROOT), vec![IssueSeverity::Error]);
}

#[test]
fn test_fileheader_is_present_positive() {
    let r = run_basic(VALID);
    assert_eq!(r.get_checker_status(CHECKER_FILEHEADER), Some(StatusType::Completed));
    assert_eq!(issues_of(&r, RULE_FILEHEADER).len(), 0);
}

#[test]
fn test_fileheader_is_present_negative() {
    let r = run_basic("<OpenDRIVE>\n    <road id=\"1\" length=\"10.0\" junction=\"-1\"/>\n</OpenDRIVE>\n");
    assert_eq!(r.get_checker_status(CHECKER_FILEHEADER), Some(StatusType::Completed));
    assert_eq!(issues_of(&r, RULE_FILEHEADER), vec![IssueSeverity::Error]);
}

#[test]
fn test_version_is_defined_positive() {
    let r = run_basic(VALID);
    assert_eq!(r.get_checker_status(CHECKER_VERSION), Some(StatusType::Completed));
    assert_eq!(issues_of(&r, RULE_VERSION).len(), 0);
}

#[test]
fn test_version_is_defined_negative_attr() {
    let r = run_basic("<OpenDRIVE>\n    <header revMajor=\"1\" name=\"\"/>\n</OpenDRIVE>\n");
    assert_eq!(r.get_checker_status(CHECKER_VERSION), Some(StatusType::Completed));
    assert_eq!(issues_of(&r, RULE_VERSION), vec![IssueSeverity::Error]);
}

#[test]
fn test_version_is_defined_negative_type() {
    let r = run_basic("<OpenDRIVE>\n    <header revMajor=\"1\" revMinor=\"-7\"/>\n</OpenDRIVE>\n");
    assert_eq!(r.get_checker_status(CHECKER_VERSION), Some(StatusType::Completed));
    assert_eq!(issues_of(&r, RULE_VERSION), vec![IssueSeverity::Error]);
}

/// Six roads about one junction, in the style of the bidirectional junction
/// example of the standard.
const BIDIRECTIONAL: &str = r#"<OpenDRIVE>
    <header revMajor="1" revMinor="7"/>
    <road id="0" junction="-1" length="50.0"/>
    <road id="1" junction="-1" length="50.0"/>
    <road id="2" junction="-1" length="50.0"/>
    <road id="3" junction="0" length="12.0"/>
    <road id="4" junction="0" length="12.0"/>
    <road id="5" junction="0" length="12.0"/>
    <junction id="0" name="">
        <connection id="0" incomingRoad="0" connectingRoad="3" contactPoint="start"/>
        <connection id="1" incomingRoad="1" connectingRoad="4" contactPoint="start"/>
        <connection id="2" incomingRoad="2" connectingRoad="5" contactPoint="start"/>
    </junction>
</OpenDRIVE>
"#;

#[test]
fn test_get_roads_non_empty() {
    let with_namespace = XmlDoc::parse(
        "<OpenDRIVE xmlns=\"http://code.asam.net/simulation/standard/opendrive_schema\">\n    <header revMajor=\"1\" revMinor=\"8\"/>\n    <road id=\"1\" junction=\"-1\" length=\"10.0\"/>\n</OpenDRIVE>\n",
    )
    .ok()
    .expect("well-formed test document");
    assert!(!utils::get_roads(&with_namespace).is_empty());
    let without = XmlDoc::parse(BIDIRECTIONAL).ok().expect("well-formed test document");
    assert!(!utils::get_roads(&without).is_empty());
}

#[test]
fn test_get_road_id_map() {
    let d = XmlDoc::parse(BIDIRECTIONAL).ok().expect("well-formed test document");
    assert_eq!(utils::get_road_id_map(&d).len(), 6);
}

#[test]
fn test_get_junction_id_map() {
    let d = XmlDoc::parse(BIDIRECTIONAL).ok().expect("well-formed test document");
    assert_eq!(utils::get_junction_id_map(&d).len(), 1);
}
