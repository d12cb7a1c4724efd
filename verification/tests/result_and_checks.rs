use xodr_qcr::opendrive::checks::basic;
use xodr_qcr::opendrive::checks::bundle::bundle_specs;
use xodr_qcr::opendrive::checks::schema::{self, SchemaFailure};
use xodr_qcr::opendrive::checks::{
    add_issue, add_location_pair, check_preconditions, check_version, checker_after_basic, finish_checker,
    prepare_checker, schema_version_after_basic_checks, CheckerSpec, BASIC_PRECONDITIONS,
};
use xodr_qcr::opendrive::{schema_file_for, schema_files, BUNDLE_NAME, BUNDLE_VERSION};
use xodr_qcr::result::InertialLocation;
use xodr_qcr::xml::XmlDoc;
use xodr_qcr::{IssueSeverity, Result, StatusType};

fn parse(text: &str) -> XmlDoc {
    XmlDoc::parse(text).ok().expect("well-formed test document")
}

fn spec_with(applicable: Option<&'static str>) -> CheckerSpec {
    checker_after_basic("check_x", "X.", "asam.net:xodr:1.7.0:x.y", applicable)
}

#[test]
fn register_checker_twice_keeps_first() {
    let mut r = Result::new();
    r.register_checker("a", "first");
    r.register_checker("a", "second");
    assert_eq!(r.bundle.checkers.len(), 1);
    assert_eq!(r.bundle.checkers[0].description, "first");
}

#[test]
fn status_reads_back() {
    let mut r = Result::new();
    assert_eq!(r.get_checker_status("a"), None);
    r.register_checker("a", "d");
    assert_eq!(r.get_checker_status("a"), None);
    r.set_checker_status("a", StatusType::Skipped);
    assert_eq!(r.get_checker_status("a"), Some(StatusType::Skipped));
}

#[test]
fn issues_are_numbered_and_located() {
    let mut r = Result::new();
    r.register_checker("a", "d");
    let first = r.register_issue("a", "one", IssueSeverity::Warning, "rule");
    let second = r.register_issue("a", "two", IssueSeverity::Error, "rule");
    assert_eq!((first, second), (1, 2));
    let unknown = r.register_issue("b", "lost", IssueSeverity::Error, "rule");
    assert_eq!(unknown, 3);
    r.add_xml_location("a", second, "/x", "here");
    r.add_file_location("a", second, Some(4), Some(0), None, "here");
    assert_eq!(r.bundle.checkers[0].issues[1].locations.len(), 2);
    r.add_inertial_location("a", second, "1", "2", "3", "point");
    assert_eq!(r.bundle.checkers[0].issues[1].locations.len(), 3);
    assert_eq!(r.bundle.checkers[0].issue_count(), 2);
    assert!(r.has_errors());
    assert_eq!(r.total_issue_count(), 2);
}

#[test]
fn no_errors_with_only_warnings() {
    let mut r = Result::new();
    r.register_checker("a", "d");
    r.register_issue("a", "one", IssueSeverity::Warning, "rule");
    assert!(!r.has_errors());
}

#[test]
fn summaries_count_statuses() {
    let mut r = Result::new();
    r.register_checker("a", "d");
    r.register_checker("b", "d");
    r.set_checker_status("a", StatusType::Completed);
    r.register_issue("a", "one", IssueSeverity::Warning, "rule");
    r.generate_summaries();
    assert_eq!(
        r.bundle.summary,
        "2 checker(s) are executed. 1 checker(s) are completed. 0 checker(s) are skipped. 0 checker(s) have internal error and 1 checker(s) do not contain status."
    );
    assert_eq!(r.bundle.checkers[0].summary, "1 issue(s) are found.");
}

#[test]
fn unmet_preconditions_skip_the_checker() {
    let mut r = Result::new();
    let spec = spec_with(None);
    assert!(!prepare_checker(&mut r, &spec, Some("1.7.0")));
    assert_eq!(r.get_checker_status("check_x"), Some(StatusType::Skipped));
    assert_eq!(r.bundle.checkers[0].summary, "Preconditions are not satisfied. Skip the check.");
    assert_eq!(r.bundle.checkers[0].addressed_rules[0].rule_uid, "asam.net:xodr:1.7.0:x.y");
}

fn all_basic_completed(r: &mut Result) {
    for id in BASIC_PRECONDITIONS {
        r.register_checker(id, "basic");
        r.set_checker_status(id, StatusType::Completed);
    }
}

#[test]
fn version_outside_applicable_skips() {
    let mut r = Result::new();
    all_basic_completed(&mut r);
    let spec = spec_with(Some("<=1.7.0"));
    assert!(!prepare_checker(&mut r, &spec, Some("1.8.0")));
    assert_eq!(r.get_checker_status("check_x"), Some(StatusType::Skipped));
    assert_eq!(
        r.bundle.checkers[5].summary,
        "Version 1.8.0 is not valid according to the applicable version <=1.7.0. Skip the check."
    );
}

#[test]
fn version_below_definition_setting_skips() {
    let mut r = Result::new();
    all_basic_completed(&mut r);
    let spec = spec_with(None);
    assert!(!prepare_checker(&mut r, &spec, Some("1.4.0")));
    assert_eq!(
        r.bundle.checkers[5].summary,
        "Version 1.4.0 is not valid according to definition setting >=1.7.0. Skip the check."
    );
    let mut r2 = Result::new();
    all_basic_completed(&mut r2);
    assert!(prepare_checker(&mut r2, &spec, Some("1.7.0")));
    assert_eq!(r2.get_checker_status("check_x"), None);
    finish_checker(&mut r2, "check_x");
    assert_eq!(r2.get_checker_status("check_x"), Some(StatusType::Completed));
}

#[test]
fn invalid_applicable_version_is_an_error() {
    let mut r = Result::new();
    r.register_checker("check_x", "X.");
    let spec = spec_with(Some(">=1.7"));
    assert!(!check_version(&mut r, &spec, Some("1.7.0")));
    assert_eq!(r.get_checker_status("check_x"), Some(StatusType::Error));
    assert_eq!(r.bundle.checkers[0].summary, "The applicable version >=1.7 is not valid. Skip the check.");
}

#[test]
fn invalid_rule_uid_is_an_error() {
    let mut r = Result::new();
    r.register_checker("check_x", "X.");
    let spec = checker_after_basic("check_x", "X.", "bad-uid", None);
    assert!(!check_version(&mut r, &spec, None));
    assert_eq!(r.get_checker_status("check_x"), Some(StatusType::Error));
    assert_eq!(r.bundle.checkers[0].summary, "Invalid rule uid bad-uid: Invalid rule uid: bad-uid.");
}

#[test]
fn lower_bound_in_applicable_versions_overrides_definition_setting() {
    let mut r = Result::new();
    r.register_checker("check_x", "X.");
    let spec = spec_with(Some(">=1.4.0"));
    assert!(check_version(&mut r, &spec, Some("1.5.0")));
}

#[test]
fn finish_keeps_a_self_skipped_checker() {
    let mut r = Result::new();
    r.register_checker("a", "d");
    r.set_checker_status("a", StatusType::Skipped);
    finish_checker(&mut r, "a");
    assert_eq!(r.get_checker_status("a"), Some(StatusType::Skipped));
}

#[test]
fn preconditions_pass_once_completed() {
    let mut r = Result::new();
    all_basic_completed(&mut r);
    let spec = spec_with(None);
    r.register_checker("check_x", "X.");
    assert!(check_preconditions(&mut r, &spec));
    r.register_issue(BASIC_PRECONDITIONS[0], "bad", IssueSeverity::Error, "r");
    assert!(!check_preconditions(&mut r, &spec));
}

#[test]
fn issue_with_xml_file_and_point() {
    let d = parse("<OpenDRIVE>\n<header/>\n<road id=\"1\"/>\n</OpenDRIVE>");
    let mut r = Result::new();
    r.register_checker("a", "d");
    let p = InertialLocation { x: "1.5".to_string(), y: "2".to_string(), z: "0".to_string() };
    add_issue(&mut r, &d, "a", "rule", "desc", IssueSeverity::Error, Some(2), Some(2), Some(&p));
    let issue = &r.bundle.checkers[0].issues[0];
    assert_eq!(issue.locations.len(), 3);
    assert_eq!(issue.locations[0].xml[0].xpath, "/OpenDRIVE/road");
    assert_eq!(issue.locations[1].file[0].row, Some(3));
    assert_eq!(issue.locations[2].inertial[0].x, "1.5");
    add_location_pair(&mut r, &d, "a", 1, "more", 1, 1);
    assert_eq!(r.bundle.checkers[0].issues[0].locations.len(), 5);
}

#[test]
fn schema_version_needs_passed_basic_checks() {
    let d = parse("<OpenDRIVE><header revMajor=\"1\" revMinor=\"6\"/></OpenDRIVE>");
    let mut r = Result::new();
    assert_eq!(schema_version_after_basic_checks(&r, Some(&d)), None);
    for id in &BASIC_PRECONDITIONS[0..4] {
        r.register_checker(id, "basic");
        r.set_checker_status(id, StatusType::Completed);
    }
    assert_eq!(schema_version_after_basic_checks(&r, Some(&d)), Some("1.6.0".to_string()));
    assert_eq!(schema_version_after_basic_checks(&r, None), None);
}

#[test]
fn schema_files_cover_eight_versions() {
    assert_eq!(schema_files().len(), 8);
    assert_eq!(schema_file_for("1.4.0"), Some("1.4/OpenDRIVE_1.4H.xsd"));
    assert_eq!(schema_file_for("1.8.0"), Some("1.8.1/OpenDRIVE_Core.xsd"));
    assert_eq!(schema_file_for("1.9.0"), None);
    assert_eq!(BUNDLE_NAME, "xodrBundle");
    assert_eq!(BUNDLE_VERSION, "v1.0.0");
}

#[test]
fn basic_checks_on_documents() {
    let mut r = Result::new();
    for s in [
        basic::valid_xml_document_spec(),
        basic::root_tag_is_opendrive_spec(),
        basic::fileheader_is_present_spec(),
        basic::version_is_defined_spec(),
    ] {
        r.register_checker(s.id, s.description);
    }
    basic::valid_xml_document_run(&mut r, Ok("<a><b></a>"));
    assert_eq!(r.bundle.checkers[0].issues.len(), 1);
    assert_eq!(r.bundle.checkers[0].issues[0].locations[0].description, "Invalid xml file.");
    let bad_root = parse("<Other/>");
    basic::root_tag_is_opendrive_run(&mut r, Some(&bad_root));
    assert_eq!(r.bundle.checkers[1].issues.len(), 1);
    assert_eq!(r.bundle.checkers[1].issues[0].locations[0].xml[0].xpath, "/Other");
    basic::fileheader_is_present_run(&mut r, Some(&bad_root));
    assert_eq!(r.bundle.checkers[2].issues.len(), 1);
    basic::version_is_defined_run(&mut r, Some(&bad_root));
    assert_eq!(r.get_checker_status("check_asam_xodr_xml_version_is_defined"), Some(StatusType::Skipped));
    let bad_version = parse("<OpenDRIVE><header revMajor=\"1\" revMinor=\"70000\"/></OpenDRIVE>");
    basic::version_is_defined_run(&mut r, Some(&bad_version));
    assert_eq!(r.bundle.checkers[3].issues.len(), 1);
    assert_eq!(r.bundle.checkers[3].issues[0].locations[0].xml[0].xpath, "/OpenDRIVE/header");
    basic::valid_xml_document_run(&mut r, Err("denied"));
    assert_eq!(r.bundle.checkers[0].summary, "Cannot read file: denied");
}

#[test]
fn unsigned_short_bounds() {
    assert!(basic::is_unsigned_short("0"));
    assert!(basic::is_unsigned_short(" 65535 "));
    assert!(!basic::is_unsigned_short("65536"));
    assert!(!basic::is_unsigned_short("-1"));
    assert!(!basic::is_unsigned_short("x"));
}

#[test]
fn schema_choice_and_paths() {
    assert!(schema::is_xsd11_version("1.8.0"));
    assert!(!schema::is_xsd11_version("1.7.0"));
    assert!(!schema::is_xsd11_version("2.0.0"));
    assert!(schema::is_xsd11_version("1.10"));
    assert_eq!(schema::schema_dir(), "schemas");
    let mut r = Result::new();
    r.register_checker("check_asam_xodr_xml_valid_schema", "d");
    assert_eq!(schema::valid_schema_prepare(&mut r, Some("1.7.0")), Some("1.7.0/opendrive_17_core.xsd"));
    assert_eq!(schema::valid_schema_prepare(&mut r, Some("0.9.0")), None);
    assert_eq!(
        r.bundle.checkers[0].summary,
        "Cannot find the schema file for ASAM OpenDrive version 0.9.0."
    );
    let d = parse("<OpenDRIVE>\n<road/>\n<road>\n<lanes/>\n</road>\n</OpenDRIVE>");
    assert_eq!(schema::resolve_path(&d, "/OpenDRIVE/road[2]/lanes"), (Some(4), Some(1)));
    assert_eq!(schema::resolve_path(&d, "/OpenDRIVE/road[3]"), (None, None));
    assert_eq!(schema::resolve_path(&d, "/Other"), (None, None));
    assert_eq!(schema::resolve_path(&d, "/OpenDRIVE"), (Some(1), Some(1)));
    assert!(schema::path_can_be_resolved(&d, "/OpenDRIVE/road[2]"));
    assert!(!schema::path_can_be_resolved(&d, "/OpenDRIVE/road["));
    // Resolution stops before the segment it cannot read.
    assert!(schema::path_can_be_resolved(&d, "/OpenDRIVE/bridge/b["));
    assert!(schema::path_can_be_resolved(&d, "/Other/b["));
    assert!(!schema::path_can_be_resolved(&d, "/OpenDRIVE/road[1\u{e9}"));
    schema::report_schema_error(&mut r, &d, Some("/OpenDRIVE/road[1]"), "bad element");
    let issue = &r.bundle.checkers[0].issues[0];
    assert_eq!(issue.locations[0].description, "bad element");
    assert_eq!(issue.locations[0].file[0].row, Some(2));
}

#[test]
fn bundle_has_twenty_six_distinct_checkers() {
    let mut all: Vec<CheckerSpec> = vec![
        basic::valid_xml_document_spec(),
        basic::root_tag_is_opendrive_spec(),
        basic::fileheader_is_present_spec(),
        basic::version_is_defined_spec(),
        schema::valid_schema_spec(),
    ];
    all.extend(xodr_qcr::opendrive::checks::semantic::specs());
    all.extend(xodr_qcr::opendrive::checks::geometry::specs());
    all.extend(xodr_qcr::opendrive::checks::performance::specs());
    all.extend(xodr_qcr::opendrive::checks::smoothness::specs());
    assert_eq!(all.len(), 26);
    let mut ids: Vec<&str> = all.iter().map(|s| s.id).collect();
    ids.sort();
    ids.dedup();
    assert_eq!(ids.len(), 26);
    assert_eq!(&ids.iter().filter(|i| i.starts_with("check_asam_xodr_")).count(), &26);
}

#[test]
fn schema_errors_are_reported_in_order() {
    let d = parse("<OpenDRIVE>\n<road/>\n</OpenDRIVE>");
    let mut r = Result::new();
    r.register_checker("check_asam_xodr_xml_valid_schema", "d");
    let errors = vec![
        (Some("/OpenDRIVE/road".to_string()), "first".to_string()),
        (None, "second".to_string()),
    ];
    assert!(schema::error_paths_resolve(&d, &errors));
    assert!(!schema::error_paths_resolve(&d, &vec![(Some("/OpenDRIVE/road[".to_string()), "x".to_string())]));
    schema::report_schema_errors(&mut r, &d, &errors);
    let issues = &r.bundle.checkers[0].issues;
    assert_eq!(issues.len(), 2);
    assert_eq!(issues[0].level, IssueSeverity::Error);
    assert_eq!(issues[0].locations[0].file[0].row, Some(2));
    assert_eq!(issues[1].locations[0].description, "second");
    assert_eq!(issues[1].locations[0].file[0].row, None);
    assert_eq!(issues[1].issue_id, 2);
}

const SMALL_XSD: &str = r#"<xs:schema xmlns:xs="http://www.w3.org/2001/XMLSchema">
<xs:element name="OpenDRIVE"><xs:complexType><xs:sequence>
<xs:element name="header" minOccurs="0"/>
</xs:sequence></xs:complexType></xs:element>
</xs:schema>"#;

#[test]
fn xsd_validation_outcomes() {
    let ok = schema::xsd_validation(SMALL_XSD, "small.xsd", Ok("<OpenDRIVE><header/></OpenDRIVE>"), false);
    assert_eq!(ok, Ok(vec![]));
    let invalid = schema::xsd_validation(SMALL_XSD, "small.xsd", Ok("<OpenDRIVE><road/></OpenDRIVE>"), false);
    assert!(matches!(&invalid, Ok(errors) if !errors.is_empty()));
    let bad_xml = schema::xsd_validation(SMALL_XSD, "small.xsd", Ok("<OpenDRIVE"), false);
    assert!(matches!(bad_xml, Err((SchemaFailure::ParseInput, _))));
    let unread = schema::xsd_validation(SMALL_XSD, "small.xsd", Err((SchemaFailure::ReadInput, "gone".to_string())), false);
    assert_eq!(unread, Err((SchemaFailure::ReadInput, "gone".to_string())));
    let bad_schema = schema::xsd_validation("<nope", "small.xsd", Ok("<OpenDRIVE/>"), false);
    assert!(matches!(bad_schema, Err((SchemaFailure::Compile, _))));
}

#[test]
fn schema_outcome_ends_the_checker() {
    let d = parse("<OpenDRIVE>\n<road/>\n</OpenDRIVE>");
    let mut r = Result::new();
    r.register_checker("check_asam_xodr_xml_valid_schema", "d");
    schema::valid_schema_outcome(&mut r, &d, Err((SchemaFailure::Compile, "broken".to_string())));
    assert_eq!(r.get_checker_status("check_asam_xodr_xml_valid_schema"), Some(StatusType::Error));
    assert_eq!(r.bundle.checkers[0].summary, "Failed to compile schema: broken");
    let mut r2 = Result::new();
    r2.register_checker("check_asam_xodr_xml_valid_schema", "d");
    schema::valid_schema_outcome(
        &mut r2,
        &d,
        Ok(vec![(Some("/OpenDRIVE/road".to_string()), "not allowed".to_string())]),
    );
    assert_eq!(r2.bundle.checkers[0].issues.len(), 1);
    assert_eq!(r2.bundle.checkers[0].issues[0].locations[0].file[0].row, Some(2));
    assert_eq!(r2.get_checker_status("check_asam_xodr_xml_valid_schema"), None);
}

#[test]
fn bundle_specs_lists_every_checker_once_in_order() {
    let specs = bundle_specs();
    assert_eq!(specs.len(), 26);
    let ids: Vec<&str> = specs.iter().map(|s| s.id).collect();
    assert_eq!(
        &ids[..5],
        &[
            "check_asam_xodr_xml_valid_xml_document",
            "check_asam_xodr_xml_root_tag_is_opendrive",
            "check_asam_xodr_xml_fileheader_is_present",
            "check_asam_xodr_xml_version_is_defined",
            "check_asam_xodr_xml_valid_schema",
        ]
    );
    assert_eq!(ids[5], "check_asam_xodr_road_lane_level_true_one_side");
    assert_eq!(ids[25], "check_asam_xodr_lane_smoothness_contact_point_no_horizontal_gaps");
    let unique: std::collections::HashSet<&str> = ids.iter().copied().collect();
    assert_eq!(unique.len(), ids.len());
    for (k, s) in specs.iter().enumerate().take(5) {
        assert_eq!(s.preconditions, &ids[..k]);
        assert!(!s.version_required);
    }
    for s in &specs[5..] {
        assert_eq!(s.preconditions.len(), 5);
        assert!(s.version_required);
    }
}
