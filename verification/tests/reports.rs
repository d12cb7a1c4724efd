use xodr_qcr::report::text::write_text_report;
use xodr_qcr::report::xqar::{write_xqar, xqar_events, XqarEvent};
use xodr_qcr::{IssueSeverity, Result, StatusType};

fn sample() -> Result {
    let mut r = Result::new();
    r.register_checker_bundle("xodrBundle", "Checks.", "1.0.0", "");
    r.set_result_version("1.0.0");
    r.register_checker("check_a", "A checker.");
    r.register_rule_by_uid("check_a", "asam.net:xodr:1.0.0:a.b");
    r.set_checker_status("check_a", StatusType::Completed);
    let id = r.register_issue("check_a", "Bad & wrong.", IssueSeverity::Error, "asam.net:xodr:1.0.0:a.b");
    r.add_xml_location("check_a", id, "/OpenDRIVE/road", "there");
    r.add_file_location("check_a", id, Some(3), Some(0), None, "there");
    r.register_checker("check_b", "B checker.");
    r.register_issue("check_b", "Hm.", IssueSeverity::Warning, "asam.net:xodr:1.0.0:c.d");
    r
}

#[test]
fn text_report_lists_bundle_checkers_and_rules() {
    let r = sample();
    let mut out = String::from("prefix\n");
    write_text_report(&r, &mut out);
    let lines: Vec<&str> = out.lines().collect();
    assert_eq!(lines[0], "prefix");
    assert_eq!(lines[1], "ASAM QUALITY FRAMEWORK v1.0.0 - RESULT REPORT");
    assert_eq!(lines[2], "=".repeat(100));
    assert!(lines.contains(&" -> xodrBundle @ 1.0.0"));
    assert!(lines.contains(&"    Description: Checks."));
    assert!(lines.contains(&"     -> [COMPLETED] check_a"));
    assert!(lines.contains(&"     -> [NONE] check_b"));
    assert!(lines.contains(&"           1. [ERROR] @ asam.net:xodr:1.0.0:a.b"));
    assert!(lines.contains(&"              Description: Bad & wrong."));
    assert!(lines.contains(&"               -> XML @ `/OpenDRIVE/road`: there"));
    assert!(lines.contains(&"               -> File @ col: 0, row: 3, offset: -1: there"));
    assert!(lines.contains(&"           1. [WARNING] @ asam.net:xodr:1.0.0:c.d"));
    assert!(lines.contains(&"Addressed rules: 1"));
    assert!(lines.contains(&"Flagged Rules: 2"));
    assert!(lines.contains(&"  with ERROR: 1"));
    assert!(lines.contains(&"  with WARNING: 1"));
    assert!(lines.contains(&"  with INFORMATION: 0"));
    assert!(out.ends_with("abstract-type check).\n"));
}

#[test]
fn text_report_of_empty_result() {
    let r = Result::new();
    let mut out = String::new();
    write_text_report(&r, &mut out);
    assert!(out.starts_with("ASAM QUALITY FRAMEWORK v - RESULT REPORT\n"));
    assert!(out.contains("Addressed rules: 0\n"));
    assert!(out.contains("Flagged Rules: 0\n"));
    assert!(!out.contains("Checkers:"));
}

#[test]
fn xqar_events_follow_the_result() {
    let r = sample();
    let ev = xqar_events(&r);
    match &ev[0] {
        XqarEvent::Decl(v, e, s) => {
            assert_eq!(v, "1.0");
            assert_eq!(e.as_deref(), Some("UTF-8"));
            assert_eq!(s.as_deref(), Some("no"));
        }
        _ => panic!("declaration first"),
    }
    match &ev[1] {
        XqarEvent::Start(n, a) => {
            assert_eq!(n, "CheckerResults");
            assert_eq!(a, &vec![("version".to_string(), "1.0.0".to_string())]);
        }
        _ => panic!("root start"),
    }
    match ev.last().unwrap() {
        XqarEvent::End(n) => assert_eq!(n, "CheckerResults"),
        _ => panic!("root end last"),
    }
}

#[test]
fn xqar_bytes_are_xml() {
    let r = sample();
    let bytes = write_xqar(&r);
    let text = String::from_utf8(bytes).expect("utf-8");
    assert!(text.starts_with("<?xml version=\"1.0\" encoding=\"UTF-8\" standalone=\"no\"?>"));
    assert!(text.contains("<CheckerResults version=\"1.0.0\">"));
    assert!(text.contains("checkerId=\"check_a\""));
    assert!(text.contains("status=\"completed\""));
    assert!(text.contains("Bad &amp; wrong."));
    assert!(text.contains("<AddressedRule ruleUID=\"asam.net:xodr:1.0.0:a.b\"/>"));
    assert!(text.ends_with("</CheckerBundle></CheckerResults>"));
}
