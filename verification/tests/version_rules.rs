use xodr_qcr::version;
use xodr_qcr::version::{has_lower_bound, is_valid_clause, is_valid_version_expression, RuleUid};

#[test]
fn test_rule_uid_parse() {
    let r = RuleUid::parse("asam.net:xodr:1.0.0:xml.valid_xml_document").unwrap();
    assert_eq!(r.emanating_entity, "asam.net");
    assert_eq!(r.standard, "xodr");
    assert_eq!(r.definition_setting, "1.0.0");
    assert_eq!(r.rule_full_name, "xml.valid_xml_document");
}

#[test]
fn test_is_valid_clause() {
    assert!(is_valid_clause(">=1.0.0"));
    assert!(is_valid_clause("<1.2.3"));
    assert!(is_valid_clause(">0.0.1"));
    assert!(!is_valid_clause("1.0.0"));
    assert!(!is_valid_clause(">=1.0"));
    assert!(!is_valid_clause("foo"));
}

#[test]
fn version_test_has_lower_bound() {
    assert!(has_lower_bound("<1.0.0,>0.0.1"));
    assert!(!has_lower_bound("<1.0.0"));
}

#[test]
fn test_matches() {
    assert!(version::matches("1.7.0", ">=1.0.0"));
    assert!(version::matches("1.8.0", ">=1.0.0"));
    assert!(!version::matches("1.0.0", ">=1.1.0"));
    assert!(version::matches("1.4.0", "<1.5.0,>=1.0.0"));
    assert!(!version::matches("1.6.0", "<1.5.0"));
}

#[test]
fn version_test_is_valid_version_expression() {
    assert!(is_valid_version_expression(">=1.0.0"));
    assert!(is_valid_version_expression("<1.0.0,>0.0.1"));
    assert!(!is_valid_version_expression(">=1.0"));
}

#[test]
fn test_version_test_has_lower_bound() {
    let cases = [
        (">1.0.0", true),
        (">1.0.0,<2.0.0", true),
        (">1.0.0,<=2.0.0", true),
        (">=1.0.0", true),
        (">=1.0.0,<2.0.0", true),
        (">=1.0.0,<=2.0.0", true),
        (">=1.0.0,>=1.0.1,<=2.0.0", true),
        (">=1.0.0,<=1.0.1,<=2.0.0", true),
        ("<=2.0.0", false),
        ("<2.0.0", false),
        ("<=2.0.0,<=3.0.0", false),
        ("<2.0.0,<3.0.0", false),
        ("", false),
    ];
    for (applicable_version, expected) in cases {
        assert_eq!(
            version::has_lower_bound(applicable_version),
            expected,
            "has_lower_bound({applicable_version})"
        );
    }
}

#[test]
fn test_match() {
    let cases = [
        ("1.7.0", ">=1.7.0", true),
        ("1.7.0", "<=1.7.0", true),
        ("1.7.0", ">1.7.0", false),
        ("1.7.0", "<1.7.0", false),
        ("1.7.0", "<1.7.0,<1.8.0", false),
        ("1.7.0", ">1.7.0,>1.6.0", false),
        ("1.7.0", ">=1.7.0,>1.6.0", true),
        ("1.7.0", ">=1.7.0,>1.8.0", false),
        ("1.7.0", "<=1.7.0,>1.8.0", false),
        ("1.7.0", "<=1.7.0,<1.8.0", true),
        ("1.7.0", "<=1.7.0,<1.6.0", false),
        ("1.7.0", "<=1.7.0,<1.8", false),
        ("1.7.0", "", true),
    ];
    for (version, applicable_version, expected) in cases {
        assert_eq!(
            version::matches(version, applicable_version),
            expected,
            "matches({version}, {applicable_version})"
        );
    }
}

#[test]
fn test_version_test_is_valid_version_expression() {
    let cases = [
        ("1.7.0", false),
        (">1.7.0", true),
        (">=1.7.0", true),
        ("<1.7.0", true),
        ("<=1.7.0", true),
        ("==1.7.0", false),
        ("!=1.7.0", false),
        ("<1.7", false),
        ("", true),
    ];
    for (version_expression, expected) in cases {
        assert_eq!(
            version::is_valid_version_expression(version_expression),
            expected,
            "is_valid_version_expression({version_expression})"
        );
    }
}
