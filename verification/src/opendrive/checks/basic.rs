//! The basic checks: the input is well-formed XML, its root is `OpenDRIVE`,
//! a `header` follows it, and the header names the version.
use vstd::prelude::*;

use crate::opendrive::checks::{ids_view, pair_added, CheckerSpec};
use crate::opendrive::utils::to_int;
use crate::result::{file_location_view, FileLocation, IssueSeverity, Result, ResultView, StatusType};
use crate::text::{str_eq, to_int_spec};
use crate::xml::{attribute, first_child, ElementView, XmlDoc, XmlParseError};

verus! {

/// The input file must be a valid XML document.
pub fn valid_xml_document_spec() -> (r: CheckerSpec)
    ensures
        r.id@ == "check_asam_xodr_xml_valid_xml_document"@,
        r.rule_uid@ == "asam.net:xodr:1.0.0:xml.valid_xml_document"@,
        r.preconditions@.len() == 0,
        r.applicable_versions is None,
        !r.version_required,
{
    CheckerSpec {
        id: "check_asam_xodr_xml_valid_xml_document",
        description: "The input file must be a valid XML document.",
        rule_uid: "asam.net:xodr:1.0.0:xml.valid_xml_document",
        preconditions: &[],
        applicable_versions: None,
        version_required: false,
    }
}


/// The root element of a valid XML document must be OpenDRIVE.
pub fn root_tag_is_opendrive_spec() -> (r: CheckerSpec)
    ensures
        r.id@ == "check_asam_xodr_xml_root_tag_is_opendrive"@,
        r.rule_uid@ == "asam.net:xodr:1.0.0:xml.root_tag_is_opendrive"@,
        ids_view(r.preconditions@) == seq!["check_asam_xodr_xml_valid_xml_document"@],
        r.applicable_versions is None,
        !r.version_required,
{
    let r = CheckerSpec {
        id: "check_asam_xodr_xml_root_tag_is_opendrive",
        description: "The root element of a valid XML document must be OpenDRIVE.",
        rule_uid: "asam.net:xodr:1.0.0:xml.root_tag_is_opendrive",
        preconditions: &["check_asam_xodr_xml_valid_xml_document"],
        applicable_versions: None,
        version_required: false,
    };
    assert(ids_view(r.preconditions@) =~= seq!["check_asam_xodr_xml_valid_xml_document"@]);
    r
}

/// Below the root element a `header` must be defined.
pub fn fileheader_is_present_spec() -> (r: CheckerSpec)
    ensures
        r.id@ == "check_asam_xodr_xml_fileheader_is_present"@,
        r.rule_uid@ == "asam.net:xodr:1.0.0:xml.fileheader_is_present"@,
        ids_view(r.preconditions@) == seq![
            "check_asam_xodr_xml_valid_xml_document"@,
            "check_asam_xodr_xml_root_tag_is_opendrive"@,
        ],
        r.applicable_versions is None,
        !r.version_required,
{
    let r = CheckerSpec {
        id: "check_asam_xodr_xml_fileheader_is_present",
        description: "Below the root element a tag with FileHeader must be defined.",
        rule_uid: "asam.net:xodr:1.0.0:xml.fileheader_is_present",
        preconditions: &["check_asam_xodr_xml_valid_xml_document", "check_asam_xodr_xml_root_tag_is_opendrive"],
        applicable_versions: None,
        version_required: false,
    };
    assert(ids_view(r.preconditions@) =~= seq![
        "check_asam_xodr_xml_valid_xml_document"@,
        "check_asam_xodr_xml_root_tag_is_opendrive"@,
    ]);
    r
}

/// The header must have the attributes revMajor and revMinor, each an
/// unsigned short.
pub fn version_is_defined_spec() -> (r: CheckerSpec)
    ensures
        r.id@ == "check_asam_xodr_xml_version_is_defined"@,
        r.rule_uid@ == "asam.net:xodr:1.0.0:xml.version_is_defined"@,
        ids_view(r.preconditions@) == seq![
            "check_asam_xodr_xml_valid_xml_document"@,
            "check_asam_xodr_xml_root_tag_is_opendrive"@,
            "check_asam_xodr_xml_fileheader_is_present"@,
        ],
        r.applicable_versions is None,
        !r.version_required,
{
    let r = CheckerSpec {
        id: "check_asam_xodr_xml_version_is_defined",
        description: "The FileHeader tag must have the attributes revMajor and revMinor and of type unsignedShort.",
        rule_uid: "asam.net:xodr:1.0.0:xml.version_is_defined",
        preconditions: &[
            "check_asam_xodr_xml_valid_xml_document",
            "check_asam_xodr_xml_root_tag_is_opendrive",
            "check_asam_xodr_xml_fileheader_is_present",
        ],
        applicable_versions: None,
        version_required: false,
    };
    assert(ids_view(r.preconditions@) =~= seq![
        "check_asam_xodr_xml_valid_xml_document"@,
        "check_asam_xodr_xml_root_tag_is_opendrive"@,
        "check_asam_xodr_xml_fileheader_is_present"@,
    ]);
    r
}

/// Whether `value` reads (after trimming) as an integer from 0 to 65535.
pub open spec fn unsigned_short(value: Seq<char>) -> bool {
    match to_int_spec(value) {
        Some(n) => 0 <= n <= 65535,
        None => false,
    }
}

/// Whether `value` reads as an unsigned short (0 to 65535).
pub fn is_unsigned_short(value: &str) -> (r: bool)
    ensures
        r == unsigned_short(value@),
{
    match to_int(value) {
        Some(n) => 0 <= n && n <= 65535,
        None => false,
    }
}

/// The model after an issue was registered on `checker_id` with the xml and
/// file locations of `node`, described by `loc_desc`.
pub open spec fn node_issue_added(
    r: ResultView,
    d: Seq<ElementView>,
    checker_id: Seq<char>,
    rule_uid: Seq<char>,
    description: Seq<char>,
    loc_desc: Seq<char>,
    node: int,
) -> ResultView {
    pair_added(
        r.issue_registered(checker_id, description, IssueSeverity::Error, rule_uid),
        d,
        checker_id,
        r.next_id,
        loc_desc,
        node,
        node,
    )
}

fn report_node_issue(
    result: &mut Result,
    doc: &XmlDoc,
    checker_id: &str,
    rule_uid: &str,
    description: &str,
    loc_desc: &str,
    node: usize,
)
    requires
        node < doc@.len(),
    ensures
        final(result)@ == node_issue_added(
            old(result)@,
            doc@,
            checker_id@,
            rule_uid@,
            description@,
            loc_desc@,
            node as int,
        ),
{
    let id = result.register_issue(checker_id, description, IssueSeverity::Error, rule_uid);
    crate::opendrive::checks::add_location_pair(result, doc, checker_id, id, loc_desc, node, node);
}

/// The model after the outcome of parsing the input was reported: an issue
/// with the position of the error when it is not well-formed.
pub open spec fn xml_outcome_reported(r: ResultView, error: Option<(u32, u32)>) -> ResultView {
    match error {
        None => r,
        Some((row, column)) => r.issue_registered(
            "check_asam_xodr_xml_valid_xml_document"@,
            "The input file is not a valid xml document."@,
            IssueSeverity::Error,
            "asam.net:xodr:1.0.0:xml.valid_xml_document"@,
        ).with_location(
            "check_asam_xodr_xml_valid_xml_document"@,
            r.next_id,
            file_location_view(
                "Invalid xml file."@,
                FileLocation { row: Some(row), column: Some(column), offset: None },
            ),
            true,
        ),
    }
}

/// Reports the outcome of parsing the input: nothing when it parsed, else an
/// issue at the position of the error.
pub fn report_xml_parse_outcome(result: &mut Result, error: Option<XmlParseError>)
    ensures
        final(result)@ == xml_outcome_reported(
            old(result)@,
            match error {
                Some(e) => Some((e.row, e.column)),
                None => None,
            },
        ),
{
    match error {
        None => {},
        Some(e) => {
            let id = result.register_issue(
                "check_asam_xodr_xml_valid_xml_document",
                "The input file is not a valid xml document.",
                IssueSeverity::Error,
                "asam.net:xodr:1.0.0:xml.valid_xml_document",
            );
            result.add_file_location(
                "check_asam_xodr_xml_valid_xml_document",
                id,
                Some(e.row),
                Some(e.column),
                None,
                "Invalid xml file.",
            );
        },
    }
}

/// Checks that the input text is well-formed XML. `read` is the text of the
/// input file, or the message of the error that kept it from being read
/// (the checker then ends in error).
pub fn valid_xml_document_run(result: &mut Result, read: std::result::Result<&str, &str>)
    ensures
        match read {
            Err(msg) => final(result)@ == old(result)@.concluded(
                "check_asam_xodr_xml_valid_xml_document"@,
                StatusType::Error,
                "Cannot read file: "@ + msg@,
            ),
            Ok(text) => final(result)@ == xml_outcome_reported(
                old(result)@,
                match crate::xml::roxmltree_parse(text@) {
                    Ok(_) => None,
                    Err(pos) => Some(pos),
                },
            ),
        },
{
    match read {
        Err(msg) => {
            let mut summary = "Cannot read file: ".to_owned();
            summary.append(msg);
            result.set_checker_status("check_asam_xodr_xml_valid_xml_document", StatusType::Error);
            result.add_checker_summary("check_asam_xodr_xml_valid_xml_document", summary.as_str());
        },
        Ok(text) => {
            let error = match XmlDoc::parse(text) {
                Ok(_) => None,
                Err(e) => Some(e),
            };
            report_xml_parse_outcome(result, error);
        },
    }
}

/// The model after the root tag check ran on `d`.
pub open spec fn root_tag_checked(r: ResultView, d: Seq<ElementView>) -> ResultView {
    if d.len() > 0 && d[0].tag != "OpenDRIVE"@ {
        node_issue_added(
            r,
            d,
            "check_asam_xodr_xml_root_tag_is_opendrive"@,
            "asam.net:xodr:1.0.0:xml.root_tag_is_opendrive"@,
            "Issue flagging when root tag is not OpenDRIVE"@,
            "Root is not OpenDRIVE"@,
            0,
        )
    } else {
        r
    }
}

/// Checks that the root element is `OpenDRIVE`.
pub fn root_tag_is_opendrive_run(result: &mut Result, doc: Option<&XmlDoc>)
    ensures
        final(result)@ == match doc {
            None => old(result)@,
            Some(d) => root_tag_checked(old(result)@, d@),
        },
{
    let doc = match doc {
        Some(d) => d,
        None => return,
    };
    if doc.len() == 0 {
        return;
    }
    if !str_eq(doc.tag(0), "OpenDRIVE") {
        report_node_issue(
            result,
            doc,
            "check_asam_xodr_xml_root_tag_is_opendrive",
            "asam.net:xodr:1.0.0:xml.root_tag_is_opendrive",
            "Issue flagging when root tag is not OpenDRIVE",
            "Root is not OpenDRIVE",
            0,
        );
    }
}

/// The model after the header check ran on `d`.
pub open spec fn header_checked(r: ResultView, d: Seq<ElementView>) -> ResultView {
    if d.len() > 0 && first_child(d, 0, "header"@) is None {
        node_issue_added(
            r,
            d,
            "check_asam_xodr_xml_fileheader_is_present"@,
            "asam.net:xodr:1.0.0:xml.fileheader_is_present"@,
            "Issue flagging when no header is found under root element"@,
            "No child element header"@,
            0,
        )
    } else {
        r
    }
}

/// Checks that the root element has a `header` child.
pub fn fileheader_is_present_run(result: &mut Result, doc: Option<&XmlDoc>)
    ensures
        final(result)@ == match doc {
            None => old(result)@,
            Some(d) => header_checked(old(result)@, d@),
        },
{
    let doc = match doc {
        Some(d) => d,
        None => return,
    };
    if doc.len() == 0 {
        return;
    }
    if doc.first_child(0, "header").is_none() {
        report_node_issue(
            result,
            doc,
            "check_asam_xodr_xml_fileheader_is_present",
            "asam.net:xodr:1.0.0:xml.fileheader_is_present",
            "Issue flagging when no header is found under root element",
            "No child element header",
            0,
        );
    }
}

/// Whether header `h` names its version: revMajor and revMinor, each an
/// unsigned short.
pub open spec fn version_defined(d: Seq<ElementView>, h: int) -> bool {
    match (attribute(d, h, "revMajor"@), attribute(d, h, "revMinor"@)) {
        (Some(ma), Some(mi)) => unsigned_short(ma) && unsigned_short(mi),
        _ => false,
    }
}

/// The model after the version check ran on `d`.
pub open spec fn version_checked(r: ResultView, d: Seq<ElementView>) -> ResultView {
    if d.len() == 0 {
        r
    } else {
        match first_child(d, 0, "header"@) {
            None => r.concluded(
                "check_asam_xodr_xml_version_is_defined"@,
                StatusType::Skipped,
                "The xml file does not contains the 'header' tag."@,
            ),
            Some(h) => if version_defined(d, h as int) {
                r
            } else {
                node_issue_added(
                    r,
                    d,
                    "check_asam_xodr_xml_version_is_defined"@,
                    "asam.net:xodr:1.0.0:xml.version_is_defined"@,
                    "Issue flagging when revMajor revMinor attribute of header are missing or invalid"@,
                    "Header tag has invalid or missing version info"@,
                    h as int,
                )
            },
        }
    }
}

/// Checks that the header names the version as two unsigned shorts; skips
/// itself when there is no header.
pub fn version_is_defined_run(result: &mut Result, doc: Option<&XmlDoc>)
    ensures
        final(result)@ == match doc {
            None => old(result)@,
            Some(d) => version_checked(old(result)@, d@),
        },
{
    let doc = match doc {
        Some(d) => d,
        None => return,
    };
    if doc.len() == 0 {
        return;
    }
    let header = match doc.first_child(0, "header") {
        Some(h) => h,
        None => {
            result.set_checker_status("check_asam_xodr_xml_version_is_defined", StatusType::Skipped);
            result.add_checker_summary(
                "check_asam_xodr_xml_version_is_defined",
                "The xml file does not contains the 'header' tag.",
            );
            return;
        },
    };
    let is_valid = match (doc.attribute(header, "revMajor"), doc.attribute(header, "revMinor")) {
        (Some(ma), Some(mi)) => is_unsigned_short(ma) && is_unsigned_short(mi),
        _ => false,
    };
    if !is_valid {
        report_node_issue(
            result,
            doc,
            "check_asam_xodr_xml_version_is_defined",
            "asam.net:xodr:1.0.0:xml.version_is_defined",
            "Issue flagging when revMajor revMinor attribute of header are missing or invalid",
            "Header tag has invalid or missing version info",
            header,
        );
    }
}

} // verus!
