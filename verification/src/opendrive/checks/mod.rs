//! The checkers of the bundle and what they share: how a checker is
//! described, when it runs, and how its issues are recorded.
pub mod basic;
pub mod bundle;
pub mod findings;
pub mod lane_width;
pub mod link_laws;
pub mod new_lane;
pub mod schema;
pub mod semantic;
pub mod semantic_laws;
pub mod geometry;
pub mod performance;
pub mod smoothness;

use vstd::prelude::*;

use crate::opendrive::utils::{get_standard_schema_version, node_row, node_xpath, standard_schema_version};
use crate::result::{
    completed_without_issue, file_location_view, inertial_location_view, xml_location_view,
    FileLocation, InertialLocation, IssueSeverity, Result, ResultView, StatusType,
};
use crate::version::{
    colon2, colon3, has_four_parts, has_lower_bound, has_lower_bound_spec, is_valid_version_expression,
    matches_spec, valid_version_expression, RuleUid,
};
use crate::xml::{xpath, ElementView, XmlDoc};

verus! {

/// What the bundle knows of a checker before it runs: its id and
/// description, the rule it checks, the checkers that must have completed
/// without issue first, and the OpenDRIVE versions it applies to.
pub struct CheckerSpec {
    pub id: &'static str,
    pub description: &'static str,
    pub rule_uid: &'static str,
    pub preconditions: &'static [&'static str],
    pub applicable_versions: Option<&'static str>,
    pub version_required: bool,
}

/// The ids `ids` as character sequences.
pub open spec fn ids_view(ids: Seq<&'static str>) -> Seq<Seq<char>> {
    ids.map_values(|x: &'static str| x@)
}

/// The basic checks every later checker waits for.
pub const BASIC_PRECONDITIONS: [&'static str; 5] = [
    "check_asam_xodr_xml_valid_xml_document",
    "check_asam_xodr_xml_root_tag_is_opendrive",
    "check_asam_xodr_xml_fileheader_is_present",
    "check_asam_xodr_xml_version_is_defined",
    "check_asam_xodr_xml_valid_schema",
];


/// Whether every checker that `spec` waits for completed without issue.
pub open spec fn preconditions_met(r: ResultView, spec: CheckerSpec) -> bool {
    forall|k: int| 0 <= k < spec.preconditions@.len() ==> completed_without_issue(
        r.bundle.checkers,
        #[trigger] spec.preconditions@[k]@,
    )
}

/// Skips the checker of `spec` (and says so in its summary) unless every
/// checker it waits for completed without issue; true when it may run.
pub fn check_preconditions(result: &mut Result, spec: &CheckerSpec) -> (r: bool)
    ensures
        r == preconditions_met(old(result)@, *spec),
        final(result)@ == if r {
            old(result)@
        } else {
            old(result)@.concluded(
                spec.id@,
                StatusType::Skipped,
                "Preconditions are not satisfied. Skip the check."@,
            )
        },
{
    let satisfied = result.all_checkers_completed_without_issue(spec.preconditions);
    if !satisfied {
        result.set_checker_status(spec.id, StatusType::Skipped);
        result.add_checker_summary(spec.id, "Preconditions are not satisfied. Skip the check.");
        return false;
    }
    true
}

/// The definition setting (third part) of a rule uid.
pub open spec fn definition_setting(rule_uid: Seq<char>) -> Seq<char> {
    rule_uid.subrange(colon2(rule_uid) + 1, colon3(rule_uid))
}

/// Why a checker may not run for the schema version `version`: the status
/// and the summary it is given then; none when it may run.
pub open spec fn version_verdict(
    rule_uid: Seq<char>,
    applicable: Seq<char>,
    version: Seq<char>,
) -> Option<(StatusType, Seq<char>)> {
    let setting = definition_setting(rule_uid);
    let setting_expr = ">="@ + setting;
    if !has_four_parts(rule_uid) {
        Some((StatusType::Error, "Invalid rule uid "@ + rule_uid + ": "@ + "Invalid rule uid: "@ + rule_uid + "."@))
    } else if !valid_version_expression(applicable) {
        Some((StatusType::Error, "The applicable version "@ + applicable + " is not valid. Skip the check."@))
    } else if !valid_version_expression(setting_expr) {
        Some((StatusType::Error, "The definition setting "@ + setting + " is not valid. Skip the check."@))
    } else if !matches_spec(version, applicable) {
        Some(
            (
                StatusType::Skipped,
                "Version "@ + version + " is not valid according to the applicable version "@ + applicable
                    + ". Skip the check."@,
            ),
        )
    } else if !has_lower_bound_spec(applicable) && !matches_spec(version, setting_expr) {
        Some(
            (
                StatusType::Skipped,
                "Version "@ + version + " is not valid according to definition setting "@ + setting_expr
                    + ". Skip the check."@,
            ),
        )
    } else {
        None
    }
}

/// The applicable versions of a checker (none written means all).
pub open spec fn applicable_of(spec: CheckerSpec) -> Seq<char> {
    match spec.applicable_versions {
        Some(a) => a@,
        None => Seq::empty(),
    }
}

/// The schema version as the version checks read it (empty when unknown).
pub open spec fn version_of(schema_version: Option<&str>) -> Seq<char> {
    match schema_version {
        Some(v) => v@,
        None => Seq::empty(),
    }
}

/// Decides from the schema version, the checker's applicable versions and
/// the definition setting of its rule whether the checker runs; when it may
/// not, sets its status and says why in its summary.
pub fn check_version(result: &mut Result, spec: &CheckerSpec, schema_version: Option<&str>) -> (r: bool)
    ensures
        r == (version_verdict(spec.rule_uid@, applicable_of(*spec), version_of(schema_version)) is None),
        final(result)@ == match version_verdict(spec.rule_uid@, applicable_of(*spec), version_of(schema_version)) {
            None => old(result)@,
            Some((st, msg)) => old(result)@.concluded(spec.id@, st, msg),
        },
{
    proof {
        reveal_strlit("");
    }
    let version: &str = match schema_version {
        Some(v) => v,
        None => "",
    };
    let rule = match RuleUid::parse(spec.rule_uid) {
        Ok(r) => r,
        Err(e) => {
            let mut msg = "Invalid rule uid ".to_owned();
            msg.append(spec.rule_uid);
            msg.append(": ");
            msg.append(e.message().as_str());
            msg.append(".");
            assert(msg@ =~= "Invalid rule uid "@ + spec.rule_uid@ + ": "@ + "Invalid rule uid: "@ + spec.rule_uid@ + "."@);
            result.set_checker_status(spec.id, StatusType::Error);
            result.add_checker_summary(spec.id, msg.as_str());
            return false;
        },
    };
    let mut setting_expr = ">=".to_owned();
    setting_expr.append(rule.definition_setting.as_str());
    assert(setting_expr@ == ">="@ + definition_setting(spec.rule_uid@));
    let applicable: &str = match spec.applicable_versions {
        Some(a) => a,
        None => "",
    };
    assert(version@ == version_of(schema_version));
    assert(applicable@ == applicable_of(*spec));
    assert(has_four_parts(spec.rule_uid@));
    if !is_valid_version_expression(applicable) {
        let mut msg = "The applicable version ".to_owned();
        msg.append(applicable);
        msg.append(" is not valid. Skip the check.");
        result.set_checker_status(spec.id, StatusType::Error);
        result.add_checker_summary(spec.id, msg.as_str());
        return false;
    }
    if !is_valid_version_expression(setting_expr.as_str()) {
        let mut msg = "The definition setting ".to_owned();
        msg.append(rule.definition_setting.as_str());
        msg.append(" is not valid. Skip the check.");
        result.set_checker_status(spec.id, StatusType::Error);
        result.add_checker_summary(spec.id, msg.as_str());
        return false;
    }
    if !crate::version::matches(version, applicable) {
        let mut msg = "Version ".to_owned();
        msg.append(version);
        msg.append(" is not valid according to the applicable version ");
        msg.append(applicable);
        msg.append(". Skip the check.");
        assert(!matches_spec(version_of(schema_version), applicable_of(*spec)));
        result.set_checker_status(spec.id, StatusType::Skipped);
        result.add_checker_summary(spec.id, msg.as_str());
        return false;
    }
    if !has_lower_bound(applicable) {
        if !crate::version::matches(version, setting_expr.as_str()) {
            let mut msg = "Version ".to_owned();
            msg.append(version);
            msg.append(" is not valid according to definition setting ");
            msg.append(setting_expr.as_str());
            msg.append(". Skip the check.");
            assert(!has_lower_bound_spec(applicable_of(*spec)));
            assert(!matches_spec(version_of(schema_version), ">="@ + definition_setting(spec.rule_uid@)));
            result.set_checker_status(spec.id, StatusType::Skipped);
            result.add_checker_summary(spec.id, msg.as_str());
            return false;
        }
    }
    true
}


/// The model after checker `spec` was registered with its rule.
pub open spec fn registered(r: ResultView, spec: CheckerSpec) -> ResultView {
    r.checker_registered(spec.id@, spec.description@).rule_registered(spec.id@, spec.rule_uid@)
}

/// Whether the checker of `spec` runs once registered in `r`.
pub open spec fn may_run(r: ResultView, spec: CheckerSpec, version: Seq<char>) -> bool {
    let reg = registered(r, spec);
    preconditions_met(reg, spec) && (!spec.version_required || version_verdict(
        spec.rule_uid@,
        applicable_of(spec),
        version,
    ) is None)
}

/// The model after the checker of `spec` was registered and, where it may
/// not run, given its status and summary.
pub open spec fn prepared(r: ResultView, spec: CheckerSpec, version: Seq<char>) -> ResultView {
    let reg = registered(r, spec);
    if !preconditions_met(reg, spec) {
        reg.concluded(spec.id@, StatusType::Skipped, "Preconditions are not satisfied. Skip the check."@)
    } else if spec.version_required {
        match version_verdict(spec.rule_uid@, applicable_of(spec), version) {
            None => reg,
            Some((st, msg)) => reg.concluded(spec.id@, st, msg),
        }
    } else {
        reg
    }
}

/// Registers the checker of `spec` with its rule and decides whether it runs:
/// its preconditions must hold and, where it asks for one, the schema version
/// must be one it applies to. True when the checker is to run.
pub fn prepare_checker(result: &mut Result, spec: &CheckerSpec, schema_version: Option<&str>) -> (r: bool)
    ensures
        r == may_run(old(result)@, *spec, version_of(schema_version)),
        final(result)@ == prepared(old(result)@, *spec, version_of(schema_version)),
{
    result.register_checker(spec.id, spec.description);
    result.register_rule_by_uid(spec.id, spec.rule_uid);
    if !check_preconditions(result, spec) {
        return false;
    }
    if spec.version_required {
        if !check_version(result, spec, schema_version) {
            return false;
        }
    }
    true
}

/// The model after a checker that ran was closed: completed, unless it
/// skipped itself.
pub open spec fn finished(r: ResultView, id: Seq<char>) -> ResultView {
    if r.status_of(id) == Some(StatusType::Skipped) {
        r
    } else {
        r.status_set(id, StatusType::Completed)
    }
}

/// Marks a checker that ran as completed, unless it skipped itself.
pub fn finish_checker(result: &mut Result, id: &str)
    ensures
        final(result)@ == finished(old(result)@, id@),
{
    match result.get_checker_status(id) {
        Some(StatusType::Skipped) => {},
        _ => result.set_checker_status(id, StatusType::Completed),
    }
}

/// The file location of element `node`: its row, column 0.
pub open spec fn node_file_location(d: Seq<ElementView>, node: int) -> FileLocation {
    FileLocation { row: Some(d[node].row), column: Some(0), offset: None }
}

/// The model after an issue was registered on `checker_id` with the xml
/// location of `xml_node`, the file location of `file_node` and the inertial
/// location `inertial`, as far as each is given.
pub open spec fn issue_added(
    r: ResultView,
    d: Seq<ElementView>,
    checker_id: Seq<char>,
    rule_uid: Seq<char>,
    description: Seq<char>,
    level: IssueSeverity,
    xml_node: Option<usize>,
    file_node: Option<usize>,
    inertial: Option<(Seq<char>, Seq<char>, Seq<char>)>,
) -> ResultView {
    let id = r.next_id;
    let r1 = r.issue_registered(checker_id, description, level, rule_uid);
    let r2 = match xml_node {
        Some(n) => r1.with_location(checker_id, id, xml_location_view(description, xpath(d, n as int)), true),
        None => r1,
    };
    let r3 = match file_node {
        Some(n) => r2.with_location(checker_id, id, file_location_view(description, node_file_location(d, n as int)), true),
        None => r2,
    };
    match inertial {
        Some(p) => r3.with_location(checker_id, id, inertial_location_view(description, p), false),
        None => r3,
    }
}

/// The view of an optional inertial point.
pub open spec fn point_view(p: Option<&InertialLocation>) -> Option<(Seq<char>, Seq<char>, Seq<char>)> {
    match p {
        Some(q) => Some(q@),
        None => None,
    }
}

/// Registers an issue on `checker_id` with, where given, the xpath of
/// `xml_node`, the row of `file_node` and an inertial point.
pub fn add_issue(
    result: &mut Result,
    doc: &XmlDoc,
    checker_id: &str,
    rule_uid: &str,
    description: &str,
    level: IssueSeverity,
    xml_node: Option<usize>,
    file_node: Option<usize>,
    inertial: Option<&InertialLocation>,
)
    requires
        xml_node matches Some(n) ==> n < doc@.len(),
        file_node matches Some(n) ==> n < doc@.len(),
    ensures
        final(result)@ == issue_added(
            old(result)@,
            doc@,
            checker_id@,
            rule_uid@,
            description@,
            level,
            xml_node,
            file_node,
            point_view(inertial),
        ),
{
    let issue_id = result.register_issue(checker_id, description, level, rule_uid);
    match xml_node {
        Some(node) => {
            let xp = node_xpath(doc, node);
            result.add_xml_location(checker_id, issue_id, xp.as_str(), description);
        },
        None => {},
    }
    match file_node {
        Some(node) => {
            let row = node_row(doc, node);
            result.add_file_location(checker_id, issue_id, row, Some(0), None, description);
        },
        None => {},
    }
    match inertial {
        Some(p) => {
            result.add_inertial_location(
                checker_id,
                issue_id,
                p.x.as_str(),
                p.y.as_str(),
                p.z.as_str(),
                description,
            );
        },
        None => {},
    }
}

/// The model after the xml location of `xml_node` and the file location of
/// `file_node` were added to issue `issue_id` of `checker_id`.
pub open spec fn pair_added(
    r: ResultView,
    d: Seq<ElementView>,
    checker_id: Seq<char>,
    issue_id: u32,
    description: Seq<char>,
    xml_node: int,
    file_node: int,
) -> ResultView {
    r.with_location(checker_id, issue_id, xml_location_view(description, xpath(d, xml_node)), true).with_location(
        checker_id,
        issue_id,
        file_location_view(description, node_file_location(d, file_node)),
        true,
    )
}

/// Adds the xpath of `xml_node` and the row of `file_node` to a registered
/// issue.
pub fn add_location_pair(
    result: &mut Result,
    doc: &XmlDoc,
    checker_id: &str,
    issue_id: u32,
    description: &str,
    xml_node: usize,
    file_node: usize,
)
    requires
        xml_node < doc@.len(),
        file_node < doc@.len(),
    ensures
        final(result)@ == pair_added(
            old(result)@,
            doc@,
            checker_id@,
            issue_id,
            description@,
            xml_node as int,
            file_node as int,
        ),
{
    let xp = node_xpath(doc, xml_node);
    result.add_xml_location(checker_id, issue_id, xp.as_str(), description);
    let row = node_row(doc, file_node);
    result.add_file_location(checker_id, issue_id, row, Some(0), None, description);
}

/// The basic checks whose success lets the schema version be read.
pub open spec fn basic_checks_passed(r: ResultView) -> bool {
    &&& completed_without_issue(r.bundle.checkers, "check_asam_xodr_xml_valid_xml_document"@)
    &&& completed_without_issue(r.bundle.checkers, "check_asam_xodr_xml_root_tag_is_opendrive"@)
    &&& completed_without_issue(r.bundle.checkers, "check_asam_xodr_xml_fileheader_is_present"@)
    &&& completed_without_issue(r.bundle.checkers, "check_asam_xodr_xml_version_is_defined"@)
}

/// The schema version the later checkers go by: the one the header names,
/// read only once the four basic checks completed without issue.
pub fn schema_version_after_basic_checks(result: &Result, doc: Option<&XmlDoc>) -> (r: Option<String>)
    ensures
        match r {
            Some(v) => basic_checks_passed(result@) && (doc matches Some(d) && standard_schema_version(d@) == Some(v@)),
            None => !basic_checks_passed(result@) || doc is None || (doc matches Some(d) && standard_schema_version(d@) is None),
        },
{
    let ids: [&str; 4] = [
        "check_asam_xodr_xml_valid_xml_document",
        "check_asam_xodr_xml_root_tag_is_opendrive",
        "check_asam_xodr_xml_fileheader_is_present",
        "check_asam_xodr_xml_version_is_defined",
    ];
    let ok = result.all_checkers_completed_without_issue(&ids);
    assert(ok == basic_checks_passed(result@)) by {
        if basic_checks_passed(result@) {
            assert forall|k: int| 0 <= k < ids@.len() implies completed_without_issue(
                result@.bundle.checkers,
                #[trigger] ids@[k]@,
            ) by {
                assert(k == 0 || k == 1 || k == 2 || k == 3);
            }
        } else {
            if ok {
                assert(completed_without_issue(result@.bundle.checkers, ids@[0]@));
                assert(completed_without_issue(result@.bundle.checkers, ids@[1]@));
                assert(completed_without_issue(result@.bundle.checkers, ids@[2]@));
                assert(completed_without_issue(result@.bundle.checkers, ids@[3]@));
            }
        }
    }
    if !ok {
        return None;
    }
    match doc {
        Some(d) => get_standard_schema_version(d),
        None => None,
    }
}


/// What a checker table lists of each checker: its id, description, rule
/// and applicable versions.
pub open spec fn spec_entry(c: CheckerSpec) -> (Seq<char>, Seq<char>, Seq<char>, Option<Seq<char>>) {
    (c.id@, c.description@, c.rule_uid@, match c.applicable_versions {
        Some(a) => Some(a@),
        None => None,
    })
}

/// Whether a checker waits for the basic checks and asks for the version.
pub open spec fn after_basic_checks(c: CheckerSpec) -> bool {
    ids_view(c.preconditions@) == ids_view(BASIC_PRECONDITIONS@) && c.version_required
}

/// A checker that waits for the basic checks and goes by the version.
pub fn checker_after_basic(
    id: &'static str,
    description: &'static str,
    rule_uid: &'static str,
    applicable_versions: Option<&'static str>,
) -> (r: CheckerSpec)
    ensures
        spec_entry(r) == (id@, description@, rule_uid@, match applicable_versions {
            Some(a) => Some(a@),
            None => None,
        }),
        after_basic_checks(r),
{
    CheckerSpec {
        id: id,
        description: description,
        rule_uid: rule_uid,
        preconditions: &BASIC_PRECONDITIONS,
        applicable_versions: applicable_versions,
        version_required: true,
    }
}


/// A checker whose preconditions are not met does not run: it is registered
/// and marked skipped.
pub proof fn law_unmet_preconditions_skip(r: ResultView, spec: CheckerSpec, version: Seq<char>)
    requires
        !preconditions_met(registered(r, spec), spec),
    ensures
        !may_run(r, spec, version),
        prepared(r, spec, version).status_of(spec.id@) == Some(StatusType::Skipped),
{
    crate::result::law_registered_checker_found(r, spec.id@, spec.description@);
    let r0 = r.checker_registered(spec.id@, spec.description@);
    let k = crate::result::checker_pos(r0.bundle.checkers, spec.id@).unwrap();
    crate::result::lemma_checker_pos_from_range(r0.bundle.checkers, spec.id@, 0);
    crate::result::lemma_checker_same_ids(r0.bundle.checkers, k, r0.bundle.checkers[k].with_rule(spec.rule_uid@), spec.id@, 0);
    law_concluded_status(registered(r, spec), spec.id@, StatusType::Skipped, "Preconditions are not satisfied. Skip the check."@);
}

/// A checker that goes by the schema version, whose preconditions hold but
/// whose version rules turn it away, does not run; its status is the one
/// those rules give.
pub proof fn law_version_mismatch_stops(r: ResultView, spec: CheckerSpec, version: Seq<char>)
    requires
        preconditions_met(registered(r, spec), spec),
        spec.version_required,
        version_verdict(spec.rule_uid@, applicable_of(spec), version) is Some,
    ensures
        !may_run(r, spec, version),
        prepared(r, spec, version).status_of(spec.id@) == Some(
            version_verdict(spec.rule_uid@, applicable_of(spec), version).unwrap().0,
        ),
{
    crate::result::law_registered_checker_found(r, spec.id@, spec.description@);
    let r0 = r.checker_registered(spec.id@, spec.description@);
    let k = crate::result::checker_pos(r0.bundle.checkers, spec.id@).unwrap();
    crate::result::lemma_checker_pos_from_range(r0.bundle.checkers, spec.id@, 0);
    crate::result::lemma_checker_same_ids(r0.bundle.checkers, k, r0.bundle.checkers[k].with_rule(spec.rule_uid@), spec.id@, 0);
    let v = version_verdict(spec.rule_uid@, applicable_of(spec), version).unwrap();
    law_concluded_status(registered(r, spec), spec.id@, v.0, v.1);
}

/// The status of a registered checker after it was concluded is the status
/// given.
pub proof fn law_concluded_status(r: ResultView, id: Seq<char>, status: StatusType, content: Seq<char>)
    requires
        crate::result::checker_pos(r.bundle.checkers, id) is Some,
    ensures
        r.concluded(id, status, content).status_of(id) == Some(status),
{
    let k = crate::result::checker_pos(r.bundle.checkers, id).unwrap();
    crate::result::lemma_checker_pos_from_range(r.bundle.checkers, id, 0);
    crate::result::law_status_read_after_write(r, id, status);
    let r1 = r.status_set(id, status);
    crate::result::lemma_checker_same_ids(r.bundle.checkers, k, r.bundle.checkers[k].with_status(status), id, 0);
    crate::result::lemma_checker_same_ids(r1.bundle.checkers, k, r1.bundle.checkers[k].with_summary(content), id, 0);
}

/// A registered checker that ran is completed afterwards, unless it skipped
/// itself.
pub proof fn law_finished_checker_completed(r: ResultView, id: Seq<char>)
    requires
        crate::result::checker_pos(r.bundle.checkers, id) is Some,
        r.status_of(id) != Some(StatusType::Skipped),
    ensures
        finished(r, id).status_of(id) == Some(StatusType::Completed),
{
    crate::result::law_status_read_after_write(r, id, StatusType::Completed);
}

} // verus!
