//! The schema check: the document must be valid against the XSD schema of
//! the OpenDRIVE version its header names. Here stand the choice of the
//! schema, the validation by the `xsd-schema` crate, what each failure makes
//! of the checker, and the issues at the elements the validator's element
//! paths name. The schema file and the input are read by the caller.
use vstd::prelude::*;

use crate::opendrive::checks::{ids_view, CheckerSpec};
use crate::opendrive::{lookup_from, schema_file_for, schema_table};
use crate::result::{file_location_view, FileLocation, IssueSeverity, Result, ResultView, StatusType};
use crate::text::{chars_of, copy_range, parse_unsigned, parse_unsigned_spec};
use crate::version::{find_from, lemma_find_from};
use crate::xml::{children_with_tag, roxmltree_parse, ElementView, XmlDoc};
use xsd_schema::validation::{drive_navigator, CollectingValidationSink, SchemaValidator, ValidationFlags};
use xsd_schema::{CompiledSchemaSet, RoXmlNavigator, SchemaSetBuilder};

verus! {

/// Input xml file must be valid according to the schema.
pub fn valid_schema_spec() -> (r: CheckerSpec)
    ensures
        r.id@ == "check_asam_xodr_xml_valid_schema"@,
        r.rule_uid@ == "asam.net:xodr:1.0.0:xml.valid_schema"@,
        ids_view(r.preconditions@) == seq![
            "check_asam_xodr_xml_valid_xml_document"@,
            "check_asam_xodr_xml_root_tag_is_opendrive"@,
            "check_asam_xodr_xml_fileheader_is_present"@,
            "check_asam_xodr_xml_version_is_defined"@,
        ],
        r.applicable_versions is None,
        !r.version_required,
{
    let r = CheckerSpec {
        id: "check_asam_xodr_xml_valid_schema",
        description: "Input xml file must be valid according to the schema.",
        rule_uid: "asam.net:xodr:1.0.0:xml.valid_schema",
        preconditions: &[
            "check_asam_xodr_xml_valid_xml_document",
            "check_asam_xodr_xml_root_tag_is_opendrive",
            "check_asam_xodr_xml_fileheader_is_present",
            "check_asam_xodr_xml_version_is_defined",
        ],
        applicable_versions: None,
        version_required: false,
    };
    assert(ids_view(r.preconditions@) =~= seq![
        "check_asam_xodr_xml_valid_xml_document"@,
        "check_asam_xodr_xml_root_tag_is_opendrive"@,
        "check_asam_xodr_xml_fileheader_is_present"@,
        "check_asam_xodr_xml_version_is_defined"@,
    ]);
    r
}

/// The directory of the schema files, relative to the working directory.
pub fn schema_dir() -> (r: &'static str)
    ensures
        r@ == "schemas"@,
{
    "schemas"
}

/// The schema file for `schema_version`: the checker is skipped (and says
/// why) when the version is unknown or has no schema file.
pub open spec fn schema_choice(r: ResultView, schema_version: Option<Seq<char>>) -> (ResultView, Option<Seq<char>>) {
    match schema_version {
        None => (
            r.concluded("check_asam_xodr_xml_valid_schema"@, StatusType::Skipped, "Cannot determine schema version."@),
            None,
        ),
        Some(v) => match lookup_from(schema_table(), v, 0) {
            Some(f) => (r, Some(f)),
            None => (
                r.concluded(
                    "check_asam_xodr_xml_valid_schema"@,
                    StatusType::Skipped,
                    "Cannot find the schema file for ASAM OpenDrive version "@ + v + "."@,
                ),
                None,
            ),
        },
    }
}

/// Picks the schema file for `schema_version`; when there is none, skips the
/// checker and says why.
pub fn valid_schema_prepare(result: &mut Result, schema_version: Option<&str>) -> (r: Option<&'static str>)
    ensures
        ({
            let (after, file) = schema_choice(
                old(result)@,
                match schema_version {
                    Some(v) => Some(v@),
                    None => None,
                },
            );
            &&& final(result)@ == after
            &&& match r {
                Some(f) => file == Some(f@),
                None => file is None,
            }
        }),
{
    let v = match schema_version {
        Some(v) => v,
        None => {
            result.set_checker_status("check_asam_xodr_xml_valid_schema", StatusType::Skipped);
            result.add_checker_summary("check_asam_xodr_xml_valid_schema", "Cannot determine schema version.");
            return None;
        },
    };
    match schema_file_for(v) {
        Some(f) => Some(f),
        None => {
            let mut msg = "Cannot find the schema file for ASAM OpenDrive version ".to_owned();
            msg.append(v);
            msg.append(".");
            result.set_checker_status("check_asam_xodr_xml_valid_schema", StatusType::Skipped);
            result.add_checker_summary("check_asam_xodr_xml_valid_schema", msg.as_str());
            None
        },
    }
}

/// The first `.`-separated part of a version, and the second one if any.
pub open spec fn version_part(v: Seq<char>, k: int) -> Option<Seq<char>> {
    let d1 = find_from(v, '.', 0);
    if k == 0 {
        Some(v.subrange(0, d1))
    } else if d1 < v.len() {
        Some(v.subrange(d1 + 1, find_from(v, '.', d1 + 1)))
    } else {
        None
    }
}

/// A part of a version read as a `u32`; 0 where it is missing or not a number.
pub open spec fn part_number(p: Option<Seq<char>>) -> nat {
    match p {
        Some(s) => match parse_unsigned_spec(s, u32::MAX as nat) {
            Some(n) => n,
            None => 0,
        },
        None => 0,
    }
}

/// Whether the schema of `version` is validated as XSD 1.1: from OpenDRIVE
/// 1.8 on (major at least 1 and minor at least 8).
pub open spec fn xsd11_version(version: Seq<char>) -> bool {
    part_number(version_part(version, 0)) >= 1 && part_number(version_part(version, 1)) >= 8
}

/// Whether the schema of `version` is validated as XSD 1.1 rather than 1.0.
pub fn is_xsd11_version(version: &str) -> (r: bool)
    ensures
        r == xsd11_version(version@),
{
    let v = chars_of(version);
    let n = v.len();
    proof {
        lemma_find_from(v@, '.', 0);
    }
    let d1 = crate::version::find_char_from(&v, '.', 0);
    let major_text = copy_range(&v, 0, d1);
    let major: u64 = match parse_unsigned(&major_text, 4294967295) {
        Some(x) => x,
        None => 0,
    };
    let minor: u64 = if d1 < n {
        proof {
            lemma_find_from(v@, '.', d1 + 1);
        }
        let d2 = crate::version::find_char_from(&v, '.', d1 + 1);
        let minor_text = copy_range(&v, d1 + 1, d2);
        match parse_unsigned(&minor_text, 4294967295) {
            Some(x) => x,
            None => 0,
        }
    } else {
        0
    };
    major >= 1 && minor >= 8
}


/// One pass over an element path: the `/`-separated segments completed so
/// far (empty ones dropped) and the one being read.
pub open spec fn segment_scan(s: Seq<char>) -> (Seq<Seq<char>>, Seq<char>)
    decreases s.len(),
{
    if s.len() == 0 {
        (Seq::empty(), Seq::empty())
    } else {
        let (d, c) = segment_scan(s.drop_last());
        if s.last() == '/' {
            (if c.len() > 0 { d.push(c) } else { d }, Seq::empty())
        } else {
            (d, c.push(s.last()))
        }
    }
}

/// The nonempty `/`-separated segments of an element path.
pub open spec fn path_segments(s: Seq<char>) -> Seq<Seq<char>> {
    let (d, c) = segment_scan(s);
    if c.len() > 0 { d.push(c) } else { d }
}

/// The tag of a segment: what precedes its first `[`.
pub open spec fn segment_tag(seg: Seq<char>) -> Seq<char> {
    seg.subrange(0, find_from(seg, '[', 0))
}

/// The 1-based position that a segment asks for: what stands between its
/// first `[` and its last character, read as a number; 1 without a `[` or
/// when that is no number.
pub open spec fn segment_index(seg: Seq<char>) -> nat {
    let b = find_from(seg, '[', 0);
    if b < seg.len() {
        match parse_unsigned_spec(seg.subrange(b + 1, seg.len() - 1), usize::MAX as nat) {
            Some(n) => n,
            None => 1,
        }
    } else {
        1
    }
}

/// Whether a segment can be read: where it holds a `[`, that is not its last
/// character, and its last character is ASCII (the index between them is cut
/// out by byte positions).
pub open spec fn segment_readable(seg: Seq<char>) -> bool {
    let b = find_from(seg, '[', 0);
    b == seg.len() || (b != seg.len() - 1 && (seg.last() as u32) < 128)
}

/// The `idx`-th (1-based) child of `node` with tag `tag`.
pub open spec fn nth_child(d: Seq<ElementView>, node: int, tag: Seq<char>, idx: nat) -> Option<int> {
    let cs = children_with_tag(d, node, tag);
    if 1 <= idx <= cs.len() {
        Some(cs[idx - 1] as int)
    } else {
        None
    }
}

/// The element reached from `node` by the segments from `k` on.
pub open spec fn resolve_from(d: Seq<ElementView>, node: int, segs: Seq<Seq<char>>, k: int) -> Option<int>
    decreases segs.len() - k,
{
    if k < 0 || k >= segs.len() {
        Some(node)
    } else {
        match nth_child(d, node, segment_tag(segs[k]), segment_index(segs[k])) {
            None => None,
            Some(c) => resolve_from(d, c, segs, k + 1),
        }
    }
}

/// The element an element path names: its first segment must carry the
/// root's tag, each further one picks a child by tag and position.
pub open spec fn resolved_element(d: Seq<ElementView>, path: Seq<char>) -> Option<int> {
    let segs = path_segments(path);
    if d.len() == 0 {
        None
    } else if segs.len() > 0 && segment_tag(segs[0]) != d[0].tag {
        None
    } else {
        resolve_from(d, 0, segs, 1)
    }
}

/// Whether resolving from `node` by the segments from `k` on reads only
/// segments it can read: it stops at the first segment that names no child.
pub open spec fn reach_readable(d: Seq<ElementView>, node: int, segs: Seq<Seq<char>>, k: int) -> bool
    decreases segs.len() - k,
{
    if k < 0 || k >= segs.len() {
        true
    } else if !segment_readable(segs[k]) {
        false
    } else {
        match nth_child(d, node, segment_tag(segs[k]), segment_index(segs[k])) {
            None => true,
            Some(c) => reach_readable(d, c, segs, k + 1),
        }
    }
}

/// Whether an element path can be resolved: every segment that resolution
/// reaches can be read.
pub open spec fn path_resolves(d: Seq<ElementView>, path: Seq<char>) -> bool {
    let segs = path_segments(path);
    if d.len() == 0 {
        true
    } else if segs.len() > 0 && segment_tag(segs[0]) != d[0].tag {
        true
    } else {
        reach_readable(d, 0, segs, 1)
    }
}

/// The row and column of the element an element path names.
pub open spec fn resolved_position(d: Seq<ElementView>, path: Seq<char>) -> (Option<u32>, Option<u32>) {
    match resolved_element(d, path) {
        Some(n) => (Some(d[n].row), Some(d[n].column)),
        None => (None, None),
    }
}

/// The segments of `path` as (start, end) positions in it.
pub open spec fn bounds_view(path: Seq<char>, b: Seq<(usize, usize)>) -> Seq<Seq<char>> {
    b.map_values(|p: (usize, usize)| path.subrange(p.0 as int, p.1 as int))
}

#[verifier::spinoff_prover]
fn segment_bounds(v: &Vec<char>) -> (r: Vec<(usize, usize)>)
    ensures
        bounds_view(v@, r@) == path_segments(v@),
        forall|k: int| 0 <= k < r@.len() ==> #[trigger] r@[k].0 < r@[k].1 <= v@.len(),
{
    let n = v.len();
    let mut done: Vec<(usize, usize)> = Vec::new();
    let mut start: usize = 0;
    let mut i: usize = 0;
    assert(bounds_view(v@, done@) =~= Seq::<Seq<char>>::empty());
    while i < n
        invariant
            start <= i <= n,
            n == v@.len(),
            bounds_view(v@, done@) == segment_scan(v@.take(i as int)).0,
            v@.subrange(start as int, i as int) == segment_scan(v@.take(i as int)).1,
            forall|k: int| 0 <= k < done@.len() ==> #[trigger] done@[k].0 < done@[k].1 <= i,
        decreases n - i,
    {
        assert(v@.take(i + 1).drop_last() =~= v@.take(i as int));
        if v[i] == '/' {
            if start < i {
                let ghost d0 = done@;
                done.push((start, i));
                assert(bounds_view(v@, done@) =~= bounds_view(v@, d0).push(v@.subrange(start as int, i as int)));
                assert forall|k: int| 0 <= k < done@.len() implies #[trigger] done@[k].0 < done@[k].1 <= i by {
                    if k < d0.len() {
                        assert(done@[k] == d0[k]);
                    }
                }
            }
            start = i + 1;
            assert(v@.subrange(start as int, i + 1) =~= Seq::<char>::empty());
        } else {
            assert(v@.subrange(start as int, i + 1) =~= v@.subrange(start as int, i as int).push(v@[i as int]));
        }
        i = i + 1;
    }
    assert(v@.take(n as int) =~= v@);
    if start < n {
        let ghost d0 = done@;
        done.push((start, n));
        assert(bounds_view(v@, done@) =~= bounds_view(v@, d0).push(v@.subrange(start as int, n as int)));
    }
    done
}

/// Position of the first `c` in `v` from `a` up to `b`, as an offset from `a`
/// (`b - a` when there is none).
fn find_in_range(v: &Vec<char>, c: char, a: usize, b: usize) -> (r: usize)
    requires
        a <= b <= v@.len(),
    ensures
        r == find_from(v@.subrange(a as int, b as int), c, 0),
        r <= b - a,
{
    let ghost seg = v@.subrange(a as int, b as int);
    proof {
        lemma_find_from(seg, c, 0);
    }
    let mut i = a;
    while i < b
        invariant
            a <= i <= b,
            b <= v@.len(),
            seg == v@.subrange(a as int, b as int),
            find_from(seg, c, 0) == find_from(seg, c, i - a),
        decreases b - i,
    {
        assert(seg[i - a] == v@[i as int]);
        if v[i] == c {
            return i - a;
        }
        i = i + 1;
    }
    i - a
}

/// Resolves an element path: none where it reaches a segment it cannot read.
fn resolve_walk(doc: &XmlDoc, path: &str) -> (r: Option<(Option<u32>, Option<u32>)>)
    ensures
        match r {
            None => !path_resolves(doc@, path@),
            Some(p) => path_resolves(doc@, path@) && p == resolved_position(doc@, path@),
        },
{
    let v = chars_of(path);
    let segs = segment_bounds(&v);
    let ghost sv = path_segments(path@);
    if doc.len() == 0 {
        return Some((None, None));
    }
    let nsegs = segs.len();
    if nsegs > 0 {
        let (a, b) = segs[0];
        assert(sv[0] == v@.subrange(a as int, b as int));
        let t = find_in_range(&v, '[', a, b);
        let tag = path.substring_char(a, a + t);
        assert(tag@ =~= segment_tag(sv[0]));
        if !crate::text::str_eq(doc.tag(0), tag) {
            return Some((None, None));
        }
    }
    let mut node: usize = 0;
    let mut k: usize = 1;
    while k < nsegs
        invariant
            1 <= k,
            nsegs == segs@.len(),
            node < doc@.len(),
            doc@.len() > 0,
            v@ == path@,
            sv == path_segments(path@),
            bounds_view(v@, segs@) == sv,
            forall|j: int| 0 <= j < segs@.len() ==> #[trigger] segs@[j].0 < segs@[j].1 <= v@.len(),
            resolved_element(doc@, path@) == resolve_from(doc@, node as int, sv, k as int),
            path_resolves(doc@, path@) == reach_readable(doc@, node as int, sv, k as int),
        decreases nsegs - k,
    {
        let (a, b) = segs[k];
        let ghost seg = sv[k as int];
        assert(seg == v@.subrange(a as int, b as int));
        let t = find_in_range(&v, '[', a, b);
        let last = v[b - 1];
        assert(seg.last() == last);
        let readable = t == b - a || (t != b - a - 1 && (last as u32) < 128);
        if !readable {
            assert(!segment_readable(seg));
            return None;
        }
        assert(segment_readable(seg));
        let tag = path.substring_char(a, a + t);
        assert(tag@ =~= segment_tag(seg));
        let idx: usize = if a + t < b {
            let inner = copy_range(&v, a + t + 1, b - 1);
            assert(inner@ =~= seg.subrange(t + 1, seg.len() - 1));
            match parse_unsigned(&inner, usize::MAX as u64) {
                Some(x) => x as usize,
                None => 1,
            }
        } else {
            1
        };
        assert(idx == segment_index(seg));
        let cs = doc.children(node, tag);
        if 1 <= idx && idx <= cs.len() {
            node = cs[idx - 1];
        } else {
            return Some((None, None));
        }
        k = k + 1;
    }
    Some((Some(doc.row(node)), Some(doc.column(node))))
}

/// The row and column at which the element named by an element path of the
/// validator (e.g. `/OpenDRIVE/road[2]/lanes`) starts; none when the path
/// names no element.
pub fn resolve_path(doc: &XmlDoc, path: &str) -> (r: (Option<u32>, Option<u32>))
    requires
        path_resolves(doc@, path@),
    ensures
        r == resolved_position(doc@, path@),
{
    match resolve_walk(doc, path) {
        Some(p) => p,
        None => (None, None),
    }
}

/// Whether an element path can be resolved (what `resolve_path` asks of it).
pub fn path_can_be_resolved(doc: &XmlDoc, path: &str) -> (r: bool)
    ensures
        r == path_resolves(doc@, path@),
{
    resolve_walk(doc, path).is_some()
}

/// The model after a validation error with element path `path` and message
/// `message` was recorded: an issue with a file location at the element the
/// path names (without position when it names none or there is no path).
pub open spec fn schema_error_reported(
    r: ResultView,
    d: Seq<ElementView>,
    path: Option<Seq<char>>,
    message: Seq<char>,
) -> ResultView {
    let (row, column) = match path {
        Some(p) => resolved_position(d, p),
        None => (None, None),
    };
    r.issue_registered(
        "check_asam_xodr_xml_valid_schema"@,
        "Issue flagging when input file does not follow its version schema"@,
        IssueSeverity::Error,
        "asam.net:xodr:1.0.0:xml.valid_schema"@,
    ).with_location(
        "check_asam_xodr_xml_valid_schema"@,
        r.next_id,
        file_location_view(message, FileLocation { row, column, offset: None }),
        true,
    )
}

/// Records a validation error of the schema check.
pub fn report_schema_error(result: &mut Result, doc: &XmlDoc, element_path: Option<&str>, message: &str)
    requires
        element_path matches Some(p) ==> path_resolves(doc@, p@),
    ensures
        final(result)@ == schema_error_reported(
            old(result)@,
            doc@,
            match element_path {
                Some(p) => Some(p@),
                None => None,
            },
            message@,
        ),
{
    let (row, column) = match element_path {
        Some(p) => resolve_path(doc, p),
        None => (None, None),
    };
    let id = result.register_issue(
        "check_asam_xodr_xml_valid_schema",
        "Issue flagging when input file does not follow its version schema",
        IssueSeverity::Error,
        "asam.net:xodr:1.0.0:xml.valid_schema",
    );
    result.add_file_location("check_asam_xodr_xml_valid_schema", id, row, column, None, message);
}


pub open spec fn error_path_view(p: Option<String>) -> Option<Seq<char>> {
    match p {
        Some(s) => Some(s@),
        None => None,
    }
}

/// The model after the first `n` validation errors were recorded, in order.
pub open spec fn schema_errors_reported(
    r: ResultView,
    d: Seq<ElementView>,
    errors: Seq<(Option<String>, String)>,
    n: int,
) -> ResultView
    decreases n,
{
    if n <= 0 {
        r
    } else {
        schema_error_reported(
            schema_errors_reported(r, d, errors, n - 1),
            d,
            error_path_view(errors[n - 1].0),
            errors[n - 1].1@,
        )
    }
}

/// Whether every element path of the validation errors can be resolved.
pub open spec fn errors_resolve(d: Seq<ElementView>, errors: Seq<(Option<String>, String)>) -> bool {
    forall|k: int| 0 <= k < errors.len() ==> match #[trigger] errors[k].0 {
        Some(p) => path_resolves(d, p@),
        None => true,
    }
}

/// Records the validation errors (element path, message) of the schema
/// check, in order.
pub fn report_schema_errors(result: &mut Result, doc: &XmlDoc, errors: &Vec<(Option<String>, String)>)
    requires
        errors_resolve(doc@, errors@),
    ensures
        final(result)@ == schema_errors_reported(old(result)@, doc@, errors@, errors@.len() as int),
{
    let ghost r0 = result@;
    let n = errors.len();
    let mut i: usize = 0;
    while i < n
        invariant
            i <= n,
            n == errors@.len(),
            errors_resolve(doc@, errors@),
            result@ == schema_errors_reported(r0, doc@, errors@, i as int),
        decreases n - i,
    {
        let e = &errors[i];
        let path = match &e.0 {
            Some(p) => Some(p.as_str()),
            None => None,
        };
        assert(match errors@[i as int].0 {
            Some(p) => path_resolves(doc@, p@),
            None => true,
        });
        report_schema_error(result, doc, path, e.1.as_str());
        i = i + 1;
    }
}

/// Whether every element path of the validation errors can be resolved
/// (what `report_schema_errors` asks of them).
pub fn error_paths_resolve(doc: &XmlDoc, errors: &Vec<(Option<String>, String)>) -> (r: bool)
    ensures
        r == errors_resolve(doc@, errors@),
{
    let n = errors.len();
    let mut i: usize = 0;
    while i < n
        invariant
            i <= n,
            n == errors@.len(),
            forall|k: int| 0 <= k < i ==> match #[trigger] errors@[k].0 {
                Some(p) => path_resolves(doc@, p@),
                None => true,
            },
        decreases n - i,
    {
        match &errors[i].0 {
            Some(p) => {
                if !path_can_be_resolved(doc, p.as_str()) {
                    assert(!match errors@[i as int].0 {
                        Some(q) => path_resolves(doc@, q@),
                        None => true,
                    });
                    return false;
                }
            },
            None => {},
        }
        i = i + 1;
    }
    true
}

/// Why the schema check could not validate the input.
#[derive(Clone, Copy, Debug, PartialEq, Eq, Structural)]
pub enum SchemaFailure {
    /// The schema file could not be read.
    ReadSchema,
    /// The schema did not compile.
    Compile,
    /// The input file could not be read.
    ReadInput,
    /// The input is not UTF-8.
    InputNotUtf8,
    /// The input is not well-formed XML.
    ParseInput,
    /// The validator stopped on the input.
    Driver,
}

/// The summary the schema checker ends with on a failure, `message` telling
/// the details.
pub open spec fn failure_summary(f: SchemaFailure, message: Seq<char>) -> Seq<char> {
    match f {
        SchemaFailure::ReadSchema => "Cannot read schema file "@ + message,
        SchemaFailure::Compile => "Failed to compile schema: "@ + message,
        SchemaFailure::ReadInput => "Cannot read input file: "@ + message,
        SchemaFailure::InputNotUtf8 => "Input is not valid UTF-8: "@ + message,
        SchemaFailure::ParseInput => "Cannot parse input XML: "@ + message,
        SchemaFailure::Driver => "Validation driver error: "@ + message,
    }
}

/// Whether an outcome of the validation is a failure of kind `f`.
pub open spec fn failed_with(r: std::result::Result<Vec<(Option<String>, String)>, (SchemaFailure, String)>, f: SchemaFailure) -> bool {
    match r {
        Err((g, _)) => g == f,
        Ok(_) => false,
    }
}

#[verifier::external_type_specification]
#[verifier::external_body]
pub struct ExSchemaSetBuilder(SchemaSetBuilder);

#[verifier::external_type_specification]
#[verifier::external_body]
pub struct ExCompiledSchemaSet(CompiledSchemaSet);

/// Whether `xsd_schema::SchemaSetBuilder::add_source` accepts the schema
/// text `text`, added under `base_uri`, on a fresh builder for XSD 1.1 (when
/// `xsd11`) or XSD 1.0: the text is parsed as a schema document of that
/// version; the base URI only names the document.
pub uninterp spec fn xsd_source_accepted(text: Seq<char>, base_uri: Seq<char>, xsd11: bool) -> bool;

/// `xsd_schema::SchemaSetBuilder::new` (a builder for XSD 1.0), then
/// `add_source` of the schema text under `base_uri`: the builder, or the
/// error's text. Whether the text is accepted is named by
/// `xsd_source_accepted`. The `expect`s and `unreachable!`s on the parsing
/// path (the XML reader's stack of namespace marks, a character lookup in
/// the URI parser) each follow a test of the same condition in the source,
/// so no schema text is known to panic there; none is ruled out either.
#[verifier::external_body]
fn xsd10_source(xsd_text: &str, base_uri: &str) -> (r: std::result::Result<SchemaSetBuilder, String>)
    ensures
        r is Ok == xsd_source_accepted(xsd_text@, base_uri@, false),
{
    SchemaSetBuilder::new().add_source(xsd_text, base_uri).map_err(|e| e.to_string())
}

/// `xsd_schema::SchemaSetBuilder::xsd11` (a builder for XSD 1.1), then
/// `add_source` of the schema text under `base_uri`: the builder, or the
/// error's text. Whether the text is accepted is named by
/// `xsd_source_accepted`. As for `xsd10_source`, no text is ruled out.
#[verifier::external_body]
fn xsd11_source(xsd_text: &str, base_uri: &str) -> (r: std::result::Result<SchemaSetBuilder, String>)
    ensures
        r is Ok == xsd_source_accepted(xsd_text@, base_uri@, true),
{
    SchemaSetBuilder::xsd11().add_source(xsd_text, base_uri).map_err(|e| e.to_string())
}

/// `xsd_schema::SchemaSetBuilder::compile`: compiles the schema, which also
/// reads the schema documents it includes or imports from disk, so nothing
/// is promised of the outcome; the error's text on failure. The `expect`s on
/// its path (the directive resolver's stack of open documents) each follow a
/// test that the stack is not empty, so no schema is known to panic there;
/// none is ruled out either.
#[verifier::external_body]
fn compile_schema(b: SchemaSetBuilder) -> (r: std::result::Result<CompiledSchemaSet, String>) {
    b.compile().map_err(|e| e.to_string())
}

/// Validates `xml` against a compiled schema: `roxmltree::Document::parse`
/// of the text, then `xsd_schema::validation::drive_navigator` over it with
/// a `SchemaValidator` whose `CollectingValidationSink` gathers the errors.
/// The validator borrows the schema and the sink borrows the error list, so
/// the calls stand together here. The outcome: the input does not parse
/// exactly when `roxmltree_parse` says so; otherwise the validator stopped
/// (the driver's error, debug-formatted), or the element path and message of
/// each error, in the order the validator reports them. Which errors there
/// are is not stated.
#[verifier::external_body]
fn validate_with(compiled: &CompiledSchemaSet, xml: &str) -> (r: std::result::Result<Vec<(Option<String>, String)>, (SchemaFailure, String)>)
    ensures
        r matches Err((f, _)) ==> f == SchemaFailure::ParseInput || f == SchemaFailure::Driver,
        failed_with(r, SchemaFailure::ParseInput) <==> roxmltree_parse(xml@) is Err,
{
    let doc = roxmltree::Document::parse(xml).map_err(|e| (SchemaFailure::ParseInput, e.to_string()))?;
    let (mut errors, mut warnings) = (Vec::new(), Vec::new());
    let validator = SchemaValidator::new(&compiled.schema_set, ValidationFlags::default());
    let mut run = validator.start_run(CollectingValidationSink { errors: &mut errors, warnings: &mut warnings });
    drive_navigator(&RoXmlNavigator::new(&doc), &mut run, &compiled.schema_set)
        .map_err(|e| (SchemaFailure::Driver, format!("{:?}", e)))?;
    drop(run);
    Ok(errors.iter().map(|e| (e.element_path().map(String::from), e.message.clone())).collect())
}

/// Validates the input against the schema `xsd_text` (read from `xsd_path`;
/// XSD 1.1 when `xsd11`): the schema is compiled first, then the input is
/// taken (`input` is its text, or why it could not be had) and validated.
/// The outcome is the element path and message of each validation error, or
/// the failure that stopped the check. A schema text that the builder of the
/// requested version does not accept fails to compile; whether an accepted
/// one compiles depends on the schema files it includes from disk and is not
/// stated. When it compiles, the outcome is the input's failure, or a parse
/// failure exactly when the text is not well-formed, or what the validator
/// gives.
pub fn xsd_validation(
    xsd_text: &str,
    xsd_path: &str,
    input: std::result::Result<&str, (SchemaFailure, String)>,
    xsd11: bool,
) -> (r: std::result::Result<Vec<(Option<String>, String)>, (SchemaFailure, String)>)
    ensures
        r matches Err((f, m)) ==> f == SchemaFailure::Compile || match input {
            Err((g, n)) => f == g && m@ == n@,
            Ok(_) => f == SchemaFailure::ParseInput || f == SchemaFailure::Driver,
        },
        !xsd_source_accepted(xsd_text@, xsd_path@, xsd11) ==> failed_with(r, SchemaFailure::Compile),
        input is Err ==> r is Err,
        input matches Ok(t) ==> (failed_with(r, SchemaFailure::ParseInput) ==> roxmltree_parse(t@) is Err),
        input matches Ok(t) ==> (roxmltree_parse(t@) is Err ==> r is Err),
{
    let added = if xsd11 { xsd11_source(xsd_text, xsd_path) } else { xsd10_source(xsd_text, xsd_path) };
    let builder = match added {
        Ok(b) => b,
        Err(m) => return Err((SchemaFailure::Compile, m)),
    };
    let compiled = match compile_schema(builder) {
        Ok(c) => c,
        Err(m) => return Err((SchemaFailure::Compile, m)),
    };
    match input {
        Err((g, n)) => Err((g, n)),
        Ok(text) => validate_with(&compiled, text),
    }
}

/// Ends the schema check with the outcome of the validation: on a failure
/// the checker ends in error with the failure's summary; otherwise each
/// validation error becomes an issue.
pub fn valid_schema_outcome(
    result: &mut Result,
    doc: &XmlDoc,
    outcome: std::result::Result<Vec<(Option<String>, String)>, (SchemaFailure, String)>,
)
    requires
        outcome matches Ok(es) ==> errors_resolve(doc@, es@),
    ensures
        match outcome {
            Err((f, m)) => final(result)@ == old(result)@.concluded(
                "check_asam_xodr_xml_valid_schema"@,
                StatusType::Error,
                failure_summary(f, m@),
            ),
            Ok(es) => final(result)@ == schema_errors_reported(old(result)@, doc@, es@, es@.len() as int),
        },
{
    match outcome {
        Ok(es) => report_schema_errors(result, doc, &es),
        Err((f, m)) => {
            let mut summary = match f {
                SchemaFailure::ReadSchema => "Cannot read schema file ".to_owned(),
                SchemaFailure::Compile => "Failed to compile schema: ".to_owned(),
                SchemaFailure::ReadInput => "Cannot read input file: ".to_owned(),
                SchemaFailure::InputNotUtf8 => "Input is not valid UTF-8: ".to_owned(),
                SchemaFailure::ParseInput => "Cannot parse input XML: ".to_owned(),
                SchemaFailure::Driver => "Validation driver error: ".to_owned(),
            };
            summary.append(m.as_str());
            result.set_checker_status("check_asam_xodr_xml_valid_schema", StatusType::Error);
            result.add_checker_summary("check_asam_xodr_xml_valid_schema", summary.as_str());
        },
    }
}

} // verus!
