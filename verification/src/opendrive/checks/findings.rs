//! What a semantic checker finds, before it is recorded: each finding is an
//! issue with its description and severity, and the places it points at,
//! either elements of the document or points of the road network whose
//! coordinates are computed outside the library.
use vstd::prelude::*;

use crate::opendrive::checks::pair_added;
use crate::result::{inertial_location_view, InertialLocation, IssueSeverity, Result, ResultView};
use crate::xml::{ElementView, XmlDoc};

verus! {

/// Where along a lane its middle point is taken.
#[derive(Clone, Copy, Debug, PartialEq, Eq, Structural)]
pub enum LanePosition {
    /// At the start of the road (s = 0).
    RoadStart,
    /// At the end of the road (s = road length).
    RoadEnd,
    /// Halfway along the lane section.
    SectionMiddle,
    /// At the start of the lane section.
    SectionStart,
    /// At the end of the lane section.
    SectionEnd,
}

/// A point of the road network that a finding points at.
#[derive(Clone, Copy, Debug, PartialEq, Eq, Structural)]
pub enum PointRequest {
    /// The start of a road's reference line.
    RoadStart(usize),
    /// The end of a road's reference line.
    RoadEnd(usize),
    /// The middle of a road's reference line.
    RoadMiddle(usize),
    /// The middle of a lane (road, lane section, lane) at height zero.
    LaneMiddle(usize, usize, usize, LanePosition),
}

/// A place a finding points at, with the description it is recorded with:
/// an element of the document (its xpath and its row), or a point.
#[derive(Clone, Debug)]
pub enum FindingLocation {
    Node(String, usize),
    Point(String, PointRequest),
}

/// An issue a checker found.
#[derive(Clone, Debug)]
pub struct Finding {
    pub description: String,
    pub level: IssueSeverity,
    pub locations: Vec<FindingLocation>,
}

pub ghost enum LocationRequest {
    Node(Seq<char>, usize),
    Point(Seq<char>, PointRequest),
}

#[verifier::ext_equal]
pub ghost struct FindingView {
    pub description: Seq<char>,
    pub level: IssueSeverity,
    pub locations: Seq<LocationRequest>,
}

impl View for FindingLocation {
    type V = LocationRequest;

    open spec fn view(&self) -> LocationRequest {
        match self {
            FindingLocation::Node(d, n) => LocationRequest::Node(d@, *n),
            FindingLocation::Point(d, p) => LocationRequest::Point(d@, *p),
        }
    }
}

impl View for Finding {
    type V = FindingView;

    open spec fn view(&self) -> FindingView {
        FindingView {
            description: self.description@,
            level: self.level,
            locations: self.locations@.map_values(|l: FindingLocation| l@),
        }
    }
}

pub open spec fn findings_view(fs: Seq<Finding>) -> Seq<FindingView> {
    fs.map_values(|f: Finding| f@)
}

/// Every element a finding points at is an element of `d`.
pub open spec fn location_in(d: Seq<ElementView>, l: LocationRequest) -> bool {
    match l {
        LocationRequest::Node(_, n) => n < d.len(),
        LocationRequest::Point(_, _) => true,
    }
}

pub open spec fn findings_in(d: Seq<ElementView>, fs: Seq<FindingView>) -> bool {
    forall|i: int, j: int|
        0 <= i < fs.len() && 0 <= j < fs[i].locations.len() ==> location_in(d, #[trigger] fs[i].locations[j])
}

pub type PointView = Option<(Seq<char>, Seq<char>, Seq<char>)>;

pub open spec fn point_views(ps: Seq<Option<InertialLocation>>) -> Seq<PointView> {
    ps.map_values(|p: Option<InertialLocation>| match p {
        Some(q) => Some(q@),
        None => None,
    })
}

/// The model after location `l` of issue `issue_id` was recorded, with
/// `p` the computed point for a point location (nothing is recorded for a
/// point that could not be computed).
pub open spec fn location_recorded(
    r: ResultView,
    d: Seq<ElementView>,
    checker_id: Seq<char>,
    issue_id: u32,
    l: LocationRequest,
    p: PointView,
) -> ResultView {
    match l {
        LocationRequest::Node(desc, n) => pair_added(r, d, checker_id, issue_id, desc, n as int, n as int),
        LocationRequest::Point(desc, _) => match p {
            Some(q) => r.with_location(checker_id, issue_id, inertial_location_view(desc, q), false),
            None => r,
        },
    }
}

/// The model after the first `n` locations were recorded.
pub open spec fn locations_recorded(
    r: ResultView,
    d: Seq<ElementView>,
    checker_id: Seq<char>,
    issue_id: u32,
    ls: Seq<LocationRequest>,
    ps: Seq<PointView>,
    n: int,
) -> ResultView
    decreases n,
{
    if n <= 0 {
        r
    } else {
        location_recorded(
            locations_recorded(r, d, checker_id, issue_id, ls, ps, n - 1),
            d,
            checker_id,
            issue_id,
            ls[n - 1],
            ps[n - 1],
        )
    }
}

/// The model after finding `f` was recorded as an issue of `checker_id`.
pub open spec fn finding_recorded(
    r: ResultView,
    d: Seq<ElementView>,
    checker_id: Seq<char>,
    rule_uid: Seq<char>,
    f: FindingView,
    ps: Seq<PointView>,
) -> ResultView {
    locations_recorded(
        r.issue_registered(checker_id, f.description, f.level, rule_uid),
        d,
        checker_id,
        r.next_id,
        f.locations,
        ps,
        f.locations.len() as int,
    )
}

/// The model after the first `n` findings were recorded, in order.
pub open spec fn findings_recorded(
    r: ResultView,
    d: Seq<ElementView>,
    checker_id: Seq<char>,
    rule_uid: Seq<char>,
    fs: Seq<FindingView>,
    ps: Seq<Seq<PointView>>,
    n: int,
) -> ResultView
    decreases n,
{
    if n <= 0 {
        r
    } else {
        finding_recorded(
            findings_recorded(r, d, checker_id, rule_uid, fs, ps, n - 1),
            d,
            checker_id,
            rule_uid,
            fs[n - 1],
            ps[n - 1],
        )
    }
}

pub open spec fn all_point_views(ps: Seq<Vec<Option<InertialLocation>>>) -> Seq<Seq<PointView>> {
    ps.map_values(|v: Vec<Option<InertialLocation>>| point_views(v@))
}

fn record_finding(
    result: &mut Result,
    doc: &XmlDoc,
    checker_id: &str,
    rule_uid: &str,
    f: &Finding,
    points: &Vec<Option<InertialLocation>>,
)
    requires
        points@.len() == f.locations@.len(),
        forall|j: int| 0 <= j < f.locations@.len() ==> location_in(doc@, #[trigger] f.locations@[j]@),
    ensures
        final(result)@ == finding_recorded(old(result)@, doc@, checker_id@, rule_uid@, f@, point_views(points@)),
{
    let ghost r0 = result@;
    let id = result.register_issue(checker_id, f.description.as_str(), f.level, rule_uid);
    let n = f.locations.len();
    let mut j: usize = 0;
    while j < n
        invariant
            j <= n,
            n == f.locations@.len(),
            points@.len() == n,
            id == r0.next_id,
            forall|k: int| 0 <= k < f.locations@.len() ==> location_in(doc@, #[trigger] f.locations@[k]@),
            result@ == locations_recorded(
                r0.issue_registered(checker_id@, f@.description, f@.level, rule_uid@),
                doc@,
                checker_id@,
                id,
                f@.locations,
                point_views(points@),
                j as int,
            ),
        decreases n - j,
    {
        assert(f@.locations[j as int] == f.locations@[j as int]@);
        match &f.locations[j] {
            FindingLocation::Node(desc, node) => {
                assert(location_in(doc@, f.locations@[j as int]@));
                crate::opendrive::checks::add_location_pair(result, doc, checker_id, id, desc.as_str(), *node, *node);
            },
            FindingLocation::Point(desc, _) => {
                match &points[j] {
                    Some(p) => {
                        result.add_inertial_location(
                            checker_id,
                            id,
                            p.x.as_str(),
                            p.y.as_str(),
                            p.z.as_str(),
                            desc.as_str(),
                        );
                    },
                    None => {},
                }
            },
        }
        j = j + 1;
    }
}

/// Records `findings` in order as issues of `checker_id`; `points` holds, for
/// each location of each finding, the point computed for it where it is a
/// point location.
pub fn record_findings(
    result: &mut Result,
    doc: &XmlDoc,
    checker_id: &str,
    rule_uid: &str,
    findings: &Vec<Finding>,
    points: &Vec<Vec<Option<InertialLocation>>>,
)
    requires
        findings_in(doc@, findings_view(findings@)),
        points@.len() == findings@.len(),
        forall|i: int| 0 <= i < points@.len() ==> (#[trigger] points@[i])@.len() == findings@[i].locations@.len(),
    ensures
        final(result)@ == findings_recorded(
            old(result)@,
            doc@,
            checker_id@,
            rule_uid@,
            findings_view(findings@),
            all_point_views(points@),
            findings@.len() as int,
        ),
{
    let ghost r0 = result@;
    let n = findings.len();
    let mut i: usize = 0;
    while i < n
        invariant
            i <= n,
            n == findings@.len(),
            points@.len() == n,
            forall|k: int| 0 <= k < points@.len() ==> (#[trigger] points@[k])@.len() == findings@[k].locations@.len(),
            findings_in(doc@, findings_view(findings@)),
            result@ == findings_recorded(
                r0,
                doc@,
                checker_id@,
                rule_uid@,
                findings_view(findings@),
                all_point_views(points@),
                i as int,
            ),
        decreases n - i,
    {
        assert forall|j: int| 0 <= j < findings@[i as int].locations@.len() implies location_in(
            doc@,
            #[trigger] findings@[i as int].locations@[j]@,
        ) by {
            assert(findings_view(findings@)[i as int].locations[j] == findings@[i as int].locations@[j]@);
        }
        record_finding(result, doc, checker_id, rule_uid, &findings[i], &points[i]);
        i = i + 1;
    }
}


/// What recording a location leaves unchanged: the checkers, their ids and
/// how many issues each has.
pub open spec fn same_shape(a: ResultView, b: ResultView) -> bool {
    &&& a.bundle.checkers.len() == b.bundle.checkers.len()
    &&& forall|j: int| 0 <= j < a.bundle.checkers.len() ==> (#[trigger] a.bundle.checkers[j]).checker_id
        == b.bundle.checkers[j].checker_id && a.bundle.checkers[j].issues.len() == b.bundle.checkers[j].issues.len()
}

proof fn lemma_with_location_shape(r: ResultView, id: Seq<char>, issue_id: u32, loc: crate::result::LocationView, rb: bool)
    ensures
        same_shape(r, r.with_location(id, issue_id, loc, rb)),
        r.with_location(id, issue_id, loc, rb).next_id == r.next_id,
{
    crate::result::lemma_checker_pos_from_range(r.bundle.checkers, id, 0);
    match crate::result::checker_pos(r.bundle.checkers, id) {
        None => {},
        Some(k) => {
            crate::result::lemma_issue_pos_from_range(r.bundle.checkers[k].issues, issue_id, 0);
        },
    }
}

proof fn lemma_locations_shape(
    r: ResultView,
    d: Seq<ElementView>,
    checker_id: Seq<char>,
    issue_id: u32,
    ls: Seq<LocationRequest>,
    ps: Seq<PointView>,
    n: int,
)
    ensures
        same_shape(r, locations_recorded(r, d, checker_id, issue_id, ls, ps, n)),
        locations_recorded(r, d, checker_id, issue_id, ls, ps, n).next_id == r.next_id,
    decreases n,
{
    if n > 0 {
        lemma_locations_shape(r, d, checker_id, issue_id, ls, ps, n - 1);
        let r0 = locations_recorded(r, d, checker_id, issue_id, ls, ps, n - 1);
        match ls[n - 1] {
            LocationRequest::Node(desc, node) => {
                let r1 = r0.with_location(
                    checker_id,
                    issue_id,
                    crate::result::xml_location_view(desc, crate::xml::xpath(d, node as int)),
                    true,
                );
                lemma_with_location_shape(
                    r0,
                    checker_id,
                    issue_id,
                    crate::result::xml_location_view(desc, crate::xml::xpath(d, node as int)),
                    true,
                );
                lemma_with_location_shape(
                    r1,
                    checker_id,
                    issue_id,
                    crate::result::file_location_view(desc, crate::opendrive::checks::node_file_location(d, node as int)),
                    true,
                );
            },
            LocationRequest::Point(desc, _) => {
                match ps[n - 1] {
                    Some(q) => lemma_with_location_shape(r0, checker_id, issue_id, inertial_location_view(desc, q), false),
                    None => {},
                }
            },
        }
    }
}

/// Recording findings on a registered checker gives it exactly one new issue
/// per finding, and changes no other checker's number of issues.
pub proof fn law_one_issue_per_finding(
    r: ResultView,
    d: Seq<ElementView>,
    checker_id: Seq<char>,
    rule_uid: Seq<char>,
    fs: Seq<FindingView>,
    ps: Seq<Seq<PointView>>,
    n: int,
)
    requires
        crate::result::checker_pos(r.bundle.checkers, checker_id) is Some,
        0 <= n <= fs.len(),
        n <= ps.len(),
    ensures
        ({
            let k = crate::result::checker_pos(r.bundle.checkers, checker_id).unwrap();
            let r1 = findings_recorded(r, d, checker_id, rule_uid, fs, ps, n);
            &&& r1.bundle.checkers.len() == r.bundle.checkers.len()
            &&& r1.bundle.checkers[k].issues.len() == r.bundle.checkers[k].issues.len() + n
            &&& forall|j: int| 0 <= j < r.bundle.checkers.len() && j != k ==> (#[trigger] r1.bundle.checkers[j]).issues.len()
                == r.bundle.checkers[j].issues.len()
            &&& crate::result::checker_pos(r1.bundle.checkers, checker_id) == Some(k)
        }),
    decreases n,
{
    let k = crate::result::checker_pos(r.bundle.checkers, checker_id).unwrap();
    crate::result::lemma_checker_pos_from_range(r.bundle.checkers, checker_id, 0);
    if n > 0 {
        law_one_issue_per_finding(r, d, checker_id, rule_uid, fs, ps, n - 1);
        let r0 = findings_recorded(r, d, checker_id, rule_uid, fs, ps, n - 1);
        let f = fs[n - 1];
        let r1 = r0.issue_registered(checker_id, f.description, f.level, rule_uid);
        crate::result::law_issue_registered_appends(r0, checker_id, f.description, f.level, rule_uid);
        lemma_locations_shape(r1, d, checker_id, r0.next_id, f.locations, ps[n - 1], f.locations.len() as int);
        lemma_same_shape_pos(r0, r1, checker_id, 0);
        let r2 = findings_recorded(r, d, checker_id, rule_uid, fs, ps, n);
        assert(r2 == locations_recorded(r1, d, checker_id, r0.next_id, f.locations, ps[n - 1], f.locations.len() as int));
        lemma_same_shape_pos(r1, r2, checker_id, 0);
        assert(r2.bundle.checkers.len() == r.bundle.checkers.len());
        assert(r1.bundle.checkers[k].issues.len() == r0.bundle.checkers[k].issues.len() + 1);
        assert(r2.bundle.checkers[k].issues.len() == r1.bundle.checkers[k].issues.len());
        assert forall|j: int| 0 <= j < r.bundle.checkers.len() && j != k implies (#[trigger] r2.bundle.checkers[j]).issues.len()
            == r.bundle.checkers[j].issues.len() by {
            assert(r1.bundle.checkers[j] == r0.bundle.checkers[j]);
            assert(r2.bundle.checkers[j].issues.len() == r1.bundle.checkers[j].issues.len());
        }
    }
}

proof fn lemma_same_shape_pos(a: ResultView, b: ResultView, id: Seq<char>, from: int)
    requires
        a.bundle.checkers.len() == b.bundle.checkers.len(),
        forall|j: int| 0 <= j < a.bundle.checkers.len() ==> (#[trigger] a.bundle.checkers[j]).checker_id
            == b.bundle.checkers[j].checker_id,
        0 <= from,
    ensures
        crate::result::checker_pos_from(a.bundle.checkers, id, from) == crate::result::checker_pos_from(
            b.bundle.checkers,
            id,
            from,
        ),
    decreases a.bundle.checkers.len() - from,
{
    if from < a.bundle.checkers.len() {
        assert(a.bundle.checkers[from].checker_id == b.bundle.checkers[from].checker_id);
        lemma_same_shape_pos(a, b, id, from + 1);
    }
}

} // verus!
