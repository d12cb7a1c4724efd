//! The result of a checker-bundle run: registered checkers, the rules they
//! address, the issues they raise with their locations, statuses and
//! summaries.
use vstd::prelude::*;
use vstd::string::StringExecFns;

use crate::text::{dec, push_dec, str_eq};

verus! {

/// Severity of an issue.
#[derive(Clone, Copy, PartialEq, Eq, Debug, Structural)]
pub enum IssueSeverity {
    Error,
    Warning,
    Information,
}

impl IssueSeverity {
    pub open spec fn spec_as_str(self) -> Seq<char> {
        match self {
            IssueSeverity::Error => "error"@,
            IssueSeverity::Warning => "warning"@,
            IssueSeverity::Information => "information"@,
        }
    }

    pub open spec fn spec_name(self) -> Seq<char> {
        match self {
            IssueSeverity::Error => "ERROR"@,
            IssueSeverity::Warning => "WARNING"@,
            IssueSeverity::Information => "INFORMATION"@,
        }
    }

    /// The lower-case name used in the xqar report.
    pub fn as_str(&self) -> (r: &'static str)
        ensures
            r@ == self.spec_as_str(),
    {
        match self {
            IssueSeverity::Error => "error",
            IssueSeverity::Warning => "warning",
            IssueSeverity::Information => "information",
        }
    }

    /// The upper-case name used in the text report.
    pub fn name(&self) -> (r: &'static str)
        ensures
            r@ == self.spec_name(),
    {
        match self {
            IssueSeverity::Error => "ERROR",
            IssueSeverity::Warning => "WARNING",
            IssueSeverity::Information => "INFORMATION",
        }
    }
}

/// Status of a checker run.
#[derive(Clone, Copy, PartialEq, Eq, Debug, Structural)]
pub enum StatusType {
    Completed,
    Skipped,
    Error,
    Unset,
}

impl StatusType {
    pub open spec fn spec_as_str(self) -> Seq<char> {
        match self {
            StatusType::Completed => "completed"@,
            StatusType::Skipped => "skipped"@,
            StatusType::Error => "error"@,
            StatusType::Unset => "none"@,
        }
    }

    pub open spec fn spec_name(self) -> Seq<char> {
        match self {
            StatusType::Completed => "COMPLETED"@,
            StatusType::Skipped => "SKIPPED"@,
            StatusType::Error => "ERROR"@,
            StatusType::Unset => "NONE"@,
        }
    }

    /// The lower-case name used in the xqar report.
    pub fn as_str(&self) -> (r: &'static str)
        ensures
            r@ == self.spec_as_str(),
    {
        match self {
            StatusType::Completed => "completed",
            StatusType::Skipped => "skipped",
            StatusType::Error => "error",
            StatusType::Unset => "none",
        }
    }

    /// The upper-case name used in the text report.
    pub fn name(&self) -> (r: &'static str)
        ensures
            r@ == self.spec_name(),
    {
        match self {
            StatusType::Completed => "COMPLETED",
            StatusType::Skipped => "SKIPPED",
            StatusType::Error => "ERROR",
            StatusType::Unset => "NONE",
        }
    }
}

impl Default for StatusType {
    fn default() -> (r: Self)
        ensures
            r == StatusType::Unset,
    {
        StatusType::Unset
    }
}

#[derive(Clone, Debug)]
pub struct Param {
    pub name: String,
    pub value: String,
}

#[derive(Clone, Copy, Debug, PartialEq, Eq, Structural)]
pub struct FileLocation {
    pub row: Option<u32>,
    pub column: Option<u32>,
    pub offset: Option<u64>,
}

#[derive(Clone, Debug)]
pub struct XmlLocation {
    pub xpath: String,
}

/// A point in the inertial system, each coordinate held as the decimal text
/// that the reports print for it.
#[derive(Clone, Debug)]
pub struct InertialLocation {
    pub x: String,
    pub y: String,
    pub z: String,
}

#[derive(Clone, Debug)]
pub struct Location {
    pub description: String,
    pub file: Vec<FileLocation>,
    pub xml: Vec<XmlLocation>,
    pub inertial: Vec<InertialLocation>,
}

#[derive(Clone, Debug)]
pub struct RuleUid {
    pub rule_uid: String,
}

#[derive(Clone, Debug)]
pub struct Issue {
    pub issue_id: u32,
    pub description: String,
    pub level: IssueSeverity,
    pub rule_uid: String,
    pub locations: Vec<Location>,
}

#[derive(Clone, Debug)]
pub struct Checker {
    pub checker_id: String,
    pub description: String,
    pub status: Option<StatusType>,
    pub summary: String,
    pub addressed_rules: Vec<RuleUid>,
    pub issues: Vec<Issue>,
    pub params: Vec<Param>,
}

#[derive(Clone, Debug)]
pub struct CheckerBundle {
    pub name: String,
    pub version: String,
    pub description: String,
    pub summary: String,
    pub checkers: Vec<Checker>,
    pub params: Vec<Param>,
}

#[derive(Debug)]
pub struct Result {
    pub bundle: CheckerBundle,
    pub next_id: u32,
}

// ---------------------------------------------------------------------------
// Mathematical model
// ---------------------------------------------------------------------------

#[verifier::ext_equal]
pub ghost struct LocationView {
    pub description: Seq<char>,
    pub file: Seq<FileLocation>,
    pub xml: Seq<Seq<char>>,
    pub inertial: Seq<(Seq<char>, Seq<char>, Seq<char>)>,
}

#[verifier::ext_equal]
pub ghost struct IssueView {
    pub issue_id: u32,
    pub description: Seq<char>,
    pub level: IssueSeverity,
    pub rule_uid: Seq<char>,
    pub locations: Seq<LocationView>,
}

#[verifier::ext_equal]
pub ghost struct CheckerView {
    pub checker_id: Seq<char>,
    pub description: Seq<char>,
    pub status: Option<StatusType>,
    pub summary: Seq<char>,
    pub addressed_rules: Seq<Seq<char>>,
    pub issues: Seq<IssueView>,
    pub params: Seq<(Seq<char>, Seq<char>)>,
}

#[verifier::ext_equal]
pub ghost struct BundleView {
    pub name: Seq<char>,
    pub version: Seq<char>,
    pub description: Seq<char>,
    pub summary: Seq<char>,
    pub checkers: Seq<CheckerView>,
    pub params: Seq<(Seq<char>, Seq<char>)>,
}

#[verifier::ext_equal]
pub ghost struct ResultView {
    pub bundle: BundleView,
    pub next_id: u32,
}

impl View for Param {
    type V = (Seq<char>, Seq<char>);

    open spec fn view(&self) -> (Seq<char>, Seq<char>) {
        (self.name@, self.value@)
    }
}

impl View for InertialLocation {
    type V = (Seq<char>, Seq<char>, Seq<char>);

    open spec fn view(&self) -> (Seq<char>, Seq<char>, Seq<char>) {
        (self.x@, self.y@, self.z@)
    }
}

impl View for Location {
    type V = LocationView;

    open spec fn view(&self) -> LocationView {
        LocationView {
            description: self.description@,
            file: self.file@,
            xml: self.xml@.map_values(|x: XmlLocation| x.xpath@),
            inertial: self.inertial@.map_values(|i: InertialLocation| i@),
        }
    }
}

impl View for Issue {
    type V = IssueView;

    open spec fn view(&self) -> IssueView {
        IssueView {
            issue_id: self.issue_id,
            description: self.description@,
            level: self.level,
            rule_uid: self.rule_uid@,
            locations: self.locations@.map_values(|l: Location| l@),
        }
    }
}

impl View for Checker {
    type V = CheckerView;

    open spec fn view(&self) -> CheckerView {
        CheckerView {
            checker_id: self.checker_id@,
            description: self.description@,
            status: self.status,
            summary: self.summary@,
            addressed_rules: self.addressed_rules@.map_values(|r: RuleUid| r.rule_uid@),
            issues: self.issues@.map_values(|i: Issue| i@),
            params: self.params@.map_values(|p: Param| p@),
        }
    }
}

impl View for CheckerBundle {
    type V = BundleView;

    open spec fn view(&self) -> BundleView {
        BundleView {
            name: self.name@,
            version: self.version@,
            description: self.description@,
            summary: self.summary@,
            checkers: self.checkers@.map_values(|c: Checker| c@),
            params: self.params@.map_values(|p: Param| p@),
        }
    }
}

impl View for Result {
    type V = ResultView;

    open spec fn view(&self) -> ResultView {
        ResultView { bundle: self.bundle@, next_id: self.next_id }
    }
}

} // verus!

verus! {

/// Position of the first checker registered under `id`, looking from `k` on.
pub open spec fn checker_pos_from(cs: Seq<CheckerView>, id: Seq<char>, k: int) -> Option<int>
    decreases cs.len() - k,
{
    if k < 0 || k >= cs.len() {
        None
    } else if cs[k].checker_id == id {
        Some(k)
    } else {
        checker_pos_from(cs, id, k + 1)
    }
}

/// Position of the first checker registered under `id`.
pub open spec fn checker_pos(cs: Seq<CheckerView>, id: Seq<char>) -> Option<int> {
    checker_pos_from(cs, id, 0)
}

/// Position of the first issue with number `issue_id`, looking from `k` on.
pub open spec fn issue_pos_from(is: Seq<IssueView>, issue_id: u32, k: int) -> Option<int>
    decreases is.len() - k,
{
    if k < 0 || k >= is.len() {
        None
    } else if is[k].issue_id == issue_id {
        Some(k)
    } else {
        issue_pos_from(is, issue_id, k + 1)
    }
}

pub open spec fn issue_pos(is: Seq<IssueView>, issue_id: u32) -> Option<int> {
    issue_pos_from(is, issue_id, 0)
}

pub proof fn lemma_checker_pos_from_range(cs: Seq<CheckerView>, id: Seq<char>, k: int)
    requires
        0 <= k,
    ensures
        checker_pos_from(cs, id, k) matches Some(j) ==> k <= j < cs.len() && cs[j].checker_id
            == id,
        checker_pos_from(cs, id, k) is None ==> forall|j: int|
            k <= j < cs.len() ==> cs[j].checker_id != id,
    decreases cs.len() - k,
{
    if k < cs.len() && cs[k].checker_id != id {
        lemma_checker_pos_from_range(cs, id, k + 1);
    }
}

pub proof fn lemma_issue_pos_from_range(is: Seq<IssueView>, issue_id: u32, k: int)
    requires
        0 <= k,
    ensures
        issue_pos_from(is, issue_id, k) matches Some(j) ==> k <= j < is.len() && is[j].issue_id
            == issue_id,
    decreases is.len() - k,
{
    if k < is.len() && is[k].issue_id != issue_id {
        lemma_issue_pos_from_range(is, issue_id, k + 1);
    }
}

/// `s` extended by `content`, with a space between them when `s` is not empty.
pub open spec fn append_summary(s: Seq<char>, content: Seq<char>) -> Seq<char> {
    if s.len() == 0 { content } else { s + " "@ + content }
}

pub open spec fn new_checker_view(id: Seq<char>, description: Seq<char>) -> CheckerView {
    CheckerView {
        checker_id: id,
        description: description,
        status: None,
        summary: Seq::empty(),
        addressed_rules: Seq::empty(),
        issues: Seq::empty(),
        params: Seq::empty(),
    }
}

pub open spec fn new_issue_view(
    issue_id: u32,
    description: Seq<char>,
    level: IssueSeverity,
    rule_uid: Seq<char>,
) -> IssueView {
    IssueView {
        issue_id: issue_id,
        description: description,
        level: level,
        rule_uid: rule_uid,
        locations: Seq::empty(),
    }
}

/// The issue number that follows `id` (wrapping past `u32::MAX`).
pub open spec fn next_issue_id(id: u32) -> u32 {
    if id == u32::MAX { 0 } else { (id + 1) as u32 }
}

impl ResultView {
    pub open spec fn with_checkers(self, cs: Seq<CheckerView>) -> ResultView {
        ResultView { bundle: BundleView { checkers: cs, ..self.bundle }, ..self }
    }

    /// The model with the checker at position `k` replaced by `c`.
    pub open spec fn with_checker_at(self, k: int, c: CheckerView) -> ResultView {
        self.with_checkers(self.bundle.checkers.update(k, c))
    }
}

impl CheckerView {
    /// The checker with `rule` among its addressed rules (added last when new).
    pub open spec fn with_rule(self, rule: Seq<char>) -> CheckerView {
        if self.addressed_rules.contains(rule) {
            self
        } else {
            CheckerView { addressed_rules: self.addressed_rules.push(rule), ..self }
        }
    }
}

impl Result {
    /// Position of the first checker registered under `checker_id`.
    fn find_checker(&self, checker_id: &str) -> (r: Option<usize>)
        ensures
            r matches Some(k) ==> checker_pos(self@.bundle.checkers, checker_id@) == Some(k as int),
            r is None ==> checker_pos(self@.bundle.checkers, checker_id@) is None,
    {
        let n = self.bundle.checkers.len();
        let mut i: usize = 0;
        while i < n
            invariant
                i <= n,
                n == self.bundle.checkers@.len(),
                checker_pos(self@.bundle.checkers, checker_id@) == checker_pos_from(
                    self@.bundle.checkers,
                    checker_id@,
                    i as int,
                ),
            decreases n - i,
        {
            if str_eq(self.bundle.checkers[i].checker_id.as_str(), checker_id) {
                return Some(i);
            }
            i = i + 1;
        }
        None
    }

    /// An empty result whose first issue will be numbered 1.
    pub fn new() -> (r: Result)
        ensures
            r@.next_id == 1,
            r@.bundle.name.len() == 0,
            r@.bundle.version.len() == 0,
            r@.bundle.description.len() == 0,
            r@.bundle.summary.len() == 0,
            r@.bundle.checkers.len() == 0,
            r@.bundle.params.len() == 0,
    {
        Result {
            bundle: CheckerBundle {
                name: String::new(),
                version: String::new(),
                description: String::new(),
                summary: String::new(),
                checkers: Vec::new(),
                params: Vec::new(),
            },
            next_id: 1,
        }
    }

    /// Registers a checker under `checker_id`, unless one is registered already.
    pub fn register_checker(&mut self, checker_id: &str, description: &str)
        ensures
            checker_pos(old(self)@.bundle.checkers, checker_id@) is Some ==> final(self)@ == old(
                self,
            )@,
            checker_pos(old(self)@.bundle.checkers, checker_id@) is None ==> final(self)@ == old(
                self,
            )@.with_checkers(
                old(self)@.bundle.checkers.push(new_checker_view(checker_id@, description@)),
            ),
    {
        if self.find_checker(checker_id).is_some() {
            return ;
        }
        let c = Checker {
            checker_id: checker_id.to_owned(),
            description: description.to_owned(),
            status: None,
            summary: String::new(),
            addressed_rules: Vec::new(),
            issues: Vec::new(),
            params: Vec::new(),
        };
        assert(c@ =~= new_checker_view(checker_id@, description@));
        self.bundle.checkers.push(c);
        assert(self@.bundle.checkers =~= old(self)@.bundle.checkers.push(
            new_checker_view(checker_id@, description@),
        ));
    }
}


} // verus!

verus! {

impl Result {
    /// Adds `rule_uid` to the rules addressed by the first checker registered
    /// under `checker_id`, unless it is there already.
    pub fn register_rule_by_uid(&mut self, checker_id: &str, rule_uid: &str)
        ensures
            match checker_pos(old(self)@.bundle.checkers, checker_id@) {
                None => final(self)@ == old(self)@,
                Some(k) => final(self)@ == old(self)@.with_checker_at(
                    k,
                    old(self)@.bundle.checkers[k].with_rule(rule_uid@),
                ),
            },
    {
        let pos = self.find_checker(checker_id);
        match pos {
            None => {},
            Some(k) => {
                proof {
                    lemma_checker_pos_from_range(self@.bundle.checkers, checker_id@, 0);
                }
                let n = self.bundle.checkers[k].addressed_rules.len();
                let mut i: usize = 0;
                while i < n
                    invariant
                        i <= n,
                        k < self.bundle.checkers@.len(),
                        self@ == old(self)@,
                        checker_pos(old(self)@.bundle.checkers, checker_id@) == Some(k as int),
                        n == self.bundle.checkers@[k as int].addressed_rules@.len(),
                        forall|j: int|
                            0 <= j < i ==> self@.bundle.checkers[k as int].addressed_rules[j]
                                != rule_uid@,
                    decreases n - i,
                {
                    if str_eq(self.bundle.checkers[k].addressed_rules[i].rule_uid.as_str(), rule_uid) {
                        assert(self@.bundle.checkers[k as int].addressed_rules[i as int] == rule_uid@);
                        assert(self@.bundle.checkers[k as int].addressed_rules.contains(rule_uid@));
                        assert(self@.bundle.checkers.update(k as int, self@.bundle.checkers[k as int])
                            =~= self@.bundle.checkers);
                        assert(self@.with_checker_at(k as int, self@.bundle.checkers[k as int]) =~= self@);
                        return ;
                    }
                    i = i + 1;
                }
                let ghost c0 = self@.bundle.checkers[k as int];
                assert(!c0.addressed_rules.contains(rule_uid@));
                let r = RuleUid { rule_uid: rule_uid.to_owned() };
                self.bundle.checkers[k].addressed_rules.push(r);
                assert(self@.bundle.checkers[k as int] =~= CheckerView {
                    addressed_rules: c0.addressed_rules.push(rule_uid@),
                    ..c0
                });
                assert(self@.bundle.checkers =~= old(self)@.bundle.checkers.update(
                    k as int,
                    CheckerView { addressed_rules: c0.addressed_rules.push(rule_uid@), ..c0 },
                ));
            },
        }
    }
}

} // verus!

verus! {

pub open spec fn is_blank_location(l: LocationView) -> bool {
    l.file.len() == 0 && l.xml.len() == 0 && l.inertial.len() == 0
}

/// `locs` with `loc` appended; a trailing location that holds nothing yet is
/// replaced by it.
pub open spec fn add_location(locs: Seq<LocationView>, loc: LocationView) -> Seq<LocationView> {
    if locs.len() > 0 && is_blank_location(locs.last()) {
        locs.drop_last().push(loc)
    } else {
        locs.push(loc)
    }
}

pub open spec fn file_location_view(desc: Seq<char>, fl: FileLocation) -> LocationView {
    LocationView { description: desc, file: seq![fl], xml: Seq::empty(), inertial: Seq::empty() }
}

pub open spec fn xml_location_view(desc: Seq<char>, xpath: Seq<char>) -> LocationView {
    LocationView { description: desc, file: Seq::empty(), xml: seq![xpath], inertial: Seq::empty() }
}

pub open spec fn inertial_location_view(
    desc: Seq<char>,
    p: (Seq<char>, Seq<char>, Seq<char>),
) -> LocationView {
    LocationView { description: desc, file: Seq::empty(), xml: Seq::empty(), inertial: seq![p] }
}

impl IssueView {
    pub open spec fn with_locations(self, locs: Seq<LocationView>) -> IssueView {
        IssueView { locations: locs, ..self }
    }
}

impl CheckerView {
    pub open spec fn with_issue(self, issue: IssueView) -> CheckerView {
        CheckerView { issues: self.issues.push(issue), ..self }
    }

    pub open spec fn with_issue_at(self, j: int, issue: IssueView) -> CheckerView {
        CheckerView { issues: self.issues.update(j, issue), ..self }
    }

    pub open spec fn with_status(self, status: StatusType) -> CheckerView {
        CheckerView { status: Some(status), ..self }
    }

    pub open spec fn with_summary(self, content: Seq<char>) -> CheckerView {
        CheckerView { summary: append_summary(self.summary, content), ..self }
    }
}

impl ResultView {
    /// The model after `f_loc` was recorded on issue `issue_id` of checker `id`:
    /// unchanged when either is not registered.
    pub open spec fn with_location(
        self,
        id: Seq<char>,
        issue_id: u32,
        loc: LocationView,
        replace_blank: bool,
    ) -> ResultView {
        match checker_pos(self.bundle.checkers, id) {
            None => self,
            Some(k) => match issue_pos(self.bundle.checkers[k].issues, issue_id) {
                None => self,
                Some(j) => {
                    let c = self.bundle.checkers[k];
                    let locs = c.issues[j].locations;
                    let new_locs = if replace_blank { add_location(locs, loc) } else { locs.push(loc) };
                    self.with_checker_at(k, c.with_issue_at(j, c.issues[j].with_locations(new_locs)))
                },
            },
        }
    }
}

impl Result {
    fn find_issue(&self, k: usize, issue_id: u32) -> (r: Option<usize>)
        requires
            k < self@.bundle.checkers.len(),
        ensures
            r matches Some(j) ==> issue_pos(self@.bundle.checkers[k as int].issues, issue_id) == Some(
                j as int,
            ),
            r is None ==> issue_pos(self@.bundle.checkers[k as int].issues, issue_id) is None,
    {
        let n = self.bundle.checkers[k].issues.len();
        let mut i: usize = 0;
        while i < n
            invariant
                i <= n,
                k < self@.bundle.checkers.len(),
                n == self@.bundle.checkers[k as int].issues.len(),
                issue_pos(self@.bundle.checkers[k as int].issues, issue_id) == issue_pos_from(
                    self@.bundle.checkers[k as int].issues,
                    issue_id,
                    i as int,
                ),
            decreases n - i,
        {
            if self.bundle.checkers[k].issues[i].issue_id == issue_id {
                return Some(i);
            }
            i = i + 1;
        }
        None
    }

    /// Registers an issue on the first checker registered under `checker_id`
    /// and returns its number; the number is used up even when no such checker
    /// is registered.
    pub fn register_issue(
        &mut self,
        checker_id: &str,
        description: &str,
        level: IssueSeverity,
        rule_uid: &str,
    ) -> (id: u32)
        ensures
            id == old(self)@.next_id,
            final(self)@.next_id == next_issue_id(old(self)@.next_id),
            final(self)@.bundle == (match checker_pos(old(self)@.bundle.checkers, checker_id@) {
                None => old(self)@.bundle,
                Some(k) => old(self)@.with_checker_at(
                    k,
                    old(self)@.bundle.checkers[k].with_issue(
                        new_issue_view(id, description@, level, rule_uid@),
                    ),
                ).bundle,
            }),
    {
        let id = self.next_id;
        self.next_id = if id == u32::MAX { 0 } else { id + 1 };
        let pos = self.find_checker(checker_id);
        match pos {
            None => {},
            Some(k) => {
                proof {
                    lemma_checker_pos_from_range(self@.bundle.checkers, checker_id@, 0);
                }
                let issue = Issue {
                    issue_id: id,
                    description: description.to_owned(),
                    level: level,
                    rule_uid: rule_uid.to_owned(),
                    locations: Vec::new(),
                };
                let ghost c0 = self@.bundle.checkers[k as int];
                assert(issue@ =~= new_issue_view(id, description@, level, rule_uid@));
                self.bundle.checkers[k].issues.push(issue);
                assert(self@.bundle.checkers[k as int] =~= c0.with_issue(
                    new_issue_view(id, description@, level, rule_uid@),
                ));
                assert(self@.bundle.checkers =~= old(self)@.bundle.checkers.update(
                    k as int,
                    c0.with_issue(new_issue_view(id, description@, level, rule_uid@)),
                ));
            },
        }
        id
    }
}

} // verus!

verus! {

impl Location {
    fn is_blank(&self) -> (r: bool)
        ensures
            r == is_blank_location(self@),
    {
        self.file.len() == 0 && self.xml.len() == 0 && self.inertial.len() == 0
    }
}

impl Result {
    fn record_location(
        &mut self,
        checker_id: &str,
        issue_id: u32,
        loc: Location,
        replace_blank: bool,
    )
        ensures
            final(self)@ == old(self)@.with_location(checker_id@, issue_id, loc@, replace_blank),
    {
        let pos = self.find_checker(checker_id);
        match pos {
            None => {},
            Some(k) => {
                proof {
                    lemma_checker_pos_from_range(self@.bundle.checkers, checker_id@, 0);
                }
                let ipos = self.find_issue(k, issue_id);
                match ipos {
                    None => {},
                    Some(j) => {
                        proof {
                            lemma_issue_pos_from_range(
                                self@.bundle.checkers[k as int].issues,
                                issue_id,
                                0,
                            );
                        }
                        let ghost c0 = self@.bundle.checkers[k as int];
                        let ghost i0 = c0.issues[j as int];
                        let n = self.bundle.checkers[k].issues[j].locations.len();
                        let ghost new_locs = if replace_blank {
                            add_location(i0.locations, loc@)
                        } else {
                            i0.locations.push(loc@)
                        };
                        if replace_blank && n > 0 && self.bundle.checkers[k].issues[j].locations[n
                            - 1].is_blank() {
                            self.bundle.checkers[k].issues[j].locations.pop();
                            assert(self@.bundle.checkers[k as int].issues[j as int].locations
                                =~= i0.locations.drop_last());
                        }
                        self.bundle.checkers[k].issues[j].locations.push(loc);
                        assert(self@.bundle.checkers[k as int].issues[j as int].locations
                            =~= new_locs);
                        assert(self@.bundle.checkers[k as int].issues[j as int] =~= i0.with_locations(
                            new_locs,
                        ));
                        assert(self@.bundle.checkers[k as int] =~= c0.with_issue_at(
                            j as int,
                            i0.with_locations(new_locs),
                        ));
                        assert(self@.bundle.checkers =~= old(self)@.bundle.checkers.update(
                            k as int,
                            c0.with_issue_at(j as int, i0.with_locations(new_locs)),
                        ));
                    },
                }
            },
        }
    }

    /// Records a file location (row, column, offset) on issue `issue_id` of the
    /// first checker registered under `checker_id`.
    pub fn add_file_location(
        &mut self,
        checker_id: &str,
        issue_id: u32,
        row: Option<u32>,
        column: Option<u32>,
        offset: Option<u64>,
        description: &str,
    )
        ensures
            final(self)@ == old(self)@.with_location(
                checker_id@,
                issue_id,
                file_location_view(description@, FileLocation { row, column, offset }),
                true,
            ),
    {
        let mut file: Vec<FileLocation> = Vec::new();
        file.push(FileLocation { row, column, offset });
        let loc = Location {
            description: description.to_owned(),
            file: file,
            xml: Vec::new(),
            inertial: Vec::new(),
        };
        assert(loc@ =~= file_location_view(description@, FileLocation { row, column, offset }));
        self.record_location(checker_id, issue_id, loc, true);
    }

    /// Records an xml location (an xpath) on issue `issue_id` of the first
    /// checker registered under `checker_id`.
    pub fn add_xml_location(&mut self, checker_id: &str, issue_id: u32, xpath: &str, description: &str)
        ensures
            final(self)@ == old(self)@.with_location(
                checker_id@,
                issue_id,
                xml_location_view(description@, xpath@),
                true,
            ),
    {
        let mut xml: Vec<XmlLocation> = Vec::new();
        xml.push(XmlLocation { xpath: xpath.to_owned() });
        let loc = Location {
            description: description.to_owned(),
            file: Vec::new(),
            xml: xml,
            inertial: Vec::new(),
        };
        assert(loc@ =~= xml_location_view(description@, xpath@));
        self.record_location(checker_id, issue_id, loc, true);
    }

    /// Records an inertial location (x, y, z given as text) on issue
    /// `issue_id` of the first checker registered under `checker_id`; it always
    /// starts a location of its own.
    pub fn add_inertial_location(
        &mut self,
        checker_id: &str,
        issue_id: u32,
        x: &str,
        y: &str,
        z: &str,
        description: &str,
    )
        ensures
            final(self)@ == old(self)@.with_location(
                checker_id@,
                issue_id,
                inertial_location_view(description@, (x@, y@, z@)),
                false,
            ),
    {
        let mut inertial: Vec<InertialLocation> = Vec::new();
        inertial.push(InertialLocation { x: x.to_owned(), y: y.to_owned(), z: z.to_owned() });
        let loc = Location {
            description: description.to_owned(),
            file: Vec::new(),
            xml: Vec::new(),
            inertial: inertial,
        };
        assert(loc@ =~= inertial_location_view(description@, (x@, y@, z@)));
        self.record_location(checker_id, issue_id, loc, false);
    }
}

} // verus!

verus! {

/// Whether the first checker registered under `id` completed and raised no issue.
pub open spec fn completed_without_issue(cs: Seq<CheckerView>, id: Seq<char>) -> bool {
    match checker_pos(cs, id) {
        Some(k) => cs[k].status == Some(StatusType::Completed) && cs[k].issues.len() == 0,
        None => false,
    }
}

/// Number of checkers whose status is `Some(st)`.
pub open spec fn count_status(cs: Seq<CheckerView>, st: StatusType) -> nat
    decreases cs.len(),
{
    if cs.len() == 0 {
        0
    } else {
        count_status(cs.drop_last(), st) + if cs.last().status == Some(st) { 1nat } else { 0nat }
    }
}

/// Number of checkers that hold no status, or the status `Unset`.
pub open spec fn count_without_status(cs: Seq<CheckerView>) -> nat
    decreases cs.len(),
{
    if cs.len() == 0 {
        0
    } else {
        count_without_status(cs.drop_last()) + match cs.last().status {
            None => 1nat,
            Some(StatusType::Unset) => 1nat,
            _ => 0nat,
        }
    }
}

/// Total number of issues over `cs`.
pub open spec fn sum_issues(cs: Seq<CheckerView>) -> nat
    decreases cs.len(),
{
    if cs.len() == 0 {
        0
    } else {
        sum_issues(cs.drop_last()) + cs.last().issues.len()
    }
}

/// The summary sentence that a run over `cs` adds to the bundle.
pub open spec fn bundle_summary_text(cs: Seq<CheckerView>) -> Seq<char> {
    dec(cs.len()) + " checker(s) are executed. "@ + dec(count_status(cs, StatusType::Completed))
        + " checker(s) are completed. "@ + dec(count_status(cs, StatusType::Skipped))
        + " checker(s) are skipped. "@ + dec(count_status(cs, StatusType::Error))
        + " checker(s) have internal error and "@ + dec(count_without_status(cs))
        + " checker(s) do not contain status."@
}

/// The summary sentence that a run adds to a checker.
pub open spec fn checker_summary_text(c: CheckerView) -> Seq<char> {
    dec(c.issues.len()) + " issue(s) are found."@
}

pub proof fn lemma_sum_issues_prefix(cs: Seq<CheckerView>, i: int)
    requires
        0 <= i <= cs.len(),
    ensures
        sum_issues(cs.take(i)) <= sum_issues(cs),
    decreases cs.len(),
{
    if i < cs.len() {
        assert(cs.drop_last().take(i) =~= cs.take(i));
        lemma_sum_issues_prefix(cs.drop_last(), i);
    } else {
        assert(cs.take(i) =~= cs);
    }
}

impl Checker {
    /// Number of issues the checker raised.
    pub fn issue_count(&self) -> (r: usize)
        ensures
            r == self@.issues.len(),
    {
        self.issues.len()
    }
}

impl Result {
    /// Names and describes the checker bundle.
    pub fn register_checker_bundle(
        &mut self,
        name: &str,
        description: &str,
        version: &str,
        summary: &str,
    )
        ensures
            final(self)@ == (ResultView {
                bundle: BundleView {
                    name: name@,
                    description: description@,
                    version: version@,
                    summary: summary@,
                    ..old(self)@.bundle
                },
                ..old(self)@
            }),
    {
        self.bundle.name = name.to_owned();
        self.bundle.description = description.to_owned();
        self.bundle.version = version.to_owned();
        self.bundle.summary = summary.to_owned();
    }

    /// Sets the version recorded for the bundle.
    pub fn set_result_version(&mut self, version: &str)
        ensures
            final(self)@ == (ResultView {
                bundle: BundleView { version: version@, ..old(self)@.bundle },
                ..old(self)@
            }),
    {
        self.bundle.version = version.to_owned();
    }

    /// Sets the status of the first checker registered under `checker_id`.
    pub fn set_checker_status(&mut self, checker_id: &str, status: StatusType)
        ensures
            match checker_pos(old(self)@.bundle.checkers, checker_id@) {
                None => final(self)@ == old(self)@,
                Some(k) => final(self)@ == old(self)@.with_checker_at(
                    k,
                    old(self)@.bundle.checkers[k].with_status(status),
                ),
            },
    {
        let pos = self.find_checker(checker_id);
        match pos {
            None => {},
            Some(k) => {
                proof {
                    lemma_checker_pos_from_range(self@.bundle.checkers, checker_id@, 0);
                }
                let ghost c0 = self@.bundle.checkers[k as int];
                self.bundle.checkers[k].status = Some(status);
                assert(self@.bundle.checkers =~= old(self)@.bundle.checkers.update(
                    k as int,
                    c0.with_status(status),
                ));
            },
        }
    }

    /// The status of the first checker registered under `checker_id`.
    pub fn get_checker_status(&self, checker_id: &str) -> (r: Option<StatusType>)
        ensures
            r == match checker_pos(self@.bundle.checkers, checker_id@) {
                None => None,
                Some(k) => self@.bundle.checkers[k].status,
            },
    {
        let pos = self.find_checker(checker_id);
        match pos {
            None => None,
            Some(k) => {
                proof {
                    lemma_checker_pos_from_range(self@.bundle.checkers, checker_id@, 0);
                }
                self.bundle.checkers[k].status
            },
        }
    }

    /// Extends the summary of the first checker registered under `checker_id`.
    pub fn add_checker_summary(&mut self, checker_id: &str, content: &str)
        ensures
            match checker_pos(old(self)@.bundle.checkers, checker_id@) {
                None => final(self)@ == old(self)@,
                Some(k) => final(self)@ == old(self)@.with_checker_at(
                    k,
                    old(self)@.bundle.checkers[k].with_summary(content@),
                ),
            },
    {
        let pos = self.find_checker(checker_id);
        match pos {
            None => {},
            Some(k) => {
                proof {
                    lemma_checker_pos_from_range(self@.bundle.checkers, checker_id@, 0);
                }
                let ghost c0 = self@.bundle.checkers[k as int];
                if self.bundle.checkers[k].summary.as_str().is_empty() {
                    self.bundle.checkers[k].summary = content.to_owned();
                } else {
                    self.bundle.checkers[k].summary.append(" ");
                    self.bundle.checkers[k].summary.append(content);
                }
                assert(self@.bundle.checkers[k as int] =~= c0.with_summary(content@));
                assert(self@.bundle.checkers =~= old(self)@.bundle.checkers.update(
                    k as int,
                    c0.with_summary(content@),
                ));
            },
        }
    }

    /// Extends the summary of the bundle.
    pub fn add_checker_bundle_summary(&mut self, content: &str)
        ensures
            final(self)@ == (ResultView {
                bundle: BundleView {
                    summary: append_summary(old(self)@.bundle.summary, content@),
                    ..old(self)@.bundle
                },
                ..old(self)@
            }),
    {
        if self.bundle.summary.as_str().is_empty() {
            self.bundle.summary = content.to_owned();
        } else {
            self.bundle.summary.append(" ");
            self.bundle.summary.append(content);
        }
    }

    /// True if every checker named in `ids` is registered, completed and
    /// raised no issue.
    pub fn all_checkers_completed_without_issue(&self, ids: &[&str]) -> (r: bool)
        ensures
            r == forall|k: int|
                0 <= k < ids@.len() ==> completed_without_issue(
                    self@.bundle.checkers,
                    #[trigger] ids@[k]@,
                ),
    {
        let n = ids.len();
        let mut i: usize = 0;
        while i < n
            invariant
                i <= n,
                n == ids@.len(),
                forall|k: int|
                    0 <= k < i ==> completed_without_issue(
                        self@.bundle.checkers,
                        #[trigger] ids@[k]@,
                    ),
            decreases n - i,
        {
            let pos = self.find_checker(ids[i]);
            match pos {
                None => {
                    assert(!completed_without_issue(self@.bundle.checkers, ids@[i as int]@));
                    return false;
                },
                Some(k) => {
                    proof {
                        lemma_checker_pos_from_range(self@.bundle.checkers, ids@[i as int]@, 0);
                    }
                    let completed = match self.bundle.checkers[k].status {
                        Some(StatusType::Completed) => true,
                        _ => false,
                    };
                    if !completed || self.bundle.checkers[k].issues.len() != 0 {
                        assert(!completed_without_issue(self@.bundle.checkers, ids@[i as int]@));
                        return false;
                    }
                },
            }
            i = i + 1;
        }
        true
    }

    /// True if some checker named in `ids` raised an issue.
    pub fn has_issue_in_checkers(&self, ids: &[&str]) -> (r: bool)
        ensures
            r == exists|j: int, k: int|
                0 <= j < self@.bundle.checkers.len() && 0 <= k < ids@.len() && #[trigger] ids@[k]@
                    == #[trigger] self@.bundle.checkers[j].checker_id
                    && self@.bundle.checkers[j].issues.len() > 0,
    {
        let n = self.bundle.checkers.len();
        let m = ids.len();
        let mut j: usize = 0;
        while j < n
            invariant
                j <= n,
                n == self@.bundle.checkers.len(),
                m == ids@.len(),
                forall|jj: int, k: int|
                    0 <= jj < j && 0 <= k < m && #[trigger] ids@[k]@
                        == #[trigger] self@.bundle.checkers[jj].checker_id ==> self@.bundle.checkers[jj].issues.len()
                        == 0,
            decreases n - j,
        {
            if self.bundle.checkers[j].issues.len() > 0 {
                let mut k: usize = 0;
                while k < m
                    invariant
                        k <= m,
                        j < n,
                        n == self@.bundle.checkers.len(),
                        m == ids@.len(),
                        self@.bundle.checkers[j as int].issues.len() > 0,
                        forall|kk: int|
                            0 <= kk < k ==> #[trigger] ids@[kk]@
                                != self@.bundle.checkers[j as int].checker_id,
                    decreases m - k,
                {
                    if str_eq(ids[k], self.bundle.checkers[j].checker_id.as_str()) {
                        assert(ids@[k as int]@ == self@.bundle.checkers[j as int].checker_id);
                        return true;
                    }
                    k = k + 1;
                }
            }
            j = j + 1;
        }
        false
    }

    /// Total number of issues over all checkers.
    pub fn total_issue_count(&self) -> (r: usize)
        requires
            sum_issues(self@.bundle.checkers) <= usize::MAX,
        ensures
            r == sum_issues(self@.bundle.checkers),
    {
        let n = self.bundle.checkers.len();
        let mut total: usize = 0;
        let mut i: usize = 0;
        while i < n
            invariant
                i <= n,
                n == self@.bundle.checkers.len(),
                sum_issues(self@.bundle.checkers) <= usize::MAX,
                total == sum_issues(self@.bundle.checkers.take(i as int)),
            decreases n - i,
        {
            proof {
                let cs = self@.bundle.checkers;
                assert(cs.take(i + 1).drop_last() =~= cs.take(i as int));
                lemma_sum_issues_prefix(cs, i + 1);
            }
            total = total + self.bundle.checkers[i].issues.len();
            i = i + 1;
        }
        assert(self@.bundle.checkers.take(n as int) =~= self@.bundle.checkers);
        total
    }

    /// True if some checker raised an issue of severity `Error`.
    pub fn has_errors(&self) -> (r: bool)
        ensures
            r == exists|j: int, i: int|
                0 <= j < self@.bundle.checkers.len() && 0 <= i
                    < self@.bundle.checkers[j].issues.len()
                    && #[trigger] self@.bundle.checkers[j].issues[i].level == IssueSeverity::Error,
    {
        let n = self.bundle.checkers.len();
        let mut j: usize = 0;
        while j < n
            invariant
                j <= n,
                n == self@.bundle.checkers.len(),
                forall|jj: int, i: int|
                    0 <= jj < j && 0 <= i < self@.bundle.checkers[jj].issues.len()
                        ==> #[trigger] self@.bundle.checkers[jj].issues[i].level
                        != IssueSeverity::Error,
            decreases n - j,
        {
            let m = self.bundle.checkers[j].issues.len();
            let mut i: usize = 0;
            while i < m
                invariant
                    i <= m,
                    j < n,
                    n == self@.bundle.checkers.len(),
                    m == self@.bundle.checkers[j as int].issues.len(),
                    forall|ii: int|
                        0 <= ii < i ==> #[trigger] self@.bundle.checkers[j as int].issues[ii].level
                            != IssueSeverity::Error,
                decreases m - i,
            {
                match self.bundle.checkers[j].issues[i].level {
                    IssueSeverity::Error => {
                        assert(self@.bundle.checkers[j as int].issues[i as int].level
                            == IssueSeverity::Error);
                        return true;
                    },
                    _ => {},
                }
                i = i + 1;
            }
            j = j + 1;
        }
        false
    }
}

} // verus!

verus! {

impl Result {
    /// Extends the bundle summary by the count of executed checkers per status,
    /// and the summary of every checker by its number of issues.
    pub fn generate_summaries(&mut self)
        ensures
            final(self)@.next_id == old(self)@.next_id,
            final(self)@.bundle.name == old(self)@.bundle.name,
            final(self)@.bundle.version == old(self)@.bundle.version,
            final(self)@.bundle.description == old(self)@.bundle.description,
            final(self)@.bundle.params == old(self)@.bundle.params,
            final(self)@.bundle.summary == append_summary(
                old(self)@.bundle.summary,
                bundle_summary_text(old(self)@.bundle.checkers),
            ),
            final(self)@.bundle.checkers.len() == old(self)@.bundle.checkers.len(),
            forall|i: int|
                0 <= i < old(self)@.bundle.checkers.len() ==> #[trigger] final(self)@.bundle.checkers[i]
                    == old(self)@.bundle.checkers[i].with_summary(
                    checker_summary_text(old(self)@.bundle.checkers[i]),
                ),
    {
        let n = self.bundle.checkers.len();
        let mut n_completed: usize = 0;
        let mut n_skipped: usize = 0;
        let mut n_error: usize = 0;
        let mut n_none: usize = 0;
        let mut i: usize = 0;
        while i < n
            invariant
                i <= n,
                n == self@.bundle.checkers.len(),
                self@ == old(self)@,
                n_completed == count_status(self@.bundle.checkers.take(i as int), StatusType::Completed),
                n_skipped == count_status(self@.bundle.checkers.take(i as int), StatusType::Skipped),
                n_error == count_status(self@.bundle.checkers.take(i as int), StatusType::Error),
                n_none == count_without_status(self@.bundle.checkers.take(i as int)),
                n_completed + n_skipped + n_error + n_none == i,
            decreases n - i,
        {
            assert(self@.bundle.checkers.take(i + 1).drop_last() =~= self@.bundle.checkers.take(
                i as int,
            ));
            match self.bundle.checkers[i].status {
                Some(StatusType::Completed) => n_completed = n_completed + 1,
                Some(StatusType::Skipped) => n_skipped = n_skipped + 1,
                Some(StatusType::Error) => n_error = n_error + 1,
                _ => n_none = n_none + 1,
            }
            i = i + 1;
        }
        assert(self@.bundle.checkers.take(n as int) =~= self@.bundle.checkers);
        let mut text = String::new();
        push_dec(&mut text, n as u64);
        text.append(" checker(s) are executed. ");
        push_dec(&mut text, n_completed as u64);
        text.append(" checker(s) are completed. ");
        push_dec(&mut text, n_skipped as u64);
        text.append(" checker(s) are skipped. ");
        push_dec(&mut text, n_error as u64);
        text.append(" checker(s) have internal error and ");
        push_dec(&mut text, n_none as u64);
        text.append(" checker(s) do not contain status.");
        assert(text@ =~= bundle_summary_text(old(self)@.bundle.checkers));
        self.add_checker_bundle_summary(text.as_str());
        let ghost mid = self@;
        let mut j: usize = 0;
        while j < n
            invariant
                j <= n,
                n == self@.bundle.checkers.len(),
                n == old(self)@.bundle.checkers.len(),
                self@.next_id == mid.next_id,
                self@.bundle.name == mid.bundle.name,
                self@.bundle.version == mid.bundle.version,
                self@.bundle.description == mid.bundle.description,
                self@.bundle.params == mid.bundle.params,
                self@.bundle.summary == mid.bundle.summary,
                mid.bundle.checkers == old(self)@.bundle.checkers,
                forall|i: int|
                    0 <= i < j ==> #[trigger] self@.bundle.checkers[i]
                        == old(self)@.bundle.checkers[i].with_summary(
                        checker_summary_text(old(self)@.bundle.checkers[i]),
                    ),
                forall|i: int| j <= i < n ==> #[trigger] self@.bundle.checkers[i] == old(self)@.bundle.checkers[i],
            decreases n - j,
        {
            let ghost c0 = self@.bundle.checkers[j as int];
            let ghost pre = self@.bundle.checkers;
            let mut s = String::new();
            push_dec(&mut s, self.bundle.checkers[j].issues.len() as u64);
            s.append(" issue(s) are found.");
            assert(s@ =~= checker_summary_text(c0));
            if self.bundle.checkers[j].summary.as_str().is_empty() {
                self.bundle.checkers[j].summary = s;
            } else {
                self.bundle.checkers[j].summary.append(" ");
                self.bundle.checkers[j].summary.append(s.as_str());
            }
            assert(self@.bundle.checkers[j as int] =~= c0.with_summary(checker_summary_text(c0)));
            assert(self@.bundle.checkers =~= pre.update(j as int, c0.with_summary(checker_summary_text(c0))));
            j = j + 1;
        }
    }
}

/// Registers an error on `checker_id` with a file location (row, column).
pub fn report_file_issue(
    result: &mut Result,
    checker_id: &str,
    rule_uid: &str,
    description: &str,
    row: Option<u32>,
    column: Option<u32>,
)
    ensures
        ({
            let id = old(result)@.next_id;
            let registered = ResultView {
                bundle: match checker_pos(old(result)@.bundle.checkers, checker_id@) {
                    None => old(result)@.bundle,
                    Some(k) => old(result)@.with_checker_at(
                        k,
                        old(result)@.bundle.checkers[k].with_issue(
                            new_issue_view(id, description@, IssueSeverity::Error, rule_uid@),
                        ),
                    ).bundle,
                },
                next_id: next_issue_id(id),
            };
            final(result)@ == registered.with_location(
                checker_id@,
                id,
                file_location_view(
                    description@,
                    FileLocation { row: row, column: column, offset: None },
                ),
                true,
            )
        }),
{
    let id = result.register_issue(checker_id, description, IssueSeverity::Error, rule_uid);
    result.add_file_location(checker_id, id, row, column, None, description);
}

/// Registers an error on `checker_id` with an xml location (an xpath).
pub fn report_xml_issue(
    result: &mut Result,
    checker_id: &str,
    rule_uid: &str,
    description: &str,
    xpath: &str,
)
    ensures
        ({
            let id = old(result)@.next_id;
            let registered = ResultView {
                bundle: match checker_pos(old(result)@.bundle.checkers, checker_id@) {
                    None => old(result)@.bundle,
                    Some(k) => old(result)@.with_checker_at(
                        k,
                        old(result)@.bundle.checkers[k].with_issue(
                            new_issue_view(id, description@, IssueSeverity::Error, rule_uid@),
                        ),
                    ).bundle,
                },
                next_id: next_issue_id(id),
            };
            final(result)@ == registered.with_location(
                checker_id@,
                id,
                xml_location_view(description@, xpath@),
                true,
            )
        }),
{
    let id = result.register_issue(checker_id, description, IssueSeverity::Error, rule_uid);
    result.add_xml_location(checker_id, id, xpath, description);
}

} // verus!

verus! {

impl ResultView {
    /// The model after `register_checker(id, description)`.
    pub open spec fn checker_registered(self, id: Seq<char>, description: Seq<char>) -> ResultView {
        match checker_pos(self.bundle.checkers, id) {
            Some(_) => self,
            None => self.with_checkers(self.bundle.checkers.push(new_checker_view(id, description))),
        }
    }

    /// The model after `register_rule_by_uid(id, rule)`.
    pub open spec fn rule_registered(self, id: Seq<char>, rule: Seq<char>) -> ResultView {
        match checker_pos(self.bundle.checkers, id) {
            None => self,
            Some(k) => self.with_checker_at(k, self.bundle.checkers[k].with_rule(rule)),
        }
    }

    /// The model after `set_checker_status(id, status)`.
    pub open spec fn status_set(self, id: Seq<char>, status: StatusType) -> ResultView {
        match checker_pos(self.bundle.checkers, id) {
            None => self,
            Some(k) => self.with_checker_at(k, self.bundle.checkers[k].with_status(status)),
        }
    }

    /// The model after `add_checker_summary(id, content)`.
    pub open spec fn summary_added(self, id: Seq<char>, content: Seq<char>) -> ResultView {
        match checker_pos(self.bundle.checkers, id) {
            None => self,
            Some(k) => self.with_checker_at(k, self.bundle.checkers[k].with_summary(content)),
        }
    }

    /// The model after `register_issue(id, description, level, rule_uid)`.
    pub open spec fn issue_registered(
        self,
        id: Seq<char>,
        description: Seq<char>,
        level: IssueSeverity,
        rule_uid: Seq<char>,
    ) -> ResultView {
        ResultView {
            bundle: match checker_pos(self.bundle.checkers, id) {
                None => self.bundle,
                Some(k) => self.with_checker_at(
                    k,
                    self.bundle.checkers[k].with_issue(new_issue_view(self.next_id, description, level, rule_uid)),
                ).bundle,
            },
            next_id: next_issue_id(self.next_id),
        }
    }

    /// The status of the first checker registered under `id`.
    pub open spec fn status_of(self, id: Seq<char>) -> Option<StatusType> {
        match checker_pos(self.bundle.checkers, id) {
            None => None,
            Some(k) => self.bundle.checkers[k].status,
        }
    }

    /// The model after the status of checker `id` was set and `content` added
    /// to its summary.
    pub open spec fn concluded(self, id: Seq<char>, status: StatusType, content: Seq<char>) -> ResultView {
        self.status_set(id, status).summary_added(id, content)
    }
}

} // verus!

verus! {

/// Registering a checker a second time changes nothing: the first
/// registration stands.
pub proof fn law_register_checker_idempotent(r: ResultView, id: Seq<char>, description: Seq<char>, other: Seq<char>)
    ensures
        r.checker_registered(id, description).checker_registered(id, other) == r.checker_registered(id, description),
{
    let r1 = r.checker_registered(id, description);
    lemma_checker_pos_from_range(r.bundle.checkers, id, 0);
    if checker_pos(r.bundle.checkers, id) is None {
        let cs = r.bundle.checkers.push(new_checker_view(id, description));
        lemma_checker_pos_from_range(cs, id, 0);
        assert(cs[cs.len() - 1].checker_id == id);
        if checker_pos(cs, id) is None {
            assert(false);
        }
    }
}

/// Once registered, a checker is found under its id.
pub proof fn law_registered_checker_found(r: ResultView, id: Seq<char>, description: Seq<char>)
    ensures
        checker_pos(r.checker_registered(id, description).bundle.checkers, id) is Some,
{
    lemma_checker_pos_from_range(r.bundle.checkers, id, 0);
    if checker_pos(r.bundle.checkers, id) is None {
        let cs = r.bundle.checkers.push(new_checker_view(id, description));
        lemma_checker_pos_from_range(cs, id, 0);
        assert(cs[cs.len() - 1].checker_id == id);
    }
}

/// The status read back from a registered checker is the one last set.
pub proof fn law_status_read_after_write(r: ResultView, id: Seq<char>, status: StatusType)
    requires
        checker_pos(r.bundle.checkers, id) is Some,
    ensures
        r.status_set(id, status).status_of(id) == Some(status),
{
    let k = checker_pos(r.bundle.checkers, id).unwrap();
    lemma_checker_pos_from_range(r.bundle.checkers, id, 0);
    let r1 = r.status_set(id, status);
    lemma_checker_same_ids(r.bundle.checkers, k, r.bundle.checkers[k].with_status(status), id, 0);
}

/// Replacing a checker by one with the same id leaves every checker's
/// position unchanged.
pub proof fn lemma_checker_same_ids(cs: Seq<CheckerView>, k: int, c: CheckerView, id: Seq<char>, from: int)
    requires
        0 <= k < cs.len(),
        c.checker_id == cs[k].checker_id,
        0 <= from,
    ensures
        checker_pos_from(cs.update(k, c), id, from) == checker_pos_from(cs, id, from),
    decreases cs.len() - from,
{
    if from < cs.len() {
        assert(cs.update(k, c)[from].checker_id == cs[from].checker_id);
        lemma_checker_same_ids(cs, k, c, id, from + 1);
    }
}

/// Registering an issue adds exactly one issue, the new one, to the
/// checker it names, and leaves every other checker as it was.
pub proof fn law_issue_registered_appends(
    r: ResultView,
    id: Seq<char>,
    description: Seq<char>,
    level: IssueSeverity,
    rule_uid: Seq<char>,
)
    requires
        checker_pos(r.bundle.checkers, id) is Some,
    ensures
        ({
            let k = checker_pos(r.bundle.checkers, id).unwrap();
            let r1 = r.issue_registered(id, description, level, rule_uid);
            &&& r1.bundle.checkers.len() == r.bundle.checkers.len()
            &&& r1.bundle.checkers[k].issues == r.bundle.checkers[k].issues.push(
                new_issue_view(r.next_id, description, level, rule_uid),
            )
            &&& forall|j: int| 0 <= j < r.bundle.checkers.len() && j != k ==> r1.bundle.checkers[j] == r.bundle.checkers[j]
            &&& r1.next_id == next_issue_id(r.next_id)
        }),
{
    lemma_checker_pos_from_range(r.bundle.checkers, id, 0);
}

} // verus!
