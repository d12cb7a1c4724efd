//! The XQAR report: the result as an XML document of `CheckerResults`,
//! `CheckerBundle`, `Checker`, `Issue` and `Locations` elements, written
//! event by event.
use vstd::prelude::*;

use crate::result::{
    CheckerView, FileLocation, IssueView, LocationView, Result, ResultView, StatusType,
};
use crate::text::{concat_map, dec};
use quick_xml::events::{BytesDecl, BytesEnd, BytesStart, Event};
use quick_xml::Writer;

verus! {

/// An XML event of the report: the declaration, an element's start or
/// empty tag with its attributes, or an element's end tag.
#[derive(Clone, Debug)]
pub enum XqarEvent {
    Decl(String, Option<String>, Option<String>),
    Start(String, Vec<(String, String)>),
    Empty(String, Vec<(String, String)>),
    End(String),
}

pub ghost enum XqarEventView {
    Decl(Seq<char>, Option<Seq<char>>, Option<Seq<char>>),
    Start(Seq<char>, Seq<(Seq<char>, Seq<char>)>),
    Empty(Seq<char>, Seq<(Seq<char>, Seq<char>)>),
    End(Seq<char>),
}

pub open spec fn opt_view(o: Option<String>) -> Option<Seq<char>> {
    match o {
        Some(s) => Some(s@),
        None => None,
    }
}

pub open spec fn attrs_view(a: Seq<(String, String)>) -> Seq<(Seq<char>, Seq<char>)> {
    a.map_values(|p: (String, String)| (p.0@, p.1@))
}

impl View for XqarEvent {
    type V = XqarEventView;

    open spec fn view(&self) -> XqarEventView {
        match self {
            XqarEvent::Decl(v, e, s) => XqarEventView::Decl(v@, opt_view(*e), opt_view(*s)),
            XqarEvent::Start(n, a) => XqarEventView::Start(n@, attrs_view(a@)),
            XqarEvent::Empty(n, a) => XqarEventView::Empty(n@, attrs_view(a@)),
            XqarEvent::End(n) => XqarEventView::End(n@),
        }
    }
}

/// The bytes `quick_xml::Writer::write_event` writes for one event, with no
/// indentation.
pub uninterp spec fn quick_xml_event_bytes(e: XqarEventView) -> Seq<u8>;

/// `quick_xml::Writer::write_event` on a fresh writer over a `Vec<u8>`,
/// returning what it wrote. The bytes are named by `quick_xml_event_bytes`:
/// an unindented writer writes each event on its own, and writing to a
/// vector cannot fail (the `io::Result` is always `Ok`).
#[verifier::external_body]
fn event_bytes(e: &XqarEvent) -> (r: Vec<u8>)
    ensures
        r@ == quick_xml_event_bytes(e@),
{
    let tag = |n: &String, a: &Vec<(String, String)>|
        BytesStart::new(n.clone()).with_attributes(a.iter().map(|p| (&*p.0, &*p.1)));
    let mut w = Writer::new(Vec::new());
    let _ = w.write_event(match e {
        XqarEvent::Decl(v, c, s) => Event::Decl(BytesDecl::new(v, c.as_deref(), s.as_deref())),
        XqarEvent::Start(n, a) => Event::Start(tag(n, a)),
        XqarEvent::Empty(n, a) => Event::Empty(tag(n, a)),
        XqarEvent::End(n) => Event::End(BytesEnd::new(n.as_str())),
    });
    w.into_inner()
}


pub open spec fn attr(name: Seq<char>, value: Seq<char>) -> (Seq<char>, Seq<char>) {
    (name, value)
}

/// The status of a checker as the report writes it (`none` when unset).
pub open spec fn status_attr(st: Option<StatusType>) -> Seq<char> {
    match st {
        Some(s) => s.spec_as_str(),
        None => "none"@,
    }
}

/// The attributes of a file location: its row, column and offset, each
/// where known.
pub open spec fn file_attrs(fl: FileLocation) -> Seq<(Seq<char>, Seq<char>)> {
    (match fl.row {
        Some(r) => seq![attr("row"@, dec(r as nat))],
        None => Seq::empty(),
    }) + (match fl.column {
        Some(c) => seq![attr("column"@, dec(c as nat))],
        None => Seq::empty(),
    }) + (match fl.offset {
        Some(o) => seq![attr("offset"@, dec(o as nat))],
        None => Seq::empty(),
    })
}

/// The events of a location.
pub open spec fn location_events(l: LocationView) -> Seq<XqarEventView> {
    seq![
        XqarEventView::Start(
            "Locations"@,
            if l.description.len() > 0 { seq![attr("description"@, l.description)] } else { Seq::empty() },
        ),
    ] + l.file.map_values(|fl: FileLocation| XqarEventView::Empty("FileLocation"@, file_attrs(fl))) + l.xml.map_values(
        |x: Seq<char>| XqarEventView::Empty("XMLLocation"@, seq![attr("xpath"@, x)]),
    ) + l.inertial.map_values(
        |p: (Seq<char>, Seq<char>, Seq<char>)|
            XqarEventView::Empty("InertialLocation"@, seq![attr("x"@, p.0), attr("y"@, p.1), attr("z"@, p.2)]),
    ) + seq![XqarEventView::End("Locations"@)]
}

/// The events of an issue.
pub open spec fn issue_events(i: IssueView) -> Seq<XqarEventView> {
    seq![
        XqarEventView::Start(
            "Issue"@,
            seq![
                attr("issueId"@, dec(i.issue_id as nat)),
                attr("description"@, i.description),
                attr("level"@, i.level.spec_as_str()),
                attr("ruleUID"@, i.rule_uid),
            ],
        ),
    ] + concat_map(i.locations, |l: LocationView| location_events(l)) + seq![XqarEventView::End("Issue"@)]
}

/// The events of a checker: its parameters, issues and addressed rules.
pub open spec fn checker_events(c: CheckerView) -> Seq<XqarEventView> {
    seq![
        XqarEventView::Start(
            "Checker"@,
            seq![
                attr("checkerId"@, c.checker_id),
                attr("description"@, c.description),
                attr("summary"@, c.summary),
                attr("status"@, status_attr(c.status)),
            ],
        ),
    ] + c.params.map_values(
        |p: (Seq<char>, Seq<char>)| XqarEventView::Empty("Param"@, seq![attr("name"@, p.0), attr("value"@, p.1)]),
    ) + concat_map(c.issues, |i: IssueView| issue_events(i)) + c.addressed_rules.map_values(
        |r: Seq<char>| XqarEventView::Empty("AddressedRule"@, seq![attr("ruleUID"@, r)]),
    ) + seq![XqarEventView::End("Checker"@)]
}

/// The events of the whole report.
pub open spec fn xqar_event_list(r: ResultView) -> Seq<XqarEventView> {
    let b = r.bundle;
    seq![
        XqarEventView::Decl("1.0"@, Some("UTF-8"@), Some("no"@)),
        XqarEventView::Start("CheckerResults"@, seq![attr("version"@, b.version)]),
        XqarEventView::Start(
            "CheckerBundle"@,
            seq![
                attr("name"@, b.name),
                attr("version"@, b.version),
                attr("description"@, b.description),
                attr("summary"@, b.summary),
            ],
        ),
    ] + concat_map(b.checkers, |c: CheckerView| checker_events(c)) + seq![
        XqarEventView::End("CheckerBundle"@),
        XqarEventView::End("CheckerResults"@),
    ]
}

pub open spec fn events_view(v: Seq<XqarEvent>) -> Seq<XqarEventView> {
    v.map_values(|e: XqarEvent| e@)
}

fn push_event(v: &mut Vec<XqarEvent>, e: XqarEvent)
    ensures
        events_view(final(v)@) == events_view(old(v)@).push(e@),
{
    let ghost v0 = v@;
    v.push(e);
    assert(events_view(v@) =~= events_view(v0).push(e@));
}

fn dec_string(n: u64) -> (r: String)
    ensures
        r@ == dec(n as nat),
{
    let mut s = String::new();
    crate::text::push_dec(&mut s, n);
    assert(s@ =~= dec(n as nat));
    s
}

fn file_attributes(fl: FileLocation) -> (r: Vec<(String, String)>)
    ensures
        attrs_view(r@) == file_attrs(fl),
{
    let mut r: Vec<(String, String)> = Vec::new();
    match fl.row {
        Some(x) => r.push(("row".to_owned(), dec_string(x as u64))),
        None => {},
    }
    let ghost a = attrs_view(r@);
    match fl.column {
        Some(x) => r.push(("column".to_owned(), dec_string(x as u64))),
        None => {},
    }
    let ghost b = attrs_view(r@);
    match fl.offset {
        Some(x) => r.push(("offset".to_owned(), dec_string(x))),
        None => {},
    }
    assert(attrs_view(r@) =~= file_attrs(fl));
    r
}

fn push_location_events(v: &mut Vec<XqarEvent>, l: &crate::result::Location)
    ensures
        events_view(final(v)@) == events_view(old(v)@) + location_events(l@),
{
    let ghost v0 = events_view(v@);
    let ghost lv = l@;
    let mut attrs: Vec<(String, String)> = Vec::new();
    if l.description.as_str().unicode_len() > 0 {
        attrs.push(("description".to_owned(), l.description.clone()));
    }
    assert(attrs_view(attrs@) =~= (if lv.description.len() > 0 { seq![attr("description"@, lv.description)] } else {
        Seq::<(Seq<char>, Seq<char>)>::empty()
    }));
    push_event(v, XqarEvent::Start("Locations".to_owned(), attrs));
    let ghost v1 = events_view(v@);
    let n = l.file.len();
    let mut i: usize = 0;
    while i < n
        invariant
            i <= n,
            n == l.file@.len(),
            lv == l@,
            events_view(v@) == v1 + l.file@.take(i as int).map_values(
                |fl: FileLocation| XqarEventView::Empty("FileLocation"@, file_attrs(fl)),
            ),
        decreases n - i,
    {
        let a = file_attributes(l.file[i]);
        push_event(v, XqarEvent::Empty("FileLocation".to_owned(), a));
        assert(l.file@.take(i + 1) =~= l.file@.take(i as int).push(l.file@[i as int]));
        assert(events_view(v@) =~= v1 + l.file@.take(i + 1).map_values(
            |fl: FileLocation| XqarEventView::Empty("FileLocation"@, file_attrs(fl)),
        ));
        i = i + 1;
    }
    assert(l.file@.take(n as int) =~= l.file@);
    let ghost v2 = events_view(v@);
    let m = l.xml.len();
    let mut j: usize = 0;
    while j < m
        invariant
            j <= m,
            m == l.xml@.len(),
            lv == l@,
            events_view(v@) == v2 + lv.xml.take(j as int).map_values(
                |x: Seq<char>| XqarEventView::Empty("XMLLocation"@, seq![attr("xpath"@, x)]),
            ),
        decreases m - j,
    {
        let mut a: Vec<(String, String)> = Vec::new();
        a.push(("xpath".to_owned(), l.xml[j].xpath.clone()));
        assert(attrs_view(a@) =~= seq![attr("xpath"@, lv.xml[j as int])]);
        push_event(v, XqarEvent::Empty("XMLLocation".to_owned(), a));
        assert(lv.xml.take(j + 1) =~= lv.xml.take(j as int).push(lv.xml[j as int]));
        assert(events_view(v@) =~= v2 + lv.xml.take(j + 1).map_values(
            |x: Seq<char>| XqarEventView::Empty("XMLLocation"@, seq![attr("xpath"@, x)]),
        ));
        j = j + 1;
    }
    assert(lv.xml.take(m as int) =~= lv.xml);
    let ghost v3 = events_view(v@);
    let k = l.inertial.len();
    let mut q: usize = 0;
    while q < k
        invariant
            q <= k,
            k == l.inertial@.len(),
            lv == l@,
            events_view(v@) == v3 + lv.inertial.take(q as int).map_values(
                |p: (Seq<char>, Seq<char>, Seq<char>)|
                    XqarEventView::Empty("InertialLocation"@, seq![attr("x"@, p.0), attr("y"@, p.1), attr("z"@, p.2)]),
            ),
        decreases k - q,
    {
        let p = &l.inertial[q];
        let mut a: Vec<(String, String)> = Vec::new();
        a.push(("x".to_owned(), p.x.clone()));
        a.push(("y".to_owned(), p.y.clone()));
        a.push(("z".to_owned(), p.z.clone()));
        assert(attrs_view(a@) =~= seq![attr("x"@, lv.inertial[q as int].0), attr("y"@, lv.inertial[q as int].1), attr("z"@, lv.inertial[q as int].2)]);
        push_event(v, XqarEvent::Empty("InertialLocation".to_owned(), a));
        assert(lv.inertial.take(q + 1) =~= lv.inertial.take(q as int).push(lv.inertial[q as int]));
        assert(events_view(v@) =~= v3 + lv.inertial.take(q + 1).map_values(
            |p: (Seq<char>, Seq<char>, Seq<char>)|
                XqarEventView::Empty("InertialLocation"@, seq![attr("x"@, p.0), attr("y"@, p.1), attr("z"@, p.2)]),
        ));
        q = q + 1;
    }
    assert(lv.inertial.take(k as int) =~= lv.inertial);
    push_event(v, XqarEvent::End("Locations".to_owned()));
    assert(events_view(v@) =~= v0 + location_events(l@));
}


fn push_issue_events(v: &mut Vec<XqarEvent>, i: &crate::result::Issue)
    ensures
        events_view(final(v)@) == events_view(old(v)@) + issue_events(i@),
{
    let ghost v0 = events_view(v@);
    let ghost iv = i@;
    let mut a: Vec<(String, String)> = Vec::new();
    a.push(("issueId".to_owned(), dec_string(i.issue_id as u64)));
    a.push(("description".to_owned(), i.description.clone()));
    a.push(("level".to_owned(), i.level.as_str().to_owned()));
    a.push(("ruleUID".to_owned(), i.rule_uid.clone()));
    assert(attrs_view(a@) =~= seq![
        attr("issueId"@, dec(iv.issue_id as nat)),
        attr("description"@, iv.description),
        attr("level"@, iv.level.spec_as_str()),
        attr("ruleUID"@, iv.rule_uid),
    ]);
    push_event(v, XqarEvent::Start("Issue".to_owned(), a));
    let ghost v1 = events_view(v@);
    let ghost f = |l: LocationView| location_events(l);
    let n = i.locations.len();
    let mut k: usize = 0;
    assert(events_view(v@) =~= v1 + concat_map(iv.locations.take(0), f));
    while k < n
        invariant
            k <= n,
            n == i.locations@.len(),
            iv == i@,
            f == (|l: LocationView| location_events(l)),
            events_view(v@) == v1 + concat_map(iv.locations.take(k as int), f),
        decreases n - k,
    {
        assert(iv.locations.take(k + 1).drop_last() =~= iv.locations.take(k as int));
        assert(iv.locations[k as int] == i.locations@[k as int]@);
        push_location_events(v, &i.locations[k]);
        assert(events_view(v@) =~= v1 + concat_map(iv.locations.take(k + 1), f));
        k = k + 1;
    }
    assert(iv.locations.take(n as int) =~= iv.locations);
    push_event(v, XqarEvent::End("Issue".to_owned()));
    assert(events_view(v@) =~= v0 + issue_events(i@));
}

fn push_checker_events(v: &mut Vec<XqarEvent>, c: &crate::result::Checker)
    ensures
        events_view(final(v)@) == events_view(old(v)@) + checker_events(c@),
{
    let ghost v0 = events_view(v@);
    let ghost cv = c@;
    let status = match c.status {
        Some(st) => st.as_str(),
        None => "none",
    };
    let mut a: Vec<(String, String)> = Vec::new();
    a.push(("checkerId".to_owned(), c.checker_id.clone()));
    a.push(("description".to_owned(), c.description.clone()));
    a.push(("summary".to_owned(), c.summary.clone()));
    a.push(("status".to_owned(), status.to_owned()));
    assert(attrs_view(a@) =~= seq![
        attr("checkerId"@, cv.checker_id),
        attr("description"@, cv.description),
        attr("summary"@, cv.summary),
        attr("status"@, status_attr(cv.status)),
    ]);
    push_event(v, XqarEvent::Start("Checker".to_owned(), a));
    let ghost v1 = events_view(v@);
    let n = c.params.len();
    let mut i: usize = 0;
    while i < n
        invariant
            i <= n,
            n == c.params@.len(),
            cv == c@,
            events_view(v@) == v1 + cv.params.take(i as int).map_values(
                |p: (Seq<char>, Seq<char>)| XqarEventView::Empty("Param"@, seq![attr("name"@, p.0), attr("value"@, p.1)]),
            ),
        decreases n - i,
    {
        let mut pa: Vec<(String, String)> = Vec::new();
        pa.push(("name".to_owned(), c.params[i].name.clone()));
        pa.push(("value".to_owned(), c.params[i].value.clone()));
        assert(attrs_view(pa@) =~= seq![attr("name"@, cv.params[i as int].0), attr("value"@, cv.params[i as int].1)]);
        push_event(v, XqarEvent::Empty("Param".to_owned(), pa));
        assert(cv.params.take(i + 1) =~= cv.params.take(i as int).push(cv.params[i as int]));
        assert(events_view(v@) =~= v1 + cv.params.take(i + 1).map_values(
            |p: (Seq<char>, Seq<char>)| XqarEventView::Empty("Param"@, seq![attr("name"@, p.0), attr("value"@, p.1)]),
        ));
        i = i + 1;
    }
    assert(cv.params.take(n as int) =~= cv.params);
    let ghost v2 = events_view(v@);
    let ghost f = |i: IssueView| issue_events(i);
    let m = c.issues.len();
    let mut j: usize = 0;
    assert(events_view(v@) =~= v2 + concat_map(cv.issues.take(0), f));
    while j < m
        invariant
            j <= m,
            m == c.issues@.len(),
            cv == c@,
            f == (|i: IssueView| issue_events(i)),
            events_view(v@) == v2 + concat_map(cv.issues.take(j as int), f),
        decreases m - j,
    {
        assert(cv.issues.take(j + 1).drop_last() =~= cv.issues.take(j as int));
        assert(cv.issues[j as int] == c.issues@[j as int]@);
        push_issue_events(v, &c.issues[j]);
        assert(events_view(v@) =~= v2 + concat_map(cv.issues.take(j + 1), f));
        j = j + 1;
    }
    assert(cv.issues.take(m as int) =~= cv.issues);
    let ghost v3 = events_view(v@);
    let k = c.addressed_rules.len();
    let mut q: usize = 0;
    while q < k
        invariant
            q <= k,
            k == c.addressed_rules@.len(),
            cv == c@,
            events_view(v@) == v3 + cv.addressed_rules.take(q as int).map_values(
                |r: Seq<char>| XqarEventView::Empty("AddressedRule"@, seq![attr("ruleUID"@, r)]),
            ),
        decreases k - q,
    {
        let mut ra: Vec<(String, String)> = Vec::new();
        ra.push(("ruleUID".to_owned(), c.addressed_rules[q].rule_uid.clone()));
        assert(attrs_view(ra@) =~= seq![attr("ruleUID"@, cv.addressed_rules[q as int])]);
        push_event(v, XqarEvent::Empty("AddressedRule".to_owned(), ra));
        assert(cv.addressed_rules.take(q + 1) =~= cv.addressed_rules.take(q as int).push(cv.addressed_rules[q as int]));
        assert(events_view(v@) =~= v3 + cv.addressed_rules.take(q + 1).map_values(
            |r: Seq<char>| XqarEventView::Empty("AddressedRule"@, seq![attr("ruleUID"@, r)]),
        ));
        q = q + 1;
    }
    assert(cv.addressed_rules.take(k as int) =~= cv.addressed_rules);
    push_event(v, XqarEvent::End("Checker".to_owned()));
    assert(events_view(v@) =~= v0 + checker_events(c@));
}

/// The events of the XQAR report of `result`, in document order.
pub fn xqar_events(result: &Result) -> (r: Vec<XqarEvent>)
    ensures
        events_view(r@) == xqar_event_list(result@),
{
    let b = &result.bundle;
    let ghost rv = result@;
    let mut v: Vec<XqarEvent> = Vec::new();
    push_event(&mut v, XqarEvent::Decl("1.0".to_owned(), Some("UTF-8".to_owned()), Some("no".to_owned())));
    let mut ra: Vec<(String, String)> = Vec::new();
    ra.push(("version".to_owned(), b.version.clone()));
    assert(attrs_view(ra@) =~= seq![attr("version"@, rv.bundle.version)]);
    push_event(&mut v, XqarEvent::Start("CheckerResults".to_owned(), ra));
    let mut ba: Vec<(String, String)> = Vec::new();
    ba.push(("name".to_owned(), b.name.clone()));
    ba.push(("version".to_owned(), b.version.clone()));
    ba.push(("description".to_owned(), b.description.clone()));
    ba.push(("summary".to_owned(), b.summary.clone()));
    assert(attrs_view(ba@) =~= seq![
        attr("name"@, rv.bundle.name),
        attr("version"@, rv.bundle.version),
        attr("description"@, rv.bundle.description),
        attr("summary"@, rv.bundle.summary),
    ]);
    push_event(&mut v, XqarEvent::Start("CheckerBundle".to_owned(), ba));
    let ghost v1 = events_view(v@);
    let ghost f = |c: CheckerView| checker_events(c);
    let n = b.checkers.len();
    let mut i: usize = 0;
    assert(events_view(v@) =~= v1 + concat_map(rv.bundle.checkers.take(0), f));
    while i < n
        invariant
            i <= n,
            n == b.checkers@.len(),
            rv == result@,
            *b == result.bundle,
            f == (|c: CheckerView| checker_events(c)),
            events_view(v@) == v1 + concat_map(rv.bundle.checkers.take(i as int), f),
        decreases n - i,
    {
        assert(rv.bundle.checkers.take(i + 1).drop_last() =~= rv.bundle.checkers.take(i as int));
        assert(rv.bundle.checkers[i as int] == b.checkers@[i as int]@);
        push_checker_events(&mut v, &b.checkers[i]);
        assert(events_view(v@) =~= v1 + concat_map(rv.bundle.checkers.take(i + 1), f));
        i = i + 1;
    }
    assert(rv.bundle.checkers.take(n as int) =~= rv.bundle.checkers);
    push_event(&mut v, XqarEvent::End("CheckerBundle".to_owned()));
    push_event(&mut v, XqarEvent::End("CheckerResults".to_owned()));
    assert(events_view(v@) =~= xqar_event_list(result@));
    v
}

/// The bytes of the events `es`, one after the other.
pub open spec fn events_bytes(es: Seq<XqarEventView>) -> Seq<u8> {
    concat_map(es, |e: XqarEventView| quick_xml_event_bytes(e))
}

/// The XQAR report of `result` as the bytes of an XML file.
pub fn write_xqar(result: &Result) -> (r: Vec<u8>)
    ensures
        r@ == events_bytes(xqar_event_list(result@)),
{
    let events = xqar_events(result);
    let ghost ev = events_view(events@);
    let ghost f = |e: XqarEventView| quick_xml_event_bytes(e);
    let mut out: Vec<u8> = Vec::new();
    let n = events.len();
    let mut i: usize = 0;
    assert(out@ =~= concat_map(ev.take(0), f));
    while i < n
        invariant
            i <= n,
            n == events@.len(),
            ev == events_view(events@),
            f == (|e: XqarEventView| quick_xml_event_bytes(e)),
            out@ == concat_map(ev.take(i as int), f),
        decreases n - i,
    {
        assert(ev.take(i + 1).drop_last() =~= ev.take(i as int));
        let mut b = event_bytes(&events[i]);
        let ghost o0 = out@;
        let ghost b0 = b@;
        out.append(&mut b);
        assert(out@ =~= o0 + b0);
        assert(out@ =~= concat_map(ev.take(i + 1), f));
        i = i + 1;
    }
    assert(ev.take(n as int) =~= ev);
    out
}

} // verus!
