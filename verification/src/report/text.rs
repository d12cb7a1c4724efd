//! The text report of a result.
use vstd::prelude::*;

use crate::result::{
    CheckerView, FileLocation, IssueSeverity, IssueView, LocationView, Result, ResultView, StatusType,
};
use crate::text::{concat_map, dec, dec_int, push_dec, push_dec_i64, push_dec_u128};

verus! {

/// `n` spaces.
pub open spec fn spaces(n: nat) -> Seq<char> {
    Seq::new(n, |i: int| ' ')
}

/// A line of the report: `s` indented by `indent` spaces.
pub open spec fn line(indent: nat, s: Seq<char>) -> Seq<char> {
    spaces(indent) + s + seq!['\n']
}

/// `n` copies of `c`.
pub open spec fn rule_of(c: char, n: nat) -> Seq<char> {
    Seq::new(n, |i: int| c)
}

/// A number right-aligned in a field of three characters.
pub open spec fn pad3(s: Seq<char>) -> Seq<char> {
    if s.len() < 3 { spaces((3 - s.len()) as nat) + s } else { s }
}

/// A status as the report names it.
pub open spec fn status_text(st: Option<StatusType>) -> Seq<char> {
    match st {
        Some(s) => s.spec_name(),
        None => "NONE"@,
    }
}

/// A row or column as the report prints it (`-1` when unknown).
pub open spec fn opt_u32_text(x: Option<u32>) -> Seq<char> {
    match x {
        Some(v) => dec(v as nat),
        None => "-1"@,
    }
}

/// An offset as the report prints it (`-1` when unknown).
pub open spec fn opt_offset_text(x: Option<u64>) -> Seq<char> {
    match x {
        Some(v) => dec_int((v as i64) as int),
        None => "-1"@,
    }
}

pub open spec fn file_line(desc: Seq<char>, fl: FileLocation) -> Seq<char> {
    line(
        14,
        " -> File @ col: "@ + opt_u32_text(fl.column) + ", row: "@ + opt_u32_text(fl.row) + ", offset: "@
            + opt_offset_text(fl.offset) + ": "@ + desc,
    )
}

pub open spec fn xml_line(desc: Seq<char>, xpath: Seq<char>) -> Seq<char> {
    line(14, " -> XML @ `"@ + xpath + "`: "@ + desc)
}

pub open spec fn inertial_line(desc: Seq<char>, p: (Seq<char>, Seq<char>, Seq<char>)) -> Seq<char> {
    line(14, " -> Inertial @ ["@ + p.0 + "; "@ + p.1 + "; "@ + p.2 + "]: "@ + desc)
}

/// The lines of a location: its file, xml and inertial parts.
pub open spec fn location_text(l: LocationView) -> Seq<char> {
    concat_map(l.file, |fl: FileLocation| file_line(l.description, fl)) + concat_map(
        l.xml,
        |x: Seq<char>| xml_line(l.description, x),
    ) + concat_map(l.inertial, |p: (Seq<char>, Seq<char>, Seq<char>)| inertial_line(l.description, p))
}

/// The lines of the `idx`-th issue of a checker.
pub open spec fn issue_text(idx: nat, is: IssueView) -> Seq<char> {
    line(8, " "@ + pad3(dec(idx)) + ". ["@ + is.level.spec_name() + "] @ "@ + is.rule_uid) + line(
        14,
        "Description: "@ + is.description,
    ) + if is.locations.len() > 0 {
        line(14, "Locations:"@) + concat_map(is.locations, |l: LocationView| location_text(l))
    } else {
        Seq::empty()
    }
}

/// The lines of the issues of a checker, numbered from 1.
pub open spec fn issues_text(is: Seq<IssueView>) -> Seq<char>
    decreases is.len(),
{
    if is.len() == 0 {
        Seq::empty()
    } else {
        issues_text(is.drop_last()) + issue_text(is.len(), is.last())
    }
}

/// The lines of a checker.
pub open spec fn checker_text(c: CheckerView) -> Seq<char> {
    line(4, " -> ["@ + status_text(c.status) + "] "@ + c.checker_id) + line(8, "Description: "@ + c.description)
        + line(8, "Summary: "@ + c.summary) + (if c.addressed_rules.len() > 0 {
        line(8, "Addressed Rules:"@) + concat_map(c.addressed_rules, |r: Seq<char>| line(8, " -> "@ + r))
    } else {
        Seq::empty()
    }) + (if c.issues.len() > 0 {
        line(8, "Issues:"@) + issues_text(c.issues)
    } else {
        Seq::empty()
    }) + line(8, Seq::empty())
}

/// The rules addressed by the checkers, checker by checker.
pub open spec fn addressed_rules(cs: Seq<CheckerView>) -> Seq<Seq<char>> {
    concat_map(cs, |c: CheckerView| c.addressed_rules)
}

/// The rules of the issues of severity `level`, checker by checker.
pub open spec fn flagged_rules(cs: Seq<CheckerView>, level: IssueSeverity) -> Seq<Seq<char>> {
    concat_map(
        cs,
        |c: CheckerView|
            concat_map(c.issues, |i: IssueView| if i.level == level { seq![i.rule_uid] } else { Seq::<Seq<char>>::empty() }),
    )
}

/// The lines listing `rules`, each indented by `indent`.
pub open spec fn rule_lines(rules: Seq<Seq<char>>, indent: nat) -> Seq<char> {
    concat_map(rules, |r: Seq<char>| line(indent, " -> "@ + r))
}

/// The block of rules flagged with severity `level`.
pub open spec fn flagged_block(cs: Seq<CheckerView>, level: IssueSeverity) -> Seq<char> {
    line(2, "with "@ + level.spec_name() + ": "@ + dec(flagged_rules(cs, level).len())) + rule_lines(
        flagged_rules(cs, level),
        2,
    )
}

/// The head of the report and the bundle with its checkers.
pub open spec fn bundle_text(r: ResultView) -> Seq<char> {
    let b = r.bundle;
    line(0, "ASAM QUALITY FRAMEWORK v"@ + b.version + " - RESULT REPORT"@) + line(0, rule_of('=', 100)) + line(
        0,
        Seq::empty(),
    ) + line(0, "BUNDLES"@) + line(0, rule_of('-', 100)) + line(0, Seq::empty()) + line(
        0,
        " -> "@ + b.name + " @ "@ + b.version,
    ) + line(4, "Description: "@ + b.description) + line(4, "Summary: "@ + b.summary) + (if b.params.len() > 0 {
        line(4, "Parameters: "@) + concat_map(
            b.params,
            |p: (Seq<char>, Seq<char>)| line(4, " -> "@ + p.0 + ": "@ + p.1 + " [String]"@),
        )
    } else {
        Seq::empty()
    }) + (if b.checkers.len() > 0 {
        line(4, "Checkers: "@) + concat_map(b.checkers, |c: CheckerView| checker_text(c))
    } else {
        Seq::empty()
    })
}

/// The tail of the report: addressed and flagged rules, and the notes.
pub open spec fn rules_text(cs: Seq<CheckerView>) -> Seq<char> {
    line(0, rule_of('=', 100)) + line(0, Seq::empty()) + line(0, "ADDRESSED RULES"@) + line(0, rule_of('-', 100))
        + line(0, Seq::empty()) + line(0, "Addressed rules: "@ + dec(addressed_rules(cs).len())) + rule_lines(
        addressed_rules(cs),
        0,
    ) + line(0, Seq::empty()) + line(
        0,
        "Flagged Rules: "@ + dec(
            flagged_rules(cs, IssueSeverity::Error).len() + flagged_rules(cs, IssueSeverity::Warning).len()
                + flagged_rules(cs, IssueSeverity::Information).len(),
        ),
    ) + flagged_block(cs, IssueSeverity::Error) + flagged_block(cs, IssueSeverity::Warning) + flagged_block(
        cs,
        IssueSeverity::Information,
    ) + line(0, rule_of('-', 100)) + line(0, Seq::empty()) + line(0, "NOTES"@) + line(0, rule_of('-', 100)) + line(
        0,
        Seq::empty(),
    ) + line(0, "Rule UID format:"@) + line(0, "  <emanating-entity>:<standard>:x.y.z:rule_set.for_rules.rule_name"@)
        + line(0, Seq::empty()) + line(
        0,
        "Known limitations: none (xsd-schema resolves XSD 1.1 conditional type assignment before the abstract-type check)."@,
    )
}

/// The text report of a result.
pub open spec fn text_report(r: ResultView) -> Seq<char> {
    bundle_text(r) + rules_text(r.bundle.checkers)
}

fn push_spaces(out: &mut String, n: usize)
    ensures
        final(out)@ == old(out)@ + spaces(n as nat),
{
    let mut i: usize = 0;
    while i < n
        invariant
            i <= n,
            out@ == old(out)@ + spaces(i as nat),
        decreases n - i,
    {
        proof {
            reveal_strlit(" ");
        }
        assert(" "@ =~= seq![' ']);
        out.append(" ");
        assert(out@ =~= old(out)@ + spaces((i + 1) as nat));
        i = i + 1;
    }
}

fn push_rule(out: &mut String, c: &str, n: usize)
    requires
        c@.len() == 1,
    ensures
        final(out)@ == old(out)@ + rule_of(c@[0], n as nat),
{
    let mut i: usize = 0;
    while i < n
        invariant
            i <= n,
            c@.len() == 1,
            out@ == old(out)@ + rule_of(c@[0], i as nat),
        decreases n - i,
    {
        out.append(c);
        assert(out@ =~= old(out)@ + rule_of(c@[0], (i + 1) as nat));
        i = i + 1;
    }
}

/// Appends one line: `indent` spaces, `s` and a line break.
fn push_line(out: &mut String, indent: usize, s: &str)
    ensures
        final(out)@ == old(out)@ + line(indent as nat, s@),
{
    proof {
        reveal_strlit("\n");
    }
    push_spaces(out, indent);
    out.append(s);
    out.append("\n");
    assert(out@ =~= old(out)@ + line(indent as nat, s@));
}

fn push_rule_line(out: &mut String, c: &str)
    requires
        c@.len() == 1,
    ensures
        final(out)@ == old(out)@ + line(0, rule_of(c@[0], 100)),
{
    let mut s = String::new();
    push_rule(&mut s, c, 100);
    assert(s@ =~= rule_of(c@[0], 100));
    push_line(out, 0, s.as_str());
}


fn push_opt_u32(s: &mut String, x: Option<u32>)
    ensures
        final(s)@ == old(s)@ + opt_u32_text(x),
{
    match x {
        Some(v) => push_dec(s, v as u64),
        None => s.append("-1"),
    }
}

fn push_opt_offset(s: &mut String, x: Option<u64>)
    ensures
        final(s)@ == old(s)@ + opt_offset_text(x),
{
    match x {
        Some(v) => push_dec_i64(s, v as i64),
        None => s.append("-1"),
    }
}

fn push_location(out: &mut String, l: &crate::result::Location)
    ensures
        final(out)@ == old(out)@ + location_text(l@),
{
    let ghost o0 = out@;
    let ghost lv = l@;
    let ghost ff = |fl: FileLocation| file_line(lv.description, fl);
    let n = l.file.len();
    let mut i: usize = 0;
    assert(l.file@.take(0) =~= Seq::<FileLocation>::empty());
    assert(out@ =~= o0 + concat_map(l.file@.take(0), ff));
    while i < n
        invariant
            i <= n,
            n == l.file@.len(),
            lv == l@,
            ff == (|fl: FileLocation| file_line(lv.description, fl)),
            out@ == o0 + concat_map(l.file@.take(i as int), ff),
        decreases n - i,
    {
        assert(l.file@.take(i + 1).drop_last() =~= l.file@.take(i as int));
        let fl = l.file[i];
        let mut t = " -> File @ col: ".to_owned();
        push_opt_u32(&mut t, fl.column);
        t.append(", row: ");
        push_opt_u32(&mut t, fl.row);
        t.append(", offset: ");
        push_opt_offset(&mut t, fl.offset);
        t.append(": ");
        t.append(l.description.as_str());
        push_line(out, 14, t.as_str());
        assert(out@ =~= o0 + concat_map(l.file@.take(i + 1), ff));
        i = i + 1;
    }
    assert(l.file@.take(n as int) =~= l.file@);
    let ghost o1 = out@;
    let ghost fx = |x: Seq<char>| xml_line(lv.description, x);
    let ghost xs = l.xml@.map_values(|x: crate::result::XmlLocation| x.xpath@);
    let m = l.xml.len();
    let mut j: usize = 0;
    assert(out@ =~= o1 + concat_map(xs.take(0), fx));
    while j < m
        invariant
            j <= m,
            m == l.xml@.len(),
            lv == l@,
            xs == l.xml@.map_values(|x: crate::result::XmlLocation| x.xpath@),
            xs == lv.xml,
            fx == (|x: Seq<char>| xml_line(lv.description, x)),
            out@ == o1 + concat_map(xs.take(j as int), fx),
        decreases m - j,
    {
        assert(xs.take(j + 1).drop_last() =~= xs.take(j as int));
        let mut t = " -> XML @ `".to_owned();
        t.append(l.xml[j].xpath.as_str());
        t.append("`: ");
        t.append(l.description.as_str());
        push_line(out, 14, t.as_str());
        assert(out@ =~= o1 + concat_map(xs.take(j + 1), fx));
        j = j + 1;
    }
    assert(xs.take(m as int) =~= xs);
    let ghost o2 = out@;
    let ghost fi = |p: (Seq<char>, Seq<char>, Seq<char>)| inertial_line(lv.description, p);
    let ghost is = lv.inertial;
    let k = l.inertial.len();
    let mut q: usize = 0;
    assert(out@ =~= o2 + concat_map(is.take(0), fi));
    while q < k
        invariant
            q <= k,
            k == l.inertial@.len(),
            lv == l@,
            is == lv.inertial,
            fi == (|p: (Seq<char>, Seq<char>, Seq<char>)| inertial_line(lv.description, p)),
            out@ == o2 + concat_map(is.take(q as int), fi),
        decreases k - q,
    {
        assert(is.take(q + 1).drop_last() =~= is.take(q as int));
        let p = &l.inertial[q];
        let mut t = " -> Inertial @ [".to_owned();
        t.append(p.x.as_str());
        t.append("; ");
        t.append(p.y.as_str());
        t.append("; ");
        t.append(p.z.as_str());
        t.append("]: ");
        t.append(l.description.as_str());
        push_line(out, 14, t.as_str());
        assert(out@ =~= o2 + concat_map(is.take(q + 1), fi));
        q = q + 1;
    }
    assert(is.take(k as int) =~= is);
    assert(out@ =~= o0 + location_text(l@));
}


fn push_issue(out: &mut String, idx: usize, is: &crate::result::Issue)
    ensures
        final(out)@ == old(out)@ + issue_text(idx as nat, is@),
{
    let ghost o0 = out@;
    let mut num = String::new();
    push_dec(&mut num, idx as u64);
    assert(num@ =~= dec(idx as nat));
    let len = num.as_str().unicode_len();
    let mut t = " ".to_owned();
    if len < 3 {
        push_spaces(&mut t, 3 - len);
    }
    t.append(num.as_str());
    assert(t@ =~= " "@ + pad3(dec(idx as nat)));
    t.append(". [");
    t.append(is.level.name());
    t.append("] @ ");
    t.append(is.rule_uid.as_str());
    push_line(out, 8, t.as_str());
    let mut d = "Description: ".to_owned();
    d.append(is.description.as_str());
    push_line(out, 14, d.as_str());
    let ghost o1 = out@;
    let ghost locs = is@.locations;
    let ghost f = |l: LocationView| location_text(l);
    if is.locations.len() > 0 {
        push_line(out, 14, "Locations:");
        let ghost o2 = out@;
        let n = is.locations.len();
        let mut i: usize = 0;
        assert(out@ =~= o2 + concat_map(locs.take(0), f));
        while i < n
            invariant
                i <= n,
                n == is.locations@.len(),
                locs == is@.locations,
                f == (|l: LocationView| location_text(l)),
                out@ == o2 + concat_map(locs.take(i as int), f),
            decreases n - i,
        {
            assert(locs.take(i + 1).drop_last() =~= locs.take(i as int));
            assert(locs[i as int] == is.locations@[i as int]@);
            push_location(out, &is.locations[i]);
            assert(out@ =~= o2 + concat_map(locs.take(i + 1), f));
            i = i + 1;
        }
        assert(locs.take(n as int) =~= locs);
        assert(out@ =~= o1 + (line(14, "Locations:"@) + concat_map(locs, f)));
    } else {
        assert(out@ =~= o1 + Seq::<char>::empty());
    }
    assert(out@ =~= o0 + issue_text(idx as nat, is@));
}

/// The first three lines of a checker.
pub open spec fn checker_head(c: CheckerView) -> Seq<char> {
    line(4, " -> ["@ + status_text(c.status) + "] "@ + c.checker_id) + line(8, "Description: "@ + c.description)
        + line(8, "Summary: "@ + c.summary)
}

/// The addressed rules block of a checker.
pub open spec fn checker_rules(c: CheckerView) -> Seq<char> {
    if c.addressed_rules.len() > 0 {
        line(8, "Addressed Rules:"@) + concat_map(c.addressed_rules, |r: Seq<char>| line(8, " -> "@ + r))
    } else {
        Seq::empty()
    }
}

/// The issues block of a checker.
pub open spec fn checker_issues(c: CheckerView) -> Seq<char> {
    if c.issues.len() > 0 {
        line(8, "Issues:"@) + issues_text(c.issues)
    } else {
        Seq::empty()
    }
}

fn push_checker_head(out: &mut String, c: &crate::result::Checker)
    ensures
        final(out)@ == old(out)@ + checker_head(c@),
{
    let ghost o0 = out@;
    let mut t = " -> [".to_owned();
    match c.status {
        Some(st) => t.append(st.name()),
        None => t.append("NONE"),
    }
    t.append("] ");
    t.append(c.checker_id.as_str());
    push_line(out, 4, t.as_str());
    let mut d = "Description: ".to_owned();
    d.append(c.description.as_str());
    push_line(out, 8, d.as_str());
    let mut m = "Summary: ".to_owned();
    m.append(c.summary.as_str());
    push_line(out, 8, m.as_str());
    assert(out@ =~= o0 + checker_head(c@));
}

fn push_checker_rules(out: &mut String, c: &crate::result::Checker)
    ensures
        final(out)@ == old(out)@ + checker_rules(c@),
{
    let ghost o1 = out@;
    let ghost cv = c@;
    let ghost rules = cv.addressed_rules;
    let ghost fr = |r: Seq<char>| line(8, " -> "@ + r);
    if c.addressed_rules.len() > 0 {
        push_line(out, 8, "Addressed Rules:");
        let ghost o2 = out@;
        let n = c.addressed_rules.len();
        let mut i: usize = 0;
        assert(out@ =~= o2 + concat_map(rules.take(0), fr));
        while i < n
            invariant
                i <= n,
                n == c.addressed_rules@.len(),
                cv == c@,
                rules == cv.addressed_rules,
                fr == (|r: Seq<char>| line(8, " -> "@ + r)),
                out@ == o2 + concat_map(rules.take(i as int), fr),
            decreases n - i,
        {
            assert(rules.take(i + 1).drop_last() =~= rules.take(i as int));
            let mut t = " -> ".to_owned();
            t.append(c.addressed_rules[i].rule_uid.as_str());
            push_line(out, 8, t.as_str());
            assert(out@ =~= o2 + concat_map(rules.take(i + 1), fr));
            i = i + 1;
        }
        assert(rules.take(n as int) =~= rules);
        assert(out@ =~= o1 + (line(8, "Addressed Rules:"@) + concat_map(rules, fr)));
    } else {
        assert(out@ =~= o1 + Seq::<char>::empty());
    }
}

fn push_checker_issues(out: &mut String, c: &crate::result::Checker)
    ensures
        final(out)@ == old(out)@ + checker_issues(c@),
{
    let ghost o3 = out@;
    let ghost cv = c@;
    let ghost issues = cv.issues;
    if c.issues.len() > 0 {
        push_line(out, 8, "Issues:");
        let ghost o4 = out@;
        let n = c.issues.len();
        let mut i: usize = 0;
        assert(out@ =~= o4 + issues_text(issues.take(0)));
        while i < n
            invariant
                i <= n,
                n == c.issues@.len(),
                cv == c@,
                issues == cv.issues,
                out@ == o4 + issues_text(issues.take(i as int)),
            decreases n - i,
        {
            assert(issues.take(i + 1).drop_last() =~= issues.take(i as int));
            assert(issues[i as int] == c.issues@[i as int]@);
            push_issue(out, i + 1, &c.issues[i]);
            assert(out@ =~= o4 + issues_text(issues.take(i + 1)));
            i = i + 1;
        }
        assert(issues.take(n as int) =~= issues);
        assert(out@ =~= o3 + (line(8, "Issues:"@) + issues_text(issues)));
    } else {
        assert(out@ =~= o3 + Seq::<char>::empty());
    }
}

fn push_checker(out: &mut String, c: &crate::result::Checker)
    ensures
        final(out)@ == old(out)@ + checker_text(c@),
{
    let ghost o0 = out@;
    push_checker_head(out, c);
    push_checker_rules(out, c);
    push_checker_issues(out, c);
    push_line(out, 8, "");
    proof {
        reveal_strlit("");
    }
    assert(checker_text(c@) =~= checker_head(c@) + checker_rules(c@) + checker_issues(c@) + line(8, Seq::empty()));
    assert(out@ =~= o0 + checker_text(c@));
}


pub open spec fn strings_view(v: Seq<String>) -> Seq<Seq<char>> {
    v.map_values(|x: String| x@)
}

fn collect_addressed_rules(cs: &Vec<crate::result::Checker>) -> (r: Vec<String>)
    ensures
        strings_view(r@) == addressed_rules(cs@.map_values(|c: crate::result::Checker| c@)),
{
    let ghost cv = cs@.map_values(|c: crate::result::Checker| c@);
    let ghost f = |c: CheckerView| c.addressed_rules;
    let mut r: Vec<String> = Vec::new();
    let n = cs.len();
    let mut i: usize = 0;
    assert(strings_view(r@) =~= concat_map(cv.take(0), f));
    while i < n
        invariant
            i <= n,
            n == cs@.len(),
            cv == cs@.map_values(|c: crate::result::Checker| c@),
            f == (|c: CheckerView| c.addressed_rules),
            strings_view(r@) == concat_map(cv.take(i as int), f),
        decreases n - i,
    {
        assert(cv.take(i + 1).drop_last() =~= cv.take(i as int));
        let ghost r0 = strings_view(r@);
        let rules = &cs[i].addressed_rules;
        let m = rules.len();
        let mut j: usize = 0;
        while j < m
            invariant
                j <= m,
                i < n,
                n == cv.len(),
                m == rules@.len(),
                cv[i as int].addressed_rules == rules@.map_values(|x: crate::result::RuleUid| x.rule_uid@),
                strings_view(r@) == r0 + cv[i as int].addressed_rules.take(j as int),
            decreases m - j,
        {
            let ghost r1 = r@;
            r.push(rules[j].rule_uid.clone());
            assert(r@ == r1.push(rules@[j as int].rule_uid));
            assert(strings_view(r@) =~= strings_view(r1).push(rules@[j as int].rule_uid@));
            assert(cv[i as int].addressed_rules[j as int] == rules@[j as int].rule_uid@);
            assert(cv[i as int].addressed_rules.take(j + 1) =~= cv[i as int].addressed_rules.take(j as int).push(
                cv[i as int].addressed_rules[j as int],
            ));
            assert(strings_view(r@) =~= r0 + cv[i as int].addressed_rules.take(j + 1));
            j = j + 1;
        }
        assert(cv[i as int].addressed_rules.take(m as int) =~= cv[i as int].addressed_rules);
        assert(concat_map(cv.take(i + 1), f) == concat_map(cv.take(i as int), f) + f(cv[i as int]));
        i = i + 1;
    }
    assert(cv.take(n as int) =~= cv);
    r
}

fn collect_flagged_rules(cs: &Vec<crate::result::Checker>, level: IssueSeverity) -> (r: Vec<String>)
    ensures
        strings_view(r@) == flagged_rules(cs@.map_values(|c: crate::result::Checker| c@), level),
{
    let ghost cv = cs@.map_values(|c: crate::result::Checker| c@);
    let ghost g = |i: IssueView| if i.level == level { seq![i.rule_uid] } else { Seq::<Seq<char>>::empty() };
    let ghost f = |c: CheckerView|
        concat_map(c.issues, |i: IssueView| if i.level == level { seq![i.rule_uid] } else { Seq::<Seq<char>>::empty() });
    let mut r: Vec<String> = Vec::new();
    let n = cs.len();
    let mut i: usize = 0;
    assert(strings_view(r@) =~= concat_map(cv.take(0), f));
    while i < n
        invariant
            i <= n,
            n == cs@.len(),
            cv == cs@.map_values(|c: crate::result::Checker| c@),
            g == (|i: IssueView| if i.level == level { seq![i.rule_uid] } else { Seq::<Seq<char>>::empty() }),
            f == (|c: CheckerView|
                concat_map(c.issues, |i: IssueView| if i.level == level { seq![i.rule_uid] } else { Seq::<Seq<char>>::empty() })),
            strings_view(r@) == concat_map(cv.take(i as int), f),
        decreases n - i,
    {
        assert(cv.take(i + 1).drop_last() =~= cv.take(i as int));
        let ghost r0 = strings_view(r@);
        let issues = &cs[i].issues;
        let ghost iv = cv[i as int].issues;
        let m = issues.len();
        let mut j: usize = 0;
        assert(r0 + concat_map(iv.take(0), g) =~= r0);
        while j < m
            invariant
                j <= m,
                i < n,
                n == cv.len(),
                m == issues@.len(),
                iv == issues@.map_values(|x: crate::result::Issue| x@),
                g == (|i: IssueView| if i.level == level { seq![i.rule_uid] } else { Seq::<Seq<char>>::empty() }),
                strings_view(r@) == r0 + concat_map(iv.take(j as int), g),
            decreases m - j,
        {
            assert(iv.take(j + 1).drop_last() =~= iv.take(j as int));
            assert(concat_map(iv.take(j + 1), g) == concat_map(iv.take(j as int), g) + g(iv[j as int]));
            let ghost r1 = r@;
            if issues[j].level == level {
                r.push(issues[j].rule_uid.clone());
                assert(r@ == r1.push(issues@[j as int].rule_uid));
                assert(strings_view(r@) =~= strings_view(r1).push(issues@[j as int].rule_uid@));
            }
            assert(iv[j as int] == issues@[j as int]@);
            assert(strings_view(r@) =~= r0 + concat_map(iv.take(j + 1), g));
            j = j + 1;
        }
        assert(iv.take(m as int) =~= iv);
        assert(f(cv[i as int]) == concat_map(iv, g));
        assert(concat_map(cv.take(i + 1), f) == concat_map(cv.take(i as int), f) + f(cv[i as int]));
        i = i + 1;
    }
    assert(cv.take(n as int) =~= cv);
    r
}

fn push_rule_lines(out: &mut String, rules: &Vec<String>, indent: usize)
    ensures
        final(out)@ == old(out)@ + rule_lines(strings_view(rules@), indent as nat),
{
    let ghost o0 = out@;
    let ghost rv = strings_view(rules@);
    let ghost f = |r: Seq<char>| line(indent as nat, " -> "@ + r);
    let n = rules.len();
    let mut i: usize = 0;
    assert(out@ =~= o0 + concat_map(rv.take(0), f));
    while i < n
        invariant
            i <= n,
            n == rules@.len(),
            rv == strings_view(rules@),
            f == (|r: Seq<char>| line(indent as nat, " -> "@ + r)),
            out@ == o0 + concat_map(rv.take(i as int), f),
        decreases n - i,
    {
        assert(rv.take(i + 1).drop_last() =~= rv.take(i as int));
        let mut t = " -> ".to_owned();
        t.append(rules[i].as_str());
        push_line(out, indent, t.as_str());
        assert(out@ =~= o0 + concat_map(rv.take(i + 1), f));
        i = i + 1;
    }
    assert(rv.take(n as int) =~= rv);
}


/// The head of the report, up to the bundle's summary.
pub open spec fn bundle_head(r: ResultView) -> Seq<char> {
    let b = r.bundle;
    line(0, "ASAM QUALITY FRAMEWORK v"@ + b.version + " - RESULT REPORT"@) + line(0, rule_of('=', 100)) + line(
        0,
        Seq::empty(),
    ) + line(0, "BUNDLES"@) + line(0, rule_of('-', 100)) + line(0, Seq::empty()) + line(
        0,
        " -> "@ + b.name + " @ "@ + b.version,
    ) + line(4, "Description: "@ + b.description) + line(4, "Summary: "@ + b.summary)
}

pub open spec fn bundle_params(r: ResultView) -> Seq<char> {
    if r.bundle.params.len() > 0 {
        line(4, "Parameters: "@) + concat_map(
            r.bundle.params,
            |p: (Seq<char>, Seq<char>)| line(4, " -> "@ + p.0 + ": "@ + p.1 + " [String]"@),
        )
    } else {
        Seq::empty()
    }
}

pub open spec fn bundle_checkers(r: ResultView) -> Seq<char> {
    if r.bundle.checkers.len() > 0 {
        line(4, "Checkers: "@) + concat_map(r.bundle.checkers, |c: CheckerView| checker_text(c))
    } else {
        Seq::empty()
    }
}

fn push_bundle_head(out: &mut String, result: &Result)
    ensures
        final(out)@ == old(out)@ + bundle_head(result@),
{
    let ghost o0 = out@;
    proof {
        reveal_strlit("=");
        reveal_strlit("-");
        reveal_strlit("");
    }
    let b = &result.bundle;
    let mut t = "ASAM QUALITY FRAMEWORK v".to_owned();
    t.append(b.version.as_str());
    t.append(" - RESULT REPORT");
    push_line(out, 0, t.as_str());
    push_rule_line(out, "=");
    push_line(out, 0, "");
    push_line(out, 0, "BUNDLES");
    push_rule_line(out, "-");
    push_line(out, 0, "");
    let mut h = " -> ".to_owned();
    h.append(b.name.as_str());
    h.append(" @ ");
    h.append(b.version.as_str());
    push_line(out, 0, h.as_str());
    let mut d = "Description: ".to_owned();
    d.append(b.description.as_str());
    push_line(out, 4, d.as_str());
    let mut m = "Summary: ".to_owned();
    m.append(b.summary.as_str());
    push_line(out, 4, m.as_str());
    assert(out@ =~= o0 + bundle_head(result@));
}

fn push_bundle_params(out: &mut String, result: &Result)
    ensures
        final(out)@ == old(out)@ + bundle_params(result@),
{
    let ghost o0 = out@;
    let ps = &result.bundle.params;
    let ghost pv = result@.bundle.params;
    let ghost f = |p: (Seq<char>, Seq<char>)| line(4, " -> "@ + p.0 + ": "@ + p.1 + " [String]"@);
    if ps.len() > 0 {
        push_line(out, 4, "Parameters: ");
        let ghost o1 = out@;
        let n = ps.len();
        let mut i: usize = 0;
        assert(out@ =~= o1 + concat_map(pv.take(0), f));
        while i < n
            invariant
                i <= n,
                n == ps@.len(),
                pv == ps@.map_values(|p: crate::result::Param| p@),
                f == (|p: (Seq<char>, Seq<char>)| line(4, " -> "@ + p.0 + ": "@ + p.1 + " [String]"@)),
                out@ == o1 + concat_map(pv.take(i as int), f),
            decreases n - i,
        {
            assert(pv.take(i + 1).drop_last() =~= pv.take(i as int));
            let mut t = " -> ".to_owned();
            t.append(ps[i].name.as_str());
            t.append(": ");
            t.append(ps[i].value.as_str());
            t.append(" [String]");
            push_line(out, 4, t.as_str());
            assert(out@ =~= o1 + concat_map(pv.take(i + 1), f));
            i = i + 1;
        }
        assert(pv.take(n as int) =~= pv);
        assert(out@ =~= o0 + bundle_params(result@));
    } else {
        assert(out@ =~= o0 + bundle_params(result@));
    }
}

fn push_bundle_checkers(out: &mut String, result: &Result)
    ensures
        final(out)@ == old(out)@ + bundle_checkers(result@),
{
    let ghost o0 = out@;
    let cs = &result.bundle.checkers;
    let ghost cv = result@.bundle.checkers;
    let ghost f = |c: CheckerView| checker_text(c);
    if cs.len() > 0 {
        push_line(out, 4, "Checkers: ");
        let ghost o1 = out@;
        let n = cs.len();
        let mut i: usize = 0;
        assert(out@ =~= o1 + concat_map(cv.take(0), f));
        while i < n
            invariant
                i <= n,
                n == cs@.len(),
                cv == cs@.map_values(|c: crate::result::Checker| c@),
                f == (|c: CheckerView| checker_text(c)),
                out@ == o1 + concat_map(cv.take(i as int), f),
            decreases n - i,
        {
            assert(cv.take(i + 1).drop_last() =~= cv.take(i as int));
            push_checker(out, &cs[i]);
            assert(out@ =~= o1 + concat_map(cv.take(i + 1), f));
            i = i + 1;
        }
        assert(cv.take(n as int) =~= cv);
        assert(out@ =~= o0 + bundle_checkers(result@));
    } else {
        assert(out@ =~= o0 + bundle_checkers(result@));
    }
}

/// The addressed rules part of the tail.
pub open spec fn addressed_part(cs: Seq<CheckerView>) -> Seq<char> {
    line(0, rule_of('=', 100)) + line(0, Seq::empty()) + line(0, "ADDRESSED RULES"@) + line(0, rule_of('-', 100))
        + line(0, Seq::empty()) + line(0, "Addressed rules: "@ + dec(addressed_rules(cs).len())) + rule_lines(
        addressed_rules(cs),
        0,
    ) + line(0, Seq::empty())
}

/// The flagged rules part of the tail.
pub open spec fn flagged_part(cs: Seq<CheckerView>) -> Seq<char> {
    line(
        0,
        "Flagged Rules: "@ + dec(
            flagged_rules(cs, IssueSeverity::Error).len() + flagged_rules(cs, IssueSeverity::Warning).len()
                + flagged_rules(cs, IssueSeverity::Information).len(),
        ),
    ) + flagged_block(cs, IssueSeverity::Error) + flagged_block(cs, IssueSeverity::Warning) + flagged_block(
        cs,
        IssueSeverity::Information,
    )
}

/// The notes at the end of the report.
pub open spec fn notes_part() -> Seq<char> {
    line(0, rule_of('-', 100)) + line(0, Seq::empty()) + line(0, "NOTES"@) + line(0, rule_of('-', 100)) + line(
        0,
        Seq::empty(),
    ) + line(0, "Rule UID format:"@) + line(0, "  <emanating-entity>:<standard>:x.y.z:rule_set.for_rules.rule_name"@)
        + line(0, Seq::empty()) + line(
        0,
        "Known limitations: none (xsd-schema resolves XSD 1.1 conditional type assignment before the abstract-type check)."@,
    )
}

fn push_addressed_part(out: &mut String, result: &Result)
    ensures
        final(out)@ == old(out)@ + addressed_part(result@.bundle.checkers),
{
    let ghost o0 = out@;
    proof {
        reveal_strlit("=");
        reveal_strlit("-");
        reveal_strlit("");
    }
    let rules = collect_addressed_rules(&result.bundle.checkers);
    push_rule_line(out, "=");
    push_line(out, 0, "");
    push_line(out, 0, "ADDRESSED RULES");
    push_rule_line(out, "-");
    push_line(out, 0, "");
    let mut t = "Addressed rules: ".to_owned();
    push_dec(&mut t, rules.len() as u64);
    push_line(out, 0, t.as_str());
    push_rule_lines(out, &rules, 0);
    push_line(out, 0, "");
    assert(out@ =~= o0 + addressed_part(result@.bundle.checkers));
}

fn push_flagged_block(out: &mut String, rules: &Vec<String>, level: IssueSeverity)
    ensures
        final(out)@ == old(out)@ + line(2, "with "@ + level.spec_name() + ": "@ + dec(rules@.len())) + rule_lines(
            strings_view(rules@),
            2,
        ),
{
    let ghost o0 = out@;
    let mut t = "with ".to_owned();
    t.append(level.name());
    t.append(": ");
    push_dec(&mut t, rules.len() as u64);
    push_line(out, 2, t.as_str());
    push_rule_lines(out, rules, 2);
    assert(out@ =~= o0 + line(2, "with "@ + level.spec_name() + ": "@ + dec(rules@.len())) + rule_lines(
        strings_view(rules@),
        2,
    ));
}

fn push_flagged_part(out: &mut String, result: &Result)
    ensures
        final(out)@ == old(out)@ + flagged_part(result@.bundle.checkers),
{
    let ghost o0 = out@;
    let errors = collect_flagged_rules(&result.bundle.checkers, IssueSeverity::Error);
    let warnings = collect_flagged_rules(&result.bundle.checkers, IssueSeverity::Warning);
    let infos = collect_flagged_rules(&result.bundle.checkers, IssueSeverity::Information);
    let total: u128 = errors.len() as u128 + warnings.len() as u128 + infos.len() as u128;
    let mut t = "Flagged Rules: ".to_owned();
    push_dec_u128(&mut t, total);
    push_line(out, 0, t.as_str());
    push_flagged_block(out, &errors, IssueSeverity::Error);
    push_flagged_block(out, &warnings, IssueSeverity::Warning);
    push_flagged_block(out, &infos, IssueSeverity::Information);
    assert(out@ =~= o0 + flagged_part(result@.bundle.checkers));
}

fn push_notes(out: &mut String)
    ensures
        final(out)@ == old(out)@ + notes_part(),
{
    let ghost o0 = out@;
    proof {
        reveal_strlit("-");
        reveal_strlit("");
    }
    push_rule_line(out, "-");
    push_line(out, 0, "");
    push_line(out, 0, "NOTES");
    push_rule_line(out, "-");
    push_line(out, 0, "");
    push_line(out, 0, "Rule UID format:");
    push_line(out, 0, "  <emanating-entity>:<standard>:x.y.z:rule_set.for_rules.rule_name");
    push_line(out, 0, "");
    push_line(
        out,
        0,
        "Known limitations: none (xsd-schema resolves XSD 1.1 conditional type assignment before the abstract-type check).",
    );
    assert(out@ =~= o0 + notes_part());
}

/// Appends the text report of `result` to `out`: the bundle with its
/// checkers, issues and locations, then the addressed and flagged rules.
#[verifier::rlimit(40)]
pub fn write_text_report(result: &Result, out: &mut String)
    ensures
        final(out)@ == old(out)@ + text_report(result@),
{
    let ghost o0 = out@;
    push_bundle_head(out, result);
    push_bundle_params(out, result);
    push_bundle_checkers(out, result);
    push_addressed_part(out, result);
    push_flagged_part(out, result);
    push_notes(out);
    assert(bundle_text(result@) =~= bundle_head(result@) + bundle_params(result@) + bundle_checkers(result@));
    assert(rules_text(result@.bundle.checkers) =~= addressed_part(result@.bundle.checkers) + flagged_part(
        result@.bundle.checkers,
    ) + notes_part());
    assert(out@ =~= o0 + text_report(result@));
}


pub open spec fn level_rules(is: Seq<IssueView>, level: IssueSeverity) -> Seq<Seq<char>> {
    concat_map(is, |i: IssueView| if i.level == level { seq![i.rule_uid] } else { Seq::<Seq<char>>::empty() })
}

proof fn lemma_level_rules_count(is: Seq<IssueView>)
    ensures
        level_rules(is, IssueSeverity::Error).len() + level_rules(is, IssueSeverity::Warning).len() + level_rules(
            is,
            IssueSeverity::Information,
        ).len() == is.len(),
    decreases is.len(),
{
    if is.len() > 0 {
        lemma_level_rules_count(is.drop_last());
    }
}

/// Every issue is flagged once, under its severity: the report's count of
/// flagged rules is the number of issues.
pub proof fn law_flagged_rules_count_issues(cs: Seq<CheckerView>)
    ensures
        flagged_rules(cs, IssueSeverity::Error).len() + flagged_rules(cs, IssueSeverity::Warning).len()
            + flagged_rules(cs, IssueSeverity::Information).len() == crate::result::sum_issues(cs),
    decreases cs.len(),
{
    if cs.len() > 0 {
        law_flagged_rules_count_issues(cs.drop_last());
        lemma_level_rules_count(cs.last().issues);
        assert(flagged_rules(cs, IssueSeverity::Error) == flagged_rules(cs.drop_last(), IssueSeverity::Error)
            + level_rules(cs.last().issues, IssueSeverity::Error));
        assert(flagged_rules(cs, IssueSeverity::Warning) == flagged_rules(cs.drop_last(), IssueSeverity::Warning)
            + level_rules(cs.last().issues, IssueSeverity::Warning));
        assert(flagged_rules(cs, IssueSeverity::Information) == flagged_rules(
            cs.drop_last(),
            IssueSeverity::Information,
        ) + level_rules(cs.last().issues, IssueSeverity::Information));
    }
}

} // verus!
