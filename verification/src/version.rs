//! Version gating of the checkers and the parsing of rule UIDs.
use vstd::prelude::*;
use vstd::string::StrSliceExecFns;
use vstd::string::StringExecFns;

use crate::text::{all_digits, chars_of, is_ascii_digit, is_white_space, is_white_space_char, trim};

verus! {

/// Index of the first `c` in `s` at or after `k`, or `s.len()` when there is none.
pub open spec fn find_from(s: Seq<char>, c: char, k: int) -> int
    decreases s.len() - k,
{
    if k < 0 || k >= s.len() {
        s.len() as int
    } else if s[k] == c {
        k
    } else {
        find_from(s, c, k + 1)
    }
}

pub proof fn lemma_find_from(s: Seq<char>, c: char, k: int)
    requires
        0 <= k,
    ensures
        k <= find_from(s, c, k) <= s.len() || (k > s.len() && find_from(s, c, k) == s.len()),
        find_from(s, c, k) < s.len() ==> s[find_from(s, c, k)] == c,
        forall|j: int| k <= j < find_from(s, c, k) ==> s[j] != c,
    decreases s.len() - k,
{
    if k < s.len() && s[k] != c {
        lemma_find_from(s, c, k + 1);
    }
}

/// Index of the first `c` in `v` at or after `k`, or `v.len()`.
pub fn find_char_from(v: &Vec<char>, c: char, k: usize) -> (r: usize)
    requires
        k <= v@.len(),
    ensures
        r == find_from(v@, c, k as int),
{
    let mut i = k;
    while i < v.len()
        invariant
            k <= i <= v@.len(),
            find_from(v@, c, k as int) == find_from(v@, c, i as int),
        decreases v@.len() - i,
    {
        if v[i] == c {
            return i;
        }
        i = i + 1;
    }
    i
}

/// A rule UID split into its four colon-separated parts:
/// `emanating_entity:standard:definition_setting:rule_full_name`.
#[derive(Debug, Clone)]
pub struct RuleUid {
    pub emanating_entity: String,
    pub standard: String,
    pub definition_setting: String,
    pub rule_full_name: String,
    pub rule_uid: String,
}

/// A rule UID with fewer than four colon-separated parts.
#[derive(Debug, Clone)]
pub struct RuleUidError {
    pub rule_uid: String,
}

impl RuleUidError {
    pub open spec fn spec_message(&self) -> Seq<char> {
        "Invalid rule uid: "@ + self.rule_uid@
    }

    /// The error text, `Invalid rule uid: <uid>`.
    pub fn message(&self) -> (r: String)
        ensures
            r@ == self.spec_message(),
    {
        let mut s = "Invalid rule uid: ".to_owned();
        s.append(self.rule_uid.as_str());
        s
    }
}

/// Positions of the first three colons of `s` (`s.len()` for a missing one).
pub open spec fn colon1(s: Seq<char>) -> int {
    find_from(s, ':', 0)
}

pub open spec fn colon2(s: Seq<char>) -> int {
    find_from(s, ':', colon1(s) + 1)
}

pub open spec fn colon3(s: Seq<char>) -> int {
    find_from(s, ':', colon2(s) + 1)
}

/// `str::splitn(4, ':')` gives four parts: `s` holds at least three colons.
pub open spec fn has_four_parts(s: Seq<char>) -> bool {
    colon3(s) < s.len()
}

impl RuleUid {
    /// Splits `rule_uid` at its first three colons; fails when it holds fewer.
    pub fn parse(rule_uid: &str) -> (r: Result<RuleUid, RuleUidError>)
        ensures
            r is Ok <==> has_four_parts(rule_uid@),
            r matches Ok(u) ==> {
                let s = rule_uid@;
                &&& u.emanating_entity@ == s.subrange(0, colon1(s))
                &&& u.standard@ == s.subrange(colon1(s) + 1, colon2(s))
                &&& u.definition_setting@ == s.subrange(colon2(s) + 1, colon3(s))
                &&& u.rule_full_name@ == s.subrange(colon3(s) + 1, s.len() as int)
                &&& u.rule_uid@ == s
            },
            r matches Err(e) ==> e.rule_uid@ == rule_uid@,
    {
        let v = chars_of(rule_uid);
        let n = v.len();
        let c1 = find_char_from(&v, ':', 0);
        proof {
            lemma_find_from(v@, ':', 0);
        }
        if c1 >= n {
            proof {
                lemma_find_from(v@, ':', c1 + 1);
                lemma_find_from(v@, ':', n + 1);
            }
            return Err(RuleUidError { rule_uid: rule_uid.to_owned() });
        }
        let c2 = find_char_from(&v, ':', c1 + 1);
        proof {
            lemma_find_from(v@, ':', c1 + 1);
        }
        if c2 >= n {
            proof {
                lemma_find_from(v@, ':', c2 + 1);
            }
            return Err(RuleUidError { rule_uid: rule_uid.to_owned() });
        }
        let c3 = find_char_from(&v, ':', c2 + 1);
        proof {
            lemma_find_from(v@, ':', c2 + 1);
        }
        if c3 >= n {
            return Err(RuleUidError { rule_uid: rule_uid.to_owned() });
        }
        Ok(RuleUid {
            emanating_entity: rule_uid.substring_char(0, c1).to_owned(),
            standard: rule_uid.substring_char(c1 + 1, c2).to_owned(),
            definition_setting: rule_uid.substring_char(c2 + 1, c3).to_owned(),
            rule_full_name: rule_uid.substring_char(c3 + 1, n).to_owned(),
            rule_uid: rule_uid.to_owned(),
        })
    }
}

} // verus!

verus! {

/// The pieces of `s` between occurrences of `sep` (`str::split`).
pub open spec fn split_on(s: Seq<char>, sep: char) -> Seq<Seq<char>>
    decreases s.len(),
{
    if s.len() == 0 {
        seq![Seq::empty()]
    } else {
        let p = split_on(s.drop_last(), sep);
        if s.last() == sep {
            p.push(Seq::empty())
        } else {
            p.update(p.len() - 1, p.last().push(s.last()))
        }
    }
}

pub proof fn lemma_split_on_nonempty(s: Seq<char>, sep: char)
    ensures
        split_on(s, sep).len() >= 1,
    decreases s.len(),
{
    if s.len() > 0 {
        lemma_split_on_nonempty(s.drop_last(), sep);
    }
}

/// Offset of the version number in a clause: after `<`, `>`, `<=` or `>=`.
pub open spec fn clause_number_start(c: Seq<char>) -> int {
    if c.len() > 1 && c[1] == '=' { 2 } else { 1 }
}

/// A clause is valid if it matches `^[<>]=?\d+\.\d+\.\d+$`.
pub open spec fn valid_clause(c: Seq<char>) -> bool {
    &&& c.len() > 0
    &&& (c[0] == '<' || c[0] == '>')
    &&& {
        let parts = split_on(c.subrange(clause_number_start(c), c.len() as int), '.');
        &&& parts.len() == 3
        &&& forall|k: int| 0 <= k < 3 ==> #[trigger] parts[k].len() > 0 && all_digits(parts[k])
    }
}

pub open spec fn pieces_nonempty_but_last(p: Seq<Seq<char>>) -> bool {
    forall|k: int| 0 <= k < p.len() - 1 ==> #[trigger] p[k].len() > 0
}

pub open spec fn pieces_all_digits(p: Seq<Seq<char>>) -> bool {
    forall|k: int| 0 <= k < p.len() ==> all_digits(#[trigger] p[k])
}

proof fn lemma_pieces_after_dot(p: Seq<Seq<char>>)
    requires
        p.len() >= 1,
    ensures
        pieces_nonempty_but_last(p.push(Seq::empty())) == (pieces_nonempty_but_last(p)
            && p.last().len() > 0),
        pieces_all_digits(p.push(Seq::empty())) == pieces_all_digits(p),
{
    let q = p.push(Seq::empty());
    if pieces_nonempty_but_last(p) && p.last().len() > 0 {
        assert forall|k: int| 0 <= k < q.len() - 1 implies #[trigger] q[k].len() > 0 by {
            assert(q[k] == p[k]);
        }
    }
    if pieces_nonempty_but_last(q) {
        assert(q[p.len() - 1] == p.last());
        assert forall|k: int| 0 <= k < p.len() - 1 implies #[trigger] p[k].len() > 0 by {
            assert(q[k] == p[k]);
        }
    }
    if pieces_all_digits(p) {
        assert forall|k: int| 0 <= k < q.len() implies all_digits(#[trigger] q[k]) by {
            if k < p.len() {
                assert(q[k] == p[k]);
            } else {
                assert(q[k] =~= Seq::<char>::empty());
            }
        }
    }
    if pieces_all_digits(q) {
        assert forall|k: int| 0 <= k < p.len() implies all_digits(#[trigger] p[k]) by {
            assert(q[k] == p[k]);
        }
    }
}

proof fn lemma_pieces_after_char(p: Seq<Seq<char>>, ch: char)
    requires
        p.len() >= 1,
    ensures
        pieces_nonempty_but_last(p.update(p.len() - 1, p.last().push(ch)))
            == pieces_nonempty_but_last(p),
        is_ascii_digit(ch) ==> pieces_all_digits(p.update(p.len() - 1, p.last().push(ch)))
            == pieces_all_digits(p),
        !is_ascii_digit(ch) ==> !pieces_all_digits(p.update(p.len() - 1, p.last().push(ch))),
{
    let q = p.update(p.len() - 1, p.last().push(ch));
    assert forall|k: int| 0 <= k < p.len() - 1 implies q[k] == p[k] by {}
    if pieces_nonempty_but_last(p) {
        assert forall|k: int| 0 <= k < q.len() - 1 implies #[trigger] q[k].len() > 0 by {
            assert(q[k] == p[k]);
        }
    }
    if pieces_nonempty_but_last(q) {
        assert forall|k: int| 0 <= k < p.len() - 1 implies #[trigger] p[k].len() > 0 by {
            assert(q[k] == p[k]);
        }
    }
    let last = q[q.len() - 1];
    assert(last == p.last().push(ch));
    if !is_ascii_digit(ch) {
        assert(!is_ascii_digit(last[last.len() - 1]));
        assert(!all_digits(last));
    } else {
        if pieces_all_digits(p) {
            assert forall|k: int| 0 <= k < q.len() implies all_digits(#[trigger] q[k]) by {
                if k < p.len() - 1 {
                    assert(q[k] == p[k]);
                } else {
                    assert(all_digits(p[k]));
                    assert forall|m: int| 0 <= m < q[k].len() implies is_ascii_digit(
                        #[trigger] q[k][m],
                    ) by {
                        if m < p[k].len() {
                            assert(q[k][m] == p[k][m]);
                        }
                    }
                }
            }
        }
        if pieces_all_digits(q) {
            assert forall|k: int| 0 <= k < p.len() implies all_digits(#[trigger] p[k]) by {
                if k < p.len() - 1 {
                    assert(q[k] == p[k]);
                } else {
                    assert(all_digits(q[k]));
                    assert forall|m: int| 0 <= m < p[k].len() implies is_ascii_digit(
                        #[trigger] p[k][m],
                    ) by {
                        assert(q[k][m] == p[k][m]);
                    }
                }
            }
        }
    }
}

/// Whether the characters of a clause match `^[<>]=?\d+\.\d+\.\d+$`.
pub fn clause_is_valid(c: &Vec<char>) -> (r: bool)
    ensures
        r == valid_clause(c@),
{
    let n = c.len();
    if n == 0 {
        return false;
    }
    if c[0] != '<' && c[0] != '>' {
        return false;
    }
    let start: usize = if n > 1 && c[1] == '=' { 2 } else { 1 };
    let ghost rest = c@.subrange(start as int, n as int);
    let mut dots: usize = 0;
    let mut cur_len: usize = 0;
    let mut good = true;
    let mut digits_ok = true;
    let mut j = start;
    proof {
        assert(rest.take(0) =~= Seq::<char>::empty());
        assert(split_on(rest.take(0), '.')[0] =~= Seq::<char>::empty());
    }
    while j < n
        invariant
            start <= j <= n,
            n == c@.len(),
            rest == c@.subrange(start as int, n as int),
            dots + 1 == split_on(rest.take(j - start), '.').len(),
            cur_len == split_on(rest.take(j - start), '.').last().len(),
            good == pieces_nonempty_but_last(split_on(rest.take(j - start), '.')),
            digits_ok == pieces_all_digits(split_on(rest.take(j - start), '.')),
            dots <= j - start,
            cur_len <= j - start,
        decreases n - j,
    {
        let ghost pre = rest.take(j - start);
        let ghost next = rest.take(j - start + 1);
        proof {
            assert(next.drop_last() =~= pre);
            assert(next.last() == c@[j as int]);
            lemma_split_on_nonempty(pre, '.');
        }
        let ch = c[j];
        let ghost p = split_on(pre, '.');
        if ch == '.' {
            proof {
                lemma_pieces_after_dot(p);
            }
            good = good && cur_len > 0;
            dots = dots + 1;
            cur_len = 0;
        } else {
            proof {
                lemma_pieces_after_char(p, ch);
            }
            if !('0' <= ch && ch <= '9') {
                digits_ok = false;
            }
            cur_len = cur_len + 1;
        }
        j = j + 1;
    }
    assert(rest.take(n - start) =~= rest);
    proof {
        lemma_split_on_nonempty(rest, '.');
    }
    let r = dots == 2 && good && cur_len > 0 && digits_ok;
    proof {
        let parts = split_on(rest, '.');
        if r {
            assert forall|k: int| 0 <= k < 3 implies #[trigger] parts[k].len() > 0 && all_digits(
                parts[k],
            ) by {}
        }
        if valid_clause(c@) {
            assert(parts[0].len() > 0 && all_digits(parts[0]));
            assert(parts[1].len() > 0 && all_digits(parts[1]));
            assert(parts[2].len() > 0 && all_digits(parts[2]));
        }
    }
    r
}

/// `is_valid_clause` over a string.
pub fn is_valid_clause(clause: &str) -> (r: bool)
    ensures
        r == valid_clause(clause@),
{
    let v = chars_of(clause);
    clause_is_valid(&v)
}

} // verus!

verus! {

/// One pass over an applicable-version expression: the clauses completed so
/// far and the clause being read, white space dropped.
pub open spec fn clause_scan(s: Seq<char>) -> (Seq<Seq<char>>, Seq<char>)
    decreases s.len(),
{
    if s.len() == 0 {
        (Seq::empty(), Seq::empty())
    } else {
        let (d, c) = clause_scan(s.drop_last());
        let ch = s.last();
        if ch == ',' {
            (if c.len() > 0 { d.push(c) } else { d }, Seq::empty())
        } else if is_white_space(ch) {
            (d, c)
        } else {
            (d, c.push(ch))
        }
    }
}

/// The comma-separated clauses of an applicable-version expression, each
/// without white space, empty ones dropped.
pub open spec fn version_clauses(s: Seq<char>) -> Seq<Seq<char>> {
    let (d, c) = clause_scan(s);
    if c.len() > 0 { d.push(c) } else { d }
}

pub open spec fn vec_views(v: Seq<Vec<char>>) -> Seq<Seq<char>> {
    v.map_values(|x: Vec<char>| x@)
}

/// Splits a comma-separated version expression into clauses, dropping white
/// space and empty clauses.
pub fn get_version_clauses(applicable_versions: &str) -> (r: Vec<Vec<char>>)
    ensures
        vec_views(r@) == version_clauses(applicable_versions@),
{
    let s = chars_of(applicable_versions);
    let n = s.len();
    let mut done: Vec<Vec<char>> = Vec::new();
    let mut cur: Vec<char> = Vec::new();
    let mut i: usize = 0;
    assert(s@.take(0) =~= Seq::<char>::empty());
    assert(vec_views(done@) =~= Seq::<Seq<char>>::empty());
    while i < n
        invariant
            i <= n,
            n == s@.len(),
            vec_views(done@) == clause_scan(s@.take(i as int)).0,
            cur@ == clause_scan(s@.take(i as int)).1,
        decreases n - i,
    {
        assert(s@.take(i + 1).drop_last() =~= s@.take(i as int));
        let ch = s[i];
        if ch == ',' {
            if cur.len() > 0 {
                let ghost d0 = done@;
                done.push(cur);
                assert(vec_views(done@) =~= vec_views(d0).push(clause_scan(s@.take(i as int)).1));
            }
            cur = Vec::new();
        } else if is_white_space_char(ch) {
        } else {
            cur.push(ch);
        }
        i = i + 1;
    }
    assert(s@.take(n as int) =~= s@);
    if cur.len() > 0 {
        let ghost d0 = done@;
        done.push(cur);
        assert(vec_views(done@) =~= vec_views(d0).push(clause_scan(s@).1));
    }
    done
}

/// A clause bounds from below when it starts with `>`.
pub open spec fn lower_bound_clause(c: Seq<char>) -> bool {
    c.len() > 0 && c[0] == '>'
}

pub fn is_lower_bound(expression: &Vec<char>) -> (r: bool)
    ensures
        r == lower_bound_clause(expression@),
{
    expression.len() > 0 && expression[0] == '>'
}

/// Whether some clause of the expression bounds from below.
pub open spec fn has_lower_bound_spec(s: Seq<char>) -> bool {
    exists|k: int|
        0 <= k < version_clauses(s).len() && lower_bound_clause(#[trigger] version_clauses(s)[k])
}

/// Whether an applicable-version expression is empty or made of valid clauses.
pub open spec fn valid_version_expression(s: Seq<char>) -> bool {
    let cs = version_clauses(s);
    if cs.len() == 0 {
        trim(s).len() == 0
    } else {
        forall|k: int| 0 <= k < cs.len() ==> valid_clause(#[trigger] cs[k])
    }
}

/// True if some clause of `applicable_versions` starts with `>`.
pub fn has_lower_bound(applicable_versions: &str) -> (r: bool)
    ensures
        r == has_lower_bound_spec(applicable_versions@),
{
    let cs = get_version_clauses(applicable_versions);
    let n = cs.len();
    let mut i: usize = 0;
    while i < n
        invariant
            i <= n,
            n == cs@.len(),
            vec_views(cs@) == version_clauses(applicable_versions@),
            forall|k: int| 0 <= k < i ==> !lower_bound_clause(#[trigger] version_clauses(applicable_versions@)[k]),
        decreases n - i,
    {
        assert(cs@[i as int]@ == version_clauses(applicable_versions@)[i as int]);
        if is_lower_bound(&cs[i]) {
            return true;
        }
        i = i + 1;
    }
    false
}

/// True if the expression has no clause and no text, or all its clauses are valid.
pub fn is_valid_version_expression(version_expression: &str) -> (r: bool)
    ensures
        r == valid_version_expression(version_expression@),
{
    let cs = get_version_clauses(version_expression);
    let n = cs.len();
    if n == 0 {
        let v = chars_of(version_expression);
        let t = crate::text::trim_chars(&v);
        return t.len() == 0;
    }
    let mut i: usize = 0;
    while i < n
        invariant
            i <= n,
            n == cs@.len(),
            vec_views(cs@) == version_clauses(version_expression@),
            forall|k: int| 0 <= k < i ==> valid_clause(#[trigger] version_clauses(version_expression@)[k]),
        decreases n - i,
    {
        assert(cs@[i as int]@ == version_clauses(version_expression@)[i as int]);
        if !clause_is_valid(&cs[i]) {
            return false;
        }
        i = i + 1;
    }
    true
}

} // verus!

verus! {

/// Whether `semver::Version::parse` accepts the text.
pub uninterp spec fn semver_version_parses(text: Seq<char>) -> bool;

/// Whether `semver::VersionReq::parse` accepts the text.
pub uninterp spec fn semver_req_parses(text: Seq<char>) -> bool;

/// What `semver::VersionReq::matches` answers for the requirement and the
/// version parsed from the two texts.
pub uninterp spec fn semver_req_matches(req: Seq<char>, version: Seq<char>) -> bool;

/// `semver::Version::parse(version)`: whether it succeeds, as named by
/// `semver_version_parses`.
#[verifier::external_body]
fn version_parses(version: &str) -> (r: bool)
    ensures
        r == semver_version_parses(version@),
{
    semver::Version::parse(version).is_ok()
}

/// `semver::VersionReq::parse` on the text of the clause: whether it
/// succeeds, as named by `semver_req_parses`.
#[verifier::external_body]
fn requirement_parses(req: &Vec<char>) -> (r: bool)
    ensures
        r == semver_req_parses(req@),
{
    let text: String = req.iter().collect();
    semver::VersionReq::parse(&text).is_ok()
}

/// `semver::VersionReq::matches` on the requirement and the version parsed
/// from the two texts, both of which parse; the answer is named by
/// `semver_req_matches`.
#[verifier::external_body]
fn requirement_matches(req: &Vec<char>, version: &str) -> (r: bool)
    requires
        semver_req_parses(req@),
        semver_version_parses(version@),
    ensures
        r == semver_req_matches(req@, version@),
{
    let text: String = req.iter().collect();
    match (semver::VersionReq::parse(&text), semver::Version::parse(version)) {
        (Ok(q), Ok(v)) => q.matches(&v),
        _ => false,
    }
}

/// Whether a clause admits the version: it is valid, semver reads it, and the
/// version meets it.
pub open spec fn clause_admits(clause: Seq<char>, version: Seq<char>) -> bool {
    valid_clause(clause) && semver_req_parses(clause) && semver_req_matches(clause, version)
}

/// A version matches an applicable-version expression when semver reads the
/// version and every clause of the expression admits it.
pub open spec fn matches_spec(version: Seq<char>, applicable_versions: Seq<char>) -> bool {
    &&& semver_version_parses(version)
    &&& forall|k: int|
        0 <= k < version_clauses(applicable_versions).len() ==> clause_admits(
            #[trigger] version_clauses(applicable_versions)[k],
            version,
        )
}

/// Matches a version against a comma-separated applicable-version expression.
/// All clauses must match (logical AND). Invalid clauses force a mismatch.
pub fn matches(version: &str, applicable_versions: &str) -> (r: bool)
    ensures
        r == matches_spec(version@, applicable_versions@),
{
    if !version_parses(version) {
        return false;
    }
    let cs = get_version_clauses(applicable_versions);
    let n = cs.len();
    let mut i: usize = 0;
    while i < n
        invariant
            i <= n,
            n == cs@.len(),
            semver_version_parses(version@),
            vec_views(cs@) == version_clauses(applicable_versions@),
            forall|k: int|
                0 <= k < i ==> clause_admits(#[trigger] version_clauses(applicable_versions@)[k], version@),
        decreases n - i,
    {
        assert(cs@[i as int]@ == version_clauses(applicable_versions@)[i as int]);
        if !clause_is_valid(&cs[i]) {
            return false;
        }
        if !requirement_parses(&cs[i]) {
            return false;
        }
        if !requirement_matches(&cs[i], version) {
            return false;
        }
        i = i + 1;
    }
    true
}

} // verus!

verus! {

proof fn lemma_clause_scan_concat(p: Seq<char>, b: Seq<char>)
    requires
        clause_scan(p).1.len() == 0,
    ensures
        clause_scan(p + b) == (clause_scan(p).0 + clause_scan(b).0, clause_scan(b).1),
    decreases b.len(),
{
    if b.len() == 0 {
        assert(p + b =~= p);
        assert(clause_scan(p).0 + clause_scan(b).0 =~= clause_scan(p).0);
    } else {
        let b1 = b.drop_last();
        assert((p + b).drop_last() =~= p + b1);
        assert((p + b).last() == b.last());
        lemma_clause_scan_concat(p, b1);
        let d = clause_scan(p).0;
        let (d1, c1) = clause_scan(b1);
        assert((d + d1).push(c1) =~= d + d1.push(c1));
    }
}

proof fn lemma_version_clauses_concat(a: Seq<char>, b: Seq<char>)
    ensures
        version_clauses(a + ","@ + b) == version_clauses(a) + version_clauses(b),
{
    reveal_strlit(",");
    let x = a + ","@;
    assert(x.drop_last() =~= a);
    assert(clause_scan(x).0 == version_clauses(a));
    lemma_clause_scan_concat(x, b);
    let (d, c) = clause_scan(b);
    assert((version_clauses(a) + d).push(c) =~= version_clauses(a) + d.push(c));
}

/// Joining two applicable-version expressions with a comma asks for both:
/// a version matches the joined expression exactly when it matches each.
pub proof fn law_matches_conjunction(version: Seq<char>, a: Seq<char>, b: Seq<char>)
    ensures
        matches_spec(version, a + ","@ + b) == (matches_spec(version, a) && matches_spec(
            version,
            b,
        )),
{
    lemma_version_clauses_concat(a, b);
    let ca = version_clauses(a);
    let cb = version_clauses(b);
    let cab = version_clauses(a + ","@ + b);
    if matches_spec(version, a + ","@ + b) {
        assert forall|k: int| 0 <= k < ca.len() implies clause_admits(#[trigger] ca[k], version) by {
            assert(cab[k] == ca[k]);
        }
        assert forall|k: int| 0 <= k < cb.len() implies clause_admits(#[trigger] cb[k], version) by {
            assert(cab[ca.len() + k] == cb[k]);
        }
    }
    if matches_spec(version, a) && matches_spec(version, b) {
        assert forall|k: int| 0 <= k < cab.len() implies clause_admits(#[trigger] cab[k], version) by {
            if k < ca.len() {
                assert(cab[k] == ca[k]);
            } else {
                assert(cab[k] == cb[k - ca.len()]);
            }
        }
    }
}

/// Joining two applicable-version expressions with a comma bounds from below
/// exactly when one of them does.
pub proof fn law_lower_bound_of_conjunction(a: Seq<char>, b: Seq<char>)
    ensures
        has_lower_bound_spec(a + ","@ + b) == (has_lower_bound_spec(a) || has_lower_bound_spec(b)),
{
    lemma_version_clauses_concat(a, b);
    let ca = version_clauses(a);
    let cb = version_clauses(b);
    let cab = version_clauses(a + ","@ + b);
    if has_lower_bound_spec(a + ","@ + b) {
        let k = choose|k: int| 0 <= k < cab.len() && lower_bound_clause(#[trigger] cab[k]);
        if k < ca.len() {
            assert(cab[k] == ca[k]);
        } else {
            assert(cab[k] == cb[k - ca.len()]);
        }
    }
    if has_lower_bound_spec(a) {
        let k = choose|k: int| 0 <= k < ca.len() && lower_bound_clause(#[trigger] ca[k]);
        assert(cab[k] == ca[k]);
    }
    if has_lower_bound_spec(b) {
        let k = choose|k: int| 0 <= k < cb.len() && lower_bound_clause(#[trigger] cb[k]);
        assert(cab[ca.len() + k] == cb[k]);
    }
}

/// A clause that is not of the form `[<>]=?x.y.z` makes every version mismatch.
pub proof fn law_invalid_clause_forces_mismatch(version: Seq<char>, applicable_versions: Seq<char>, k: int)
    requires
        0 <= k < version_clauses(applicable_versions).len(),
        !valid_clause(version_clauses(applicable_versions)[k]),
    ensures
        !matches_spec(version, applicable_versions),
{
}

/// An expression without clauses lets every version that semver reads match.
pub proof fn law_empty_expression_matches(version: Seq<char>, applicable_versions: Seq<char>)
    requires
        version_clauses(applicable_versions).len() == 0,
    ensures
        matches_spec(version, applicable_versions) == semver_version_parses(version),
{
}

/// The four parts of a parsed rule UID, joined by colons, give back the UID.
pub proof fn law_rule_uid_parts_rejoin(s: Seq<char>)
    requires
        has_four_parts(s),
    ensures
        s.subrange(0, colon1(s)) + ":"@ + s.subrange(colon1(s) + 1, colon2(s)) + ":"@
            + s.subrange(colon2(s) + 1, colon3(s)) + ":"@ + s.subrange(
            colon3(s) + 1,
            s.len() as int,
        ) == s,
{
    reveal_strlit(":");
    lemma_find_from(s, ':', 0);
    lemma_find_from(s, ':', colon1(s) + 1);
    lemma_find_from(s, ':', colon2(s) + 1);
    assert(s.subrange(0, colon1(s)) + ":"@ + s.subrange(colon1(s) + 1, colon2(s)) + ":"@
        + s.subrange(colon2(s) + 1, colon3(s)) + ":"@ + s.subrange(colon3(s) + 1, s.len() as int)
        =~= s);
}


/// The first `c` at or after `k` comes no later than any `c` at or after `k`.
proof fn lemma_find_from_first(s: Seq<char>, c: char, k: int, p: int)
    requires
        0 <= k <= p < s.len(),
        s[p] == c,
    ensures
        find_from(s, c, k) <= p,
{
    lemma_find_from(s, c, k);
}

/// A rule UID parses (`RuleUid::parse` succeeds exactly when
/// `has_four_parts` holds) exactly when it holds at least three colons; its
/// four parts then join back, colon-separated, into the UID, and none of the
/// first three parts holds a colon.
pub proof fn law_rule_uid_parse(s: Seq<char>)
    ensures
        has_four_parts(s) <==> exists|i: int, j: int, k: int|
            #![trigger s[i], s[j], s[k]]
            0 <= i < j < k < s.len() && s[i] == ':' && s[j] == ':' && s[k] == ':',
        has_four_parts(s) ==> {
            &&& s.subrange(0, colon1(s)) + ":"@ + s.subrange(colon1(s) + 1, colon2(s)) + ":"@
                + s.subrange(colon2(s) + 1, colon3(s)) + ":"@ + s.subrange(colon3(s) + 1, s.len() as int) == s
            &&& !s.subrange(0, colon1(s)).contains(':')
            &&& !s.subrange(colon1(s) + 1, colon2(s)).contains(':')
            &&& !s.subrange(colon2(s) + 1, colon3(s)).contains(':')
        },
{
    lemma_find_from(s, ':', 0);
    lemma_find_from(s, ':', colon1(s) + 1);
    lemma_find_from(s, ':', colon2(s) + 1);
    if has_four_parts(s) {
        law_rule_uid_parts_rejoin(s);
        let (a, b, c) = (colon1(s), colon2(s), colon3(s));
        assert(s[a] == ':' && s[b] == ':' && s[c] == ':');
        assert(0 <= a < b < c < s.len());
        assert forall|q: int| 0 <= q < s.subrange(0, a).len() implies #[trigger] s.subrange(0, a)[q] != ':' by {
            assert(s.subrange(0, a)[q] == s[q]);
        }
        assert forall|q: int| 0 <= q < s.subrange(a + 1, b).len() implies #[trigger] s.subrange(a + 1, b)[q] != ':' by {
            assert(s.subrange(a + 1, b)[q] == s[a + 1 + q]);
        }
        assert forall|q: int| 0 <= q < s.subrange(b + 1, c).len() implies #[trigger] s.subrange(b + 1, c)[q] != ':' by {
            assert(s.subrange(b + 1, c)[q] == s[b + 1 + q]);
        }
    }
    if exists|i: int, j: int, k: int|
        #![trigger s[i], s[j], s[k]]
        0 <= i < j < k < s.len() && s[i] == ':' && s[j] == ':' && s[k] == ':' {
        let (i, j, k) = choose|i: int, j: int, k: int|
            #![trigger s[i], s[j], s[k]]
            0 <= i < j < k < s.len() && s[i] == ':' && s[j] == ':' && s[k] == ':';
        lemma_find_from_first(s, ':', 0, i);
        lemma_find_from_first(s, ':', colon1(s) + 1, j);
        lemma_find_from_first(s, ':', colon2(s) + 1, k);
    }
}

} // verus!
