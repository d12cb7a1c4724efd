//! Text helpers shared by the checkers and the reports: string equality,
//! decimal rendering of integers and integer parsing with surrounding white
//! space, as the reports and the OpenDRIVE attributes need them.
use vstd::prelude::*;
use vstd::string::StringExecFns;

verus! {

/// String equality: true exactly when both strings hold the same
/// characters.
pub(crate) fn str_eq(a: &str, b: &str) -> (r: bool)
    ensures
        r == (a@ == b@),
{
    let va = chars_of(a);
    let vb = chars_of(b);
    if va.len() != vb.len() {
        return false;
    }
    let mut i: usize = 0;
    while i < va.len()
        invariant
            va@ == a@,
            vb@ == b@,
            va@.len() == vb@.len(),
            i <= va@.len(),
            forall|k: int| 0 <= k < i ==> va@[k] == vb@[k],
        decreases va@.len() - i,
    {
        if va[i] != vb[i] {
            return false;
        }
        i = i + 1;
    }
    assert(va@ =~= vb@);
    true
}

/// The character of a decimal digit.
pub open spec fn digit_char(d: nat) -> char {
    if d == 0 { '0' }
    else if d == 1 { '1' }
    else if d == 2 { '2' }
    else if d == 3 { '3' }
    else if d == 4 { '4' }
    else if d == 5 { '5' }
    else if d == 6 { '6' }
    else if d == 7 { '7' }
    else if d == 8 { '8' }
    else { '9' }
}

/// The shortest decimal representation of `n`, without sign or padding.
pub open spec fn dec(n: nat) -> Seq<char>
    decreases n,
{
    if n < 10 {
        seq![digit_char(n)]
    } else {
        dec(n / 10).push(digit_char(n % 10))
    }
}

/// The decimal representation of a signed integer: a leading `-` for
/// negative values.
pub open spec fn dec_int(n: int) -> Seq<char> {
    if n < 0 { seq!['-'] + dec((-n) as nat) } else { dec(n as nat) }
}

fn digit_str(d: u64) -> (r: &'static str)
    requires
        d < 10,
    ensures
        r@ == seq![digit_char(d as nat)],
{
    proof {
        reveal_strlit("0");
        reveal_strlit("1");
        reveal_strlit("2");
        reveal_strlit("3");
        reveal_strlit("4");
        reveal_strlit("5");
        reveal_strlit("6");
        reveal_strlit("7");
        reveal_strlit("8");
        reveal_strlit("9");
    }
    if d == 0 { "0" }
    else if d == 1 { "1" }
    else if d == 2 { "2" }
    else if d == 3 { "3" }
    else if d == 4 { "4" }
    else if d == 5 { "5" }
    else if d == 6 { "6" }
    else if d == 7 { "7" }
    else if d == 8 { "8" }
    else { "9" }
}

/// Appends the decimal representation of `n` to `s`.
pub fn push_dec(s: &mut String, n: u64)
    ensures
        final(s)@ == old(s)@ + dec(n as nat),
    decreases n,
{
    if n < 10 {
        s.append(digit_str(n));
    } else {
        push_dec(s, n / 10);
        s.append(digit_str(n % 10));
    }
}

/// Appends the decimal representation of `n` to `s`.
pub fn push_dec_u128(s: &mut String, n: u128)
    ensures
        final(s)@ == old(s)@ + dec(n as nat),
    decreases n,
{
    if n < 10 {
        s.append(digit_str(n as u64));
    } else {
        push_dec_u128(s, n / 10);
        s.append(digit_str((n % 10) as u64));
    }
}

/// Appends the decimal representation of a signed integer to `s`.
pub fn push_dec_i64(s: &mut String, n: i64)
    ensures
        final(s)@ == old(s)@ + dec_int(n as int),
{
    if n < 0 {
        proof { reveal_strlit("-"); }
        s.append("-");
        let m: u64 = if n == i64::MIN { 9223372036854775808u64 } else { (-n) as u64 };
        assert(m as int == -(n as int));
        push_dec(s, m);
        assert(s@ == old(s)@ + (seq!['-'] + dec(m as nat)));
    } else {
        push_dec(s, n as u64);
    }
}

/// The decimal representation of `n`.
pub fn u64_to_string(n: u64) -> (r: String)
    ensures
        r@ == dec(n as nat),
{
    let mut s = String::new();
    push_dec(&mut s, n);
    assert(s@ =~= dec(n as nat));
    s
}

} // verus!

verus! {

broadcast use vstd::string::group_string_axioms;

/// The characters of `s`, in order.
pub fn chars_of(s: &str) -> (r: Vec<char>)
    ensures
        r@ == s@,
{
    let mut v: Vec<char> = Vec::new();
    for c in it: s.chars()
        invariant
            v@ == it.seq().take(it.index()),
            it.seq() == s@,
    {
        v.push(c);
    }
    v
}

} // verus!

verus! {

/// `char::is_whitespace`: the characters of Unicode's White_Space property.
pub open spec fn is_white_space(c: char) -> bool {
    ||| c == '\t' || c == '\n' || c == '\u{0B}' || c == '\u{0C}' || c == '\r'
    ||| c == ' ' || c == '\u{85}' || c == '\u{A0}' || c == '\u{1680}'
    ||| ('\u{2000}' <= c && c <= '\u{200A}')
    ||| c == '\u{2028}' || c == '\u{2029}' || c == '\u{202F}' || c == '\u{205F}'
    ||| c == '\u{3000}'
}

pub fn is_white_space_char(c: char) -> (r: bool)
    ensures
        r == is_white_space(c),
{
    c == '\t' || c == '\n' || c == '\u{0B}' || c == '\u{0C}' || c == '\r' || c == ' '
        || c == '\u{85}' || c == '\u{A0}' || c == '\u{1680}' || ('\u{2000}' <= c && c
        <= '\u{200A}') || c == '\u{2028}' || c == '\u{2029}' || c == '\u{202F}' || c
        == '\u{205F}' || c == '\u{3000}'
}

/// Index of the first character at or after `k` that is not white space.
pub open spec fn first_non_ws_from(s: Seq<char>, k: int) -> int
    decreases s.len() - k,
{
    if k < 0 || k >= s.len() {
        s.len() as int
    } else if is_white_space(s[k]) {
        first_non_ws_from(s, k + 1)
    } else {
        k
    }
}

/// One past the last character before `k` that is not white space (0 when none).
pub open spec fn last_non_ws_before(s: Seq<char>, k: int) -> int
    decreases k,
{
    if k <= 0 || k > s.len() {
        0
    } else if is_white_space(s[k - 1]) {
        last_non_ws_before(s, k - 1)
    } else {
        k
    }
}

/// `str::trim`: `s` without leading and trailing white space.
pub open spec fn trim(s: Seq<char>) -> Seq<char> {
    let lo = first_non_ws_from(s, 0);
    let hi = last_non_ws_before(s, s.len() as int);
    if lo >= hi { Seq::empty() } else { s.subrange(lo, hi) }
}

pub proof fn lemma_first_non_ws_bounds(s: Seq<char>, k: int)
    requires
        0 <= k <= s.len(),
    ensures
        k <= first_non_ws_from(s, k) <= s.len(),
    decreases s.len() - k,
{
    if k < s.len() && is_white_space(s[k]) {
        lemma_first_non_ws_bounds(s, k + 1);
    }
}

pub proof fn lemma_last_non_ws_bounds(s: Seq<char>, k: int)
    requires
        0 <= k <= s.len(),
    ensures
        0 <= last_non_ws_before(s, k) <= k,
    decreases k,
{
    if k > 0 && is_white_space(s[k - 1]) {
        lemma_last_non_ws_bounds(s, k - 1);
    }
}

/// The characters of `s` with leading and trailing white space removed.
pub fn trim_chars(s: &Vec<char>) -> (r: Vec<char>)
    ensures
        r@ == trim(s@),
{
    let n = s.len();
    let mut lo: usize = 0;
    while lo < n && is_white_space_char(s[lo])
        invariant
            lo <= n,
            n == s@.len(),
            first_non_ws_from(s@, lo as int) == first_non_ws_from(s@, 0),
        decreases n - lo,
    {
        lo = lo + 1;
    }
    let mut hi: usize = n;
    while hi > 0 && is_white_space_char(s[hi - 1])
        invariant
            hi <= n,
            n == s@.len(),
            last_non_ws_before(s@, hi as int) == last_non_ws_before(s@, n as int),
        decreases hi,
    {
        hi = hi - 1;
    }
    let mut r: Vec<char> = Vec::new();
    if lo < hi {
        let mut i = lo;
        while i < hi
            invariant
                lo <= i <= hi,
                hi <= n,
                n == s@.len(),
                r@ == s@.subrange(lo as int, i as int),
            decreases hi - i,
        {
            r.push(s[i]);
            i = i + 1;
        }
    }
    assert(r@ =~= trim(s@));
    r
}

} // verus!

verus! {

pub open spec fn is_ascii_digit(c: char) -> bool {
    '0' <= c && c <= '9'
}

pub open spec fn all_digits(s: Seq<char>) -> bool {
    forall|i: int| 0 <= i < s.len() ==> is_ascii_digit(#[trigger] s[i])
}

/// The value of a sequence of decimal digits, most significant first.
pub open spec fn digits_value(s: Seq<char>) -> nat
    decreases s.len(),
{
    if s.len() == 0 {
        0
    } else {
        digits_value(s.drop_last()) * 10 + ((s.last() as int - '0' as int) as nat)
    }
}

/// `<i64 as FromStr>::from_str`: an optional `+` or `-` sign followed by at
/// least one ASCII digit, whose value must fit in an `i64`.
pub open spec fn parse_i64_spec(s: Seq<char>) -> Option<i64> {
    let neg = s.len() > 0 && s[0] == '-';
    let signed = s.len() > 0 && (s[0] == '-' || s[0] == '+');
    let body = if signed { s.drop_first() } else { s };
    if body.len() == 0 || !all_digits(body) {
        None
    } else if neg {
        if digits_value(body) <= 9223372036854775808 {
            Some((-(digits_value(body) as int)) as i64)
        } else {
            None
        }
    } else if digits_value(body) <= 9223372036854775807 {
        Some(digits_value(body) as i64)
    } else {
        None
    }
}

/// `s.trim().parse::<i64>().ok()`.
pub open spec fn to_int_spec(s: Seq<char>) -> Option<i64> {
    parse_i64_spec(trim(s))
}

proof fn lemma_digits_value_prefix(p: Seq<char>, q: Seq<char>)
    requires
        p.len() <= q.len(),
        p == q.subrange(0, p.len() as int),
        all_digits(q),
    ensures
        digits_value(p) <= digits_value(q),
    decreases q.len(),
{
    if p.len() < q.len() {
        let q1 = q.drop_last();
        assert(p == q1.subrange(0, p.len() as int));
        assert(all_digits(q1)) by {
            assert forall|i: int| 0 <= i < q1.len() implies is_ascii_digit(#[trigger] q1[i]) by {
                assert(q1[i] == q[i]);
            }
        }
        lemma_digits_value_prefix(p, q1);
        assert(is_ascii_digit(q[q.len() - 1]));
    } else {
        assert(p =~= q);
    }
}

/// Parses a decimal `i64` the way `str::parse::<i64>` does.
pub fn parse_i64(s: &Vec<char>) -> (r: Option<i64>)
    ensures
        r == parse_i64_spec(s@),
{
    let n = s.len();
    let mut start: usize = 0;
    let mut neg = false;
    if n > 0 && s[0] == '-' {
        neg = true;
        start = 1;
    } else if n > 0 && s[0] == '+' {
        start = 1;
    }
    let ghost body = s@.subrange(start as int, n as int);
    assert(body =~= if n > 0 && (s@[0] == '-' || s@[0] == '+') { s@.drop_first() } else { s@ });
    if start >= n {
        return None;
    }
    let mut acc: u128 = 0;
    let mut i = start;
    while i < n
        invariant
            start <= i <= n,
            n == s@.len(),
            body == s@.subrange(start as int, n as int),
            body == (if n > 0 && (s@[0] == '-' || s@[0] == '+') { s@.drop_first() } else { s@ }),
            neg == (n > 0 && s@[0] == '-'),
            acc as nat == digits_value(s@.subrange(start as int, i as int)),
            acc <= 9223372036854775808,
            all_digits(s@.subrange(start as int, i as int)),
        decreases n - i,
    {
        let c = s[i];
        if !('0' <= c && c <= '9') {
            assert(!is_ascii_digit(body[i - start]));
            assert(!all_digits(body));
            return None;
        }
        let d = (c as u32 - '0' as u32) as u128;
        let ghost pre = s@.subrange(start as int, i as int);
        let ghost next = s@.subrange(start as int, i + 1);
        assert(next.drop_last() =~= pre);
        assert(all_digits(next)) by {
            assert forall|k: int| 0 <= k < next.len() implies is_ascii_digit(#[trigger] next[k]) by {
                if k < pre.len() {
                    assert(next[k] == pre[k]);
                }
            }
        }
        acc = acc * 10 + d;
        if acc > 9223372036854775808 {
            proof {
                if all_digits(body) {
                    assert(next =~= body.subrange(0, next.len() as int));
                    lemma_digits_value_prefix(next, body);
                }
            }
            return None;
        }
        i = i + 1;
    }
    assert(s@.subrange(start as int, n as int) == body);
    if neg {
        if acc == 9223372036854775808 {
            Some(i64::MIN)
        } else {
            Some(-(acc as i64))
        }
    } else if acc <= 9223372036854775807 {
        Some(acc as i64)
    } else {
        None
    }
}

} // verus!

verus! {

/// `<uN as FromStr>::from_str` for an unsigned type whose largest value is
/// `max`: an optional `+` followed by at least one ASCII digit, the value at
/// most `max`.
pub open spec fn parse_unsigned_spec(s: Seq<char>, max: nat) -> Option<nat> {
    let body = if s.len() > 0 && s[0] == '+' { s.drop_first() } else { s };
    if body.len() > 0 && all_digits(body) && digits_value(body) <= max {
        Some(digits_value(body))
    } else {
        None
    }
}

/// Parses a decimal unsigned number of at most `max`, the way
/// `str::parse` does for the unsigned type whose largest value is `max`.
pub fn parse_unsigned(s: &Vec<char>, max: u64) -> (r: Option<u64>)
    ensures
        match parse_unsigned_spec(s@, max as nat) {
            Some(v) => r == Some(v as u64),
            None => r is None,
        },
{
    let n = s.len();
    let start: usize = if n > 0 && s[0] == '+' { 1 } else { 0 };
    let ghost body = s@.subrange(start as int, n as int);
    assert(body =~= if n > 0 && s@[0] == '+' { s@.drop_first() } else { s@ });
    if start >= n {
        return None;
    }
    let mut acc: u128 = 0;
    let mut i = start;
    while i < n
        invariant
            start <= i <= n,
            n == s@.len(),
            body == s@.subrange(start as int, n as int),
            body == (if n > 0 && s@[0] == '+' { s@.drop_first() } else { s@ }),
            acc as nat == digits_value(s@.subrange(start as int, i as int)),
            acc <= max,
            all_digits(s@.subrange(start as int, i as int)),
        decreases n - i,
    {
        let c = s[i];
        if !('0' <= c && c <= '9') {
            assert(!is_ascii_digit(body[i - start]));
            return None;
        }
        let d = (c as u32 - '0' as u32) as u128;
        let ghost pre = s@.subrange(start as int, i as int);
        let ghost next = s@.subrange(start as int, i + 1);
        assert(next.drop_last() =~= pre);
        assert(all_digits(next)) by {
            assert forall|k: int| 0 <= k < next.len() implies is_ascii_digit(#[trigger] next[k]) by {
                if k < pre.len() {
                    assert(next[k] == pre[k]);
                }
            }
        }
        acc = acc * 10 + d;
        if acc > max as u128 {
            proof {
                if all_digits(body) {
                    assert(next =~= body.subrange(0, next.len() as int));
                    lemma_digits_value_prefix(next, body);
                }
            }
            return None;
        }
        i = i + 1;
    }
    Some(acc as u64)
}

/// The characters of `v` from `lo` up to `hi`.
pub fn copy_range(v: &Vec<char>, lo: usize, hi: usize) -> (r: Vec<char>)
    requires
        lo <= hi <= v@.len(),
    ensures
        r@ == v@.subrange(lo as int, hi as int),
{
    let mut r: Vec<char> = Vec::new();
    let mut i = lo;
    while i < hi
        invariant
            lo <= i <= hi,
            hi <= v@.len(),
            r@ == v@.subrange(lo as int, i as int),
        decreases hi - i,
    {
        r.push(v[i]);
        i = i + 1;
    }
    r
}


/// The results of `f` on each element of `s`, concatenated in order.
pub open spec fn concat_map<A, B>(s: Seq<A>, f: spec_fn(A) -> Seq<B>) -> Seq<B>
    decreases s.len(),
{
    if s.len() == 0 {
        Seq::empty()
    } else {
        concat_map(s.drop_last(), f) + f(s.last())
    }
}

/// An item is in `concat_map(s, f)` exactly when it is in `f` of some item
/// of `s`.
pub proof fn lemma_concat_map_contains<A, B>(s: Seq<A>, f: spec_fn(A) -> Seq<B>, y: B)
    ensures
        concat_map(s, f).contains(y) <==> exists|i: int| 0 <= i < s.len() && #[trigger] f(s[i]).contains(y),
    decreases s.len(),
{
    if s.len() > 0 {
        let t = s.drop_last();
        lemma_concat_map_contains(t, f, y);
        let p = concat_map(t, f);
        let q = f(s.last());
        assert(concat_map(s, f) == p + q);
        assert(s.last() == s[s.len() - 1]);
        if (p + q).contains(y) {
            let k = choose|k: int| 0 <= k < (p + q).len() && (p + q)[k] == y;
            if k < p.len() {
                assert(p[k] == y);
                assert(p.contains(y));
                let i = choose|i: int| 0 <= i < t.len() && #[trigger] f(t[i]).contains(y);
                assert(t[i] == s[i]);
                assert(f(s[i]).contains(y));
            } else {
                assert(q[k - p.len()] == y);
                assert(f(s[s.len() - 1]).contains(y));
            }
        }
        if exists|i: int| 0 <= i < s.len() && #[trigger] f(s[i]).contains(y) {
            let i = choose|i: int| 0 <= i < s.len() && #[trigger] f(s[i]).contains(y);
            if i < s.len() - 1 {
                assert(t[i] == s[i]);
                assert(f(t[i]).contains(y));
                assert(p.contains(y));
                let k = choose|k: int| 0 <= k < p.len() && p[k] == y;
                assert((p + q)[k] == y);
            } else {
                assert(q.contains(y));
                let k = choose|k: int| 0 <= k < q.len() && q[k] == y;
                assert((p + q)[p.len() + k] == y);
            }
        }
    }
}

} // verus!

