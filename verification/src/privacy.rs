//! The deterministic privacy mask: operator markers (rung 1, exact strings) and a structured
//! pattern/checksum sweep (rung 2: email, SSN, API keys, Luhn-valid cards). `redact` returns the
//! scrubbed text and the findings, a non-model assertion that PII was present. A probabilistic
//! classifier (rung 3) may add spans on the model-assisted path; it can only add, never remove.
//!
//! Offsets handed in or out by pattern matchers and classifiers are UTF-8 byte offsets; the mask
//! itself works on the text's chars, converting each offset to the char position it falls on.

use vstd::prelude::*;
use crate::text::{chars_of, find, find_at, lemma_find_from_bounds, push_chars_at, push_str, views};
use crate::types::Content;

verus! {

// ---------------------------------------------------------------------------------------------
// byte offsets and char positions

/// The number of bytes UTF-8 uses for `c`.
pub open spec fn utf8_width(c: char) -> int {
    if (c as u32) < 0x80 {
        1
    } else if (c as u32) < 0x800 {
        2
    } else if (c as u32) < 0x10000 {
        3
    } else {
        4
    }
}

/// The char position that UTF-8 byte offset `o` falls on in `t`, or `None` when `o` is inside a
/// char or past the end (that is, when `o` is not a char boundary).
pub open spec fn char_at_offset(t: Seq<char>, o: int) -> Option<int>
    decreases t.len(),
{
    if o == 0 {
        Some(0)
    } else if o < 0 || t.len() == 0 {
        None
    } else {
        match char_at_offset(t.drop_first(), o - utf8_width(t[0])) {
            Some(k) => Some(k + 1),
            None => None,
        }
    }
}

proof fn lemma_char_at_offset_bound(t: Seq<char>, o: int)
    ensures
        char_at_offset(t, o) matches Some(k) ==> 0 <= k <= t.len(),
    decreases t.len(),
{
    if o != 0 && o >= 0 && t.len() > 0 {
        lemma_char_at_offset_bound(t.drop_first(), o - utf8_width(t[0]));
    }
}

fn utf8_width_of(c: char) -> (r: u128)
    ensures
        r == utf8_width(c),
{
    let u = c as u32;
    if u < 0x80 {
        1
    } else if u < 0x800 {
        2
    } else if u < 0x10000 {
        3
    } else {
        4
    }
}

/// The char position byte offset `o` falls on in `t`, if it is a char boundary.
fn char_index(t: &Vec<char>, o: usize) -> (r: Option<usize>)
    ensures
        match char_at_offset(t@, o as int) {
            Some(k) => r == Some(k as usize),
            None => r is None,
        },
{
    let mut k: usize = 0;
    let mut acc: u128 = 0;
    assert(t@.subrange(0, t@.len() as int) =~= t@);
    while k < t.len() && acc != o as u128
        invariant
            k <= t@.len(),
            acc <= o,
            acc <= 4 * k,
            char_at_offset(t@, o as int) == match char_at_offset(t@.subrange(k as int, t@.len() as int), o - acc) {
                Some(j) => Some(j + k),
                None => None::<int>,
            },
        decreases t@.len() - k,
    {
        let wdt = utf8_width_of(t[k]);
        proof {
            let rest = t@.subrange(k as int, t@.len() as int);
            assert(rest[0] == t@[k as int]);
            assert(rest.drop_first() =~= t@.subrange(k + 1, t@.len() as int));
        }
        acc = acc + wdt;
        k = k + 1;
        if acc > o as u128 {
            proof {
                assert(char_at_offset(t@.subrange(k as int, t@.len() as int), o - acc) is None);
            }
            return None;
        }
    }
    if acc == o as u128 {
        proof {
            lemma_char_at_offset_bound(t@.subrange(k as int, t@.len() as int), 0);
        }
        Some(k)
    } else {
        proof {
            assert(t@.subrange(k as int, t@.len() as int).len() == 0);
        }
        None
    }
}

// ---------------------------------------------------------------------------------------------
// the rung-2 patterns

/// The structured PII patterns of rung 2, in sweep order.
pub open spec fn pattern_of(i: int) -> Seq<char> {
    if i == 0 {
        r"[A-Za-z0-9._%+\-]+@[A-Za-z0-9.\-]+\.[A-Za-z]{2,}"@
    } else if i == 1 {
        r"\b\d{3}-\d{2}-\d{4}\b"@
    } else if i == 2 {
        r"\bsk-[A-Za-z0-9]{4,}\b"@
    } else if i == 3 {
        r"\bAKIA[0-9A-Z]{16}\b"@
    } else {
        r"\b\d(?:[ -]?\d){12,18}\b"@
    }
}

/// The finding kind each rung-2 pattern reports.
pub open spec fn pattern_kind(i: int) -> Seq<char> {
    if i == 0 {
        "email"@
    } else if i == 1 {
        "ssn"@
    } else if i == 2 {
        "api_key"@
    } else if i == 3 {
        "aws_key"@
    } else {
        "credit_card"@
    }
}

/// Whether `p` is one of the library's own (known-valid) patterns.
pub open spec fn builtin_pattern(p: Seq<char>) -> bool {
    exists|i: int| 0 <= i < 5 && p == pattern_of(i)
}

/// The successive non-overlapping leftmost-first matches of regex `pattern` in `text`, as
/// `(start, end)` UTF-8 byte offsets (what `regex::Regex::find_iter` yields).
pub uninterp spec fn regex_matches(pattern: Seq<char>, text: Seq<char>) -> Seq<(usize, usize)>;

/// Trusted: compiles `pattern` with `regex::Regex::new` and collects `find_iter(text)` as byte
/// offset pairs. The matches are named (a function of pattern and text alone); what the regex
/// crate documents of every match is stated: it lies within the text, its start is not after its
/// end, both offsets fall on char boundaries, and the matches come in order without overlapping
/// (each starts at or after the end of the one before). The pattern is one of the library's own, which
/// compile.
#[verifier::external_body]
pub(crate) fn find_matches(pattern: &str, text: &str) -> (r: Vec<(usize, usize)>)
    requires
        builtin_pattern(pattern@),
    ensures
        r@ == regex_matches(pattern@, text@),
        forall|i: int|
            0 <= i < r@.len() ==> r@[i].0 <= r@[i].1 && char_at_offset(text@, r@[i].0 as int) is Some
                && char_at_offset(text@, r@[i].1 as int) is Some,
        forall|i: int| 0 <= i < r@.len() - 1 ==> (#[trigger] r@[i]).1 <= r@[i + 1].0,
{
    let re = regex::Regex::new(pattern).expect("the library's patterns compile");
    let mut out = Vec::new();
    for m in re.find_iter(text) {
        out.push((m.start(), m.end()));
    }
    out
}

pub(crate) fn pattern_str(i: usize) -> (r: &'static str)
    requires
        i < 5,
    ensures
        r@ == pattern_of(i as int),
{
    if i == 0 {
        r"[A-Za-z0-9._%+\-]+@[A-Za-z0-9.\-]+\.[A-Za-z]{2,}"
    } else if i == 1 {
        r"\b\d{3}-\d{2}-\d{4}\b"
    } else if i == 2 {
        r"\bsk-[A-Za-z0-9]{4,}\b"
    } else if i == 3 {
        r"\bAKIA[0-9A-Z]{16}\b"
    } else {
        r"\b\d(?:[ -]?\d){12,18}\b"
    }
}

fn pattern_kind_str(i: usize) -> (r: &'static str)
    requires
        i < 5,
    ensures
        r@ == pattern_kind(i as int),
{
    if i == 0 {
        "email"
    } else if i == 1 {
        "ssn"
    } else if i == 2 {
        "api_key"
    } else if i == 3 {
        "aws_key"
    } else {
        "credit_card"
    }
}

// ---------------------------------------------------------------------------------------------
// Luhn

/// The decimal digits among `s`, in order (spaces, dashes and other chars ignored).
pub open spec fn digits(s: Seq<char>) -> Seq<int>
    decreases s.len(),
{
    if s.len() == 0 {
        seq![]
    } else {
        let r = digits(s.drop_last());
        let c = s.last();
        if '0' <= c && c <= '9' { r.push(c as int - '0' as int) } else { r }
    }
}

/// The Luhn sum of the last `k` digits of `d`: every second digit from the right is doubled
/// (minus 9 when above 9).
pub open spec fn luhn_sum(d: Seq<int>, k: nat) -> int
    decreases k,
{
    if k == 0 || k > d.len() {
        0
    } else {
        let x = d[d.len() - k];
        let v = if (k - 1) % 2 == 1 {
            if 2 * x > 9 { 2 * x - 9 } else { 2 * x }
        } else {
            x
        };
        luhn_sum(d, (k - 1) as nat) + v
    }
}

/// What one digit adds to a Luhn sum: itself, or when doubled the digit sum of its double.
spec fn luhn_term(x: int, doubled: bool) -> int {
    if doubled {
        if 2 * x > 9 { 2 * x - 9 } else { 2 * x }
    } else {
        x
    }
}

/// Whether every entry is a decimal digit.
pub open spec fn all_digits(d: Seq<int>) -> bool {
    forall|i: int| 0 <= i < d.len() ==> 0 <= #[trigger] d[i] <= 9
}

proof fn lemma_luhn_sum_differs_at(d: Seq<int>, e: Seq<int>, j: int, k: nat)
    requires
        d.len() == e.len(),
        0 <= j < d.len(),
        forall|i: int| 0 <= i < d.len() && i != j ==> d[i] == e[i],
        k <= d.len(),
    ensures
        luhn_sum(d, k) - luhn_sum(e, k) == if d.len() - k <= j {
            luhn_term(d[j], (d.len() - j - 1) % 2 == 1) - luhn_term(e[j], (d.len() - j - 1) % 2 == 1)
        } else {
            0
        },
    decreases k,
{
    if k > 0 {
        lemma_luhn_sum_differs_at(d, e, j, (k - 1) as nat);
        let p = d.len() - k;
        if p != j {
            assert(d[p] == e[p]);
        }
    }
}

/// The Luhn sum stays a checksum of decimal digits: each digit adds at most 9 (a doubled digit
/// adds the digit sum of its double), so the sum of `k` digits is between 0 and `9 * k`.
pub proof fn lemma_luhn_sum_bounded(d: Seq<int>, k: nat)
    requires
        all_digits(d),
    ensures
        0 <= luhn_sum(d, k) <= 9 * k,
    decreases k,
{
    if k > 0 && k <= d.len() {
        lemma_luhn_sum_bounded(d, (k - 1) as nat);
        assert(0 <= d[d.len() - k] <= 9);
    }
}

/// Luhn catches every single-digit error: two digit strings of one length that differ in exactly
/// one place never have Luhn sums that agree modulo 10, so one mistyped digit always turns a
/// passing card number into a failing one.
pub proof fn lemma_luhn_catches_one_wrong_digit(d: Seq<int>, e: Seq<int>, j: int)
    requires
        all_digits(d),
        all_digits(e),
        d.len() == e.len(),
        0 <= j < d.len(),
        d[j] != e[j],
        forall|i: int| 0 <= i < d.len() && i != j ==> d[i] == e[i],
    ensures
        luhn_sum(d, d.len()) % 10 != luhn_sum(e, e.len()) % 10,
{
    lemma_luhn_sum_differs_at(d, e, j, d.len());
    let dbl = (d.len() - j - 1) % 2 == 1;
    let a = luhn_term(d[j], dbl);
    let b = luhn_term(e[j], dbl);
    assert(0 <= d[j] <= 9 && 0 <= e[j] <= 9);
    assert(0 <= a <= 9 && 0 <= b <= 9 && a != b);
    let sd = luhn_sum(d, d.len());
    let se = luhn_sum(e, e.len());
    assert(sd - se == a - b);
    assert(sd % 10 != se % 10) by (nonlinear_arith)
        requires
            sd - se == a - b,
            0 <= a <= 9,
            0 <= b <= 9,
            a != b,
    {
        if sd % 10 == se % 10 {
            assert(sd == 10 * (sd / 10) + sd % 10);
            assert(se == 10 * (se / 10) + se % 10);
            assert(a - b == 10 * (sd / 10 - se / 10));
        }
    }
}

/// A card number passes Luhn: 13 to 19 digits whose Luhn sum is a multiple of 10.
pub open spec fn spec_luhn_ok(s: Seq<char>) -> bool {
    let d = digits(s);
    13 <= d.len() <= 19 && luhn_sum(d, d.len()) % 10 == 0
}

/// Luhn check over the digits of `s[lo..hi]`.
fn luhn_ok_at(s: &Vec<char>, lo: usize, hi: usize) -> (r: bool)
    requires
        lo <= hi <= s@.len(),
    ensures
        r == spec_luhn_ok(s@.subrange(lo as int, hi as int)),
{
    let mut d: Vec<u32> = Vec::new();
    let mut i = lo;
    while i < hi
        invariant
            lo <= i <= hi <= s@.len(),
            d@.map_values(|x: u32| x as int) == digits(s@.subrange(lo as int, i as int)),
            forall|j: int| 0 <= j < d@.len() ==> d@[j] < 10,
        decreases hi - i,
    {
        let c = s[i];
        proof {
            assert(s@.subrange(lo as int, i + 1).drop_last() =~= s@.subrange(lo as int, i as int));
        }
        if '0' <= c && c <= '9' {
            d.push((c as u32) - ('0' as u32));
            assert(d@.map_values(|x: u32| x as int) =~= digits(s@.subrange(lo as int, i as int)).push(c as int - '0' as int));
        }
        i = i + 1;
    }
    let ghost dd = digits(s@.subrange(lo as int, hi as int));
    if d.len() < 13 || d.len() > 19 {
        return false;
    }
    let mut sum: u32 = 0;
    let mut k: usize = 0;
    let n = d.len();
    while k < n
        invariant
            n == d@.len(),
            13 <= n <= 19,
            dd == d@.map_values(|x: u32| x as int),
            forall|j: int| 0 <= j < d@.len() ==> d@[j] < 10,
            k <= n,
            sum == luhn_sum(dd, k as nat),
            sum <= 9 * k,
        decreases n - k,
    {
        let x = d[n - 1 - k];
        let v = if k % 2 == 1 {
            if 2 * x > 9 { 2 * x - 9 } else { 2 * x }
        } else {
            x
        };
        sum = sum + v;
        k = k + 1;
    }
    sum % 10 == 0
}

/// Luhn check over the digits of `s` (ignoring spaces and dashes): 13 to 19 digits.
pub fn luhn_ok(s: &str) -> (r: bool)
    ensures
        r == spec_luhn_ok(s@),
{
    let v = chars_of(s);
    assert(v@.subrange(0, v@.len() as int) =~= s@);
    luhn_ok_at(&v, 0, v.len())
}

} // verus!

verus! {

// ---------------------------------------------------------------------------------------------
// spans

/// A detected span in char positions, with its finding kind and rung.
pub type Tagged = (int, int, Seq<char>, u8);

/// A PII finding: its classification, never its value. Rung 1 = operator marker, 2 = structured
/// pattern/checksum, 3 = model classifier.
#[derive(Clone, Debug, PartialEq, Eq)]
pub struct Finding {
    pub kind: String,
    pub rung: u8,
}

/// A model-detected PII span: UTF-8 byte offsets into the text plus the class label.
#[derive(Clone, Debug, PartialEq, Eq)]
pub struct PiiSpan {
    pub start: usize,
    pub end: usize,
    pub class: String,
}

/// The rung-3 seam: a probabilistic classifier that adds recall over the deterministic rungs.
/// Its spans only ever join the union the mask removes.
pub trait PiiClassifier {
    fn spans(&self, text: &str) -> Vec<PiiSpan>;
}

/// The occurrences of `m` in `t` at or after `from`, left to right and non-overlapping.
pub open spec fn occurrences(t: Seq<char>, m: Seq<char>, from: int) -> Seq<(int, int)>
    decreases t.len() - from,
{
    if m.len() == 0 || from < 0 || from > t.len() {
        seq![]
    } else {
        match find(t.subrange(from, t.len() as int), m) {
            Some(rel) => if rel >= 0 && from + rel + m.len() <= t.len() {
                seq![(from + rel, from + rel + m.len())] + occurrences(t, m, from + rel + m.len())
            } else {
                seq![]
            },
            None => seq![],
        }
    }
}

/// Rung 1: every occurrence of every non-empty operator marker, marker by marker.
pub open spec fn marker_spans(t: Seq<char>, ms: Seq<String>) -> Seq<Tagged>
    decreases ms.len(),
{
    if ms.len() == 0 {
        seq![]
    } else {
        marker_spans(t, ms.drop_last()) + occurrences(t, ms.last()@, 0).map_values(
            |p: (int, int)| (p.0, p.1, "operator_marker"@, 1u8),
        )
    }
}

/// The char span of a byte-offset match.
pub open spec fn match_chars(t: Seq<char>, b: (usize, usize)) -> (int, int) {
    (char_at_offset(t, b.0 as int)->0, char_at_offset(t, b.1 as int)->0)
}

/// The matches of rung-2 pattern `i` that count: all of them, except that a card number must
/// also pass Luhn.
pub open spec fn kept_matches(t: Seq<char>, i: int, ms: Seq<(usize, usize)>) -> Seq<Tagged>
    decreases ms.len(),
{
    if ms.len() == 0 {
        seq![]
    } else {
        let r = kept_matches(t, i, ms.drop_last());
        let c = match_chars(t, ms.last());
        if i != 4 || spec_luhn_ok(t.subrange(c.0, c.1)) {
            r.push((c.0, c.1, pattern_kind(i), 2u8))
        } else {
            r
        }
    }
}

/// Rung 2: the kept matches of the first `n` patterns, pattern by pattern.
pub open spec fn pattern_spans(t: Seq<char>, n: int) -> Seq<Tagged>
    decreases n,
{
    if n <= 0 {
        seq![]
    } else {
        pattern_spans(t, n - 1) + kept_matches(t, n - 1, regex_matches(pattern_of(n - 1), t))
    }
}

/// The deterministic rung-1/2 sweep of `t`.
pub open spec fn det_spans(markers: Seq<String>, t: Seq<char>) -> Seq<Tagged> {
    marker_spans(t, markers) + pattern_spans(t, 5)
}

/// The model spans that are well-formed (start before end, both on char boundaries), in order.
pub open spec fn valid_model_spans(t: Seq<char>, ms: Seq<PiiSpan>) -> Seq<Tagged>
    decreases ms.len(),
{
    if ms.len() == 0 {
        seq![]
    } else {
        let r = valid_model_spans(t, ms.drop_last());
        let s = ms.last();
        if s.start < s.end && char_at_offset(t, s.start as int) is Some && char_at_offset(
            t,
            s.end as int,
        ) is Some {
            r.push((char_at_offset(t, s.start as int)->0, char_at_offset(t, s.end as int)->0, s.class@, 3u8))
        } else {
            r
        }
    }
}

/// The positions of tagged spans.
pub open spec fn positions(x: Seq<Tagged>) -> Seq<(int, int)> {
    x.map_values(|t: Tagged| (t.0, t.1))
}

/// The findings tagged spans report, in span order.
pub open spec fn findings_of(x: Seq<Tagged>) -> Seq<(Seq<char>, u8)> {
    x.map_values(|t: Tagged| (t.2, t.3))
}

/// The view of findings.
pub open spec fn finding_views(f: Seq<Finding>) -> Seq<(Seq<char>, u8)> {
    f.map_values(|x: Finding| (x.kind@, x.rung))
}

/// Inserts `x` after every span that starts no later than it (a stable insertion).
pub open spec fn insert_by_start(s: Seq<(int, int)>, x: (int, int)) -> Seq<(int, int)>
    decreases s.len(),
{
    if s.len() == 0 {
        seq![x]
    } else if s.last().0 <= x.0 {
        s.push(x)
    } else {
        insert_by_start(s.drop_last(), x).push(s.last())
    }
}

/// Spans stably sorted by start.
pub open spec fn sort_by_start(s: Seq<(int, int)>) -> Seq<(int, int)>
    decreases s.len(),
{
    if s.len() == 0 {
        seq![]
    } else {
        insert_by_start(sort_by_start(s.drop_last()), s.last())
    }
}

/// Sorted spans merged where they overlap or touch.
pub open spec fn merge_spans(s: Seq<(int, int)>) -> Seq<(int, int)>
    decreases s.len(),
{
    if s.len() == 0 {
        seq![]
    } else {
        let m = merge_spans(s.drop_last());
        let x = s.last();
        if m.len() > 0 && x.0 <= m.last().1 {
            let e = if m.last().1 >= x.1 { m.last().1 } else { x.1 };
            m.update(m.len() - 1, (m.last().0, e))
        } else {
            m.push(x)
        }
    }
}

/// The text from `cur` on with each merged span replaced by `[REDACTED]`.
pub open spec fn mask_from(t: Seq<char>, m: Seq<(int, int)>, cur: int) -> Seq<char>
    decreases m.len(),
{
    if m.len() == 0 {
        t.subrange(cur, t.len() as int)
    } else {
        t.subrange(cur, m[0].0) + "[REDACTED]"@ + mask_from(t, m.drop_first(), m[0].1)
    }
}

/// The masked text: the union of the spans replaced by `[REDACTED]`, one placeholder per run of
/// overlapping or touching spans.
pub open spec fn spec_mask(t: Seq<char>, spans: Seq<Tagged>) -> Seq<char> {
    mask_from(t, merge_spans(sort_by_start(positions(spans))), 0)
}

/// Every span lies within `[0, n]` with its start not after its end.
pub open spec fn spans_ok(s: Seq<(int, int)>, n: int) -> bool {
    forall|i: int| 0 <= i < s.len() ==> 0 <= #[trigger] s[i].0 <= s[i].1 <= n
}

/// Spans sorted by start.
pub open spec fn sorted_by_start(s: Seq<(int, int)>) -> bool {
    forall|i: int, j: int| 0 <= i < j < s.len() ==> #[trigger] s[i].0 <= #[trigger] s[j].0
}

/// Merged spans: in bounds, each ending strictly before the next begins.
pub open spec fn chained(m: Seq<(int, int)>, n: int) -> bool {
    &&& spans_ok(m, n)
    &&& forall|i: int| 0 <= i < m.len() - 1 ==> #[trigger] m[i].1 < m[i + 1].0
}

proof fn lemma_insert_props(s: Seq<(int, int)>, x: (int, int), n: int)
    requires
        spans_ok(s, n),
        0 <= x.0 <= x.1 <= n,
        sorted_by_start(s),
    ensures
        spans_ok(insert_by_start(s, x), n),
        sorted_by_start(insert_by_start(s, x)),
        insert_by_start(s, x).len() == s.len() + 1,
        forall|i: int| 0 <= i < insert_by_start(s, x).len() ==> (#[trigger] insert_by_start(s, x)[i] == x
            || exists|j: int| 0 <= j < s.len() && s[j] == insert_by_start(s, x)[i]),
    decreases s.len(),
{
    if s.len() > 0 && s.last().0 > x.0 {
        let d = s.drop_last();
        assert(spans_ok(d, n)) by {
            assert forall|i: int| 0 <= i < d.len() implies 0 <= #[trigger] d[i].0 <= d[i].1 <= n by {
                assert(d[i] == s[i]);
            }
        }
        assert(sorted_by_start(d)) by {
            assert forall|i: int, j: int| 0 <= i < j < d.len() implies #[trigger] d[i].0 <= #[trigger] d[j].0 by {
                assert(d[i] == s[i] && d[j] == s[j]);
            }
        }
        lemma_insert_props(d, x, n);
        let r = insert_by_start(d, x);
        let rr = r.push(s.last());
        assert(s[s.len() - 1] == s.last());
        assert forall|i: int, j: int| 0 <= i < j < rr.len() implies #[trigger] rr[i].0 <= #[trigger] rr[j].0 by {
            if j == rr.len() - 1 {
                assert(rr[i] == r[i]);
                if r[i] != x {
                    let k = choose|k: int| 0 <= k < d.len() && d[k] == r[i];
                    assert(s[k] == d[k]);
                }
            } else {
                assert(rr[i] == r[i] && rr[j] == r[j]);
            }
        }
        assert forall|i: int| 0 <= i < rr.len() implies (#[trigger] rr[i] == x || exists|j: int| 0 <= j < s.len() && s[j] == rr[i]) by {
            if i < r.len() {
                assert(rr[i] == r[i]);
                if r[i] != x {
                    let k = choose|k: int| 0 <= k < d.len() && d[k] == r[i];
                    assert(s[k] == d[k]);
                }
            } else {
                assert(s[s.len() - 1] == rr[i]);
            }
        }
        assert forall|i: int| 0 <= i < rr.len() implies 0 <= #[trigger] rr[i].0 <= rr[i].1 <= n by {
            if i < r.len() {
                assert(rr[i] == r[i]);
            }
        }
    } else if s.len() > 0 {
        let rr = s.push(x);
        assert forall|i: int| 0 <= i < rr.len() implies (#[trigger] rr[i] == x || exists|j: int| 0 <= j < s.len() && s[j] == rr[i]) by {
            if i < s.len() {
                assert(s[i] == rr[i]);
            }
        }
        assert forall|i: int, j: int| 0 <= i < j < rr.len() implies #[trigger] rr[i].0 <= #[trigger] rr[j].0 by {
            if j == rr.len() - 1 {
                assert(rr[i] == s[i]);
                assert(s[i].0 <= s[s.len() - 1].0 || i == s.len() - 1);
            } else {
                assert(rr[i] == s[i] && rr[j] == s[j]);
            }
        }
    }
}

proof fn lemma_sort_props(s: Seq<(int, int)>, n: int)
    requires
        spans_ok(s, n),
    ensures
        spans_ok(sort_by_start(s), n),
        sorted_by_start(sort_by_start(s)),
        sort_by_start(s).len() == s.len(),
    decreases s.len(),
{
    if s.len() > 0 {
        let d = s.drop_last();
        assert(spans_ok(d, n)) by {
            assert forall|i: int| 0 <= i < d.len() implies 0 <= #[trigger] d[i].0 <= d[i].1 <= n by {
                assert(d[i] == s[i]);
            }
        }
        lemma_sort_props(d, n);
        assert(s[s.len() - 1] == s.last());
        lemma_insert_props(sort_by_start(d), s.last(), n);
    }
}

proof fn lemma_merge_props(s: Seq<(int, int)>, n: int)
    requires
        spans_ok(s, n),
        sorted_by_start(s),
    ensures
        chained(merge_spans(s), n),
        merge_spans(s).len() <= s.len(),
        s.len() > 0 ==> merge_spans(s).len() > 0 && merge_spans(s).last().0 <= s.last().0,
    decreases s.len(),
{
    if s.len() > 0 {
        let d = s.drop_last();
        assert(spans_ok(d, n)) by {
            assert forall|i: int| 0 <= i < d.len() implies 0 <= #[trigger] d[i].0 <= d[i].1 <= n by {
                assert(d[i] == s[i]);
            }
        }
        assert(sorted_by_start(d)) by {
            assert forall|i: int, j: int| 0 <= i < j < d.len() implies #[trigger] d[i].0 <= #[trigger] d[j].0 by {
                assert(d[i] == s[i] && d[j] == s[j]);
            }
        }
        lemma_merge_props(d, n);
        assert(s[s.len() - 1] == s.last());
        if d.len() > 0 {
            assert(d.last() == s[s.len() - 2]);
        }
        let m = merge_spans(d);
        let x = s.last();
        if m.len() > 0 && x.0 <= m.last().1 {
            let e = if m.last().1 >= x.1 { m.last().1 } else { x.1 };
            let mm = m.update(m.len() - 1, (m.last().0, e));
            assert forall|i: int| 0 <= i < mm.len() implies 0 <= #[trigger] mm[i].0 <= mm[i].1 <= n by {
                if i < m.len() - 1 {
                    assert(mm[i] == m[i]);
                }
            }
            assert forall|i: int| 0 <= i < mm.len() - 1 implies #[trigger] mm[i].1 < mm[i + 1].0 by {
                assert(mm[i] == m[i]);
                if i + 1 < m.len() - 1 {
                    assert(mm[i + 1] == m[i + 1]);
                }
            }
        } else {
            let mm = m.push(x);
            assert forall|i: int| 0 <= i < mm.len() implies 0 <= #[trigger] mm[i].0 <= mm[i].1 <= n by {
                if i < m.len() {
                    assert(mm[i] == m[i]);
                }
            }
            assert forall|i: int| 0 <= i < mm.len() - 1 implies #[trigger] mm[i].1 < mm[i + 1].0 by {
                assert(mm[i] == m[i]);
                if i + 1 < m.len() {
                    assert(mm[i + 1] == m[i + 1]);
                }
            }
        }
    }
}

} // verus!

verus! {

proof fn lemma_char_at_offset_monotone(t: Seq<char>, a: int, b: int)
    requires
        a <= b,
        char_at_offset(t, a) is Some,
        char_at_offset(t, b) is Some,
    ensures
        char_at_offset(t, a)->0 <= char_at_offset(t, b)->0,
    decreases t.len(),
{
    if a != 0 && a >= 0 && t.len() > 0 {
        lemma_char_at_offset_monotone(t.drop_first(), a - utf8_width(t[0]), b - utf8_width(t[0]));
    } else if a == 0 {
        lemma_char_at_offset_bound(t, b);
    }
}

proof fn lemma_insert_at(s: Seq<(int, int)>, x: (int, int), p: int)
    requires
        0 <= p <= s.len(),
        forall|i: int| p <= i < s.len() ==> #[trigger] s[i].0 > x.0,
        p > 0 ==> s[p - 1].0 <= x.0,
    ensures
        insert_by_start(s, x) == s.insert(p, x),
    decreases s.len(),
{
    if s.len() == 0 {
        assert(s.insert(p, x) =~= seq![x]);
    } else if p == s.len() {
        assert(s.insert(p, x) =~= s.push(x));
    } else {
        let d = s.drop_last();
        assert forall|i: int| p <= i < d.len() implies #[trigger] d[i].0 > x.0 by {
            assert(d[i] == s[i]);
        }
        if p > 0 {
            assert(d[p - 1] == s[p - 1]);
        }
        lemma_insert_at(d, x, p);
        assert(s.insert(p, x) =~= d.insert(p, x).push(s.last()));
    }
}

/// The char-position view of exec spans.
pub open spec fn tagged_view(v: Seq<(usize, usize, String, u8)>) -> Seq<Tagged> {
    v.map_values(|x: (usize, usize, String, u8)| (x.0 as int, x.1 as int, x.2@, x.3))
}

/// Spans of exec spans lie within `[0, n]` with start not after end.
pub open spec fn exec_spans_ok(v: Seq<(usize, usize, String, u8)>, n: int) -> bool {
    forall|i: int| 0 <= i < v.len() ==> 0 <= #[trigger] v[i].0 <= v[i].1 <= n
}

/// Mask the union of `spans` (char positions into `v`) with `[REDACTED]` and report one finding
/// per span.
fn mask(v: &Vec<char>, spans: &Vec<(usize, usize, String, u8)>) -> (r: (String, Vec<Finding>))
    requires
        exec_spans_ok(spans@, v@.len() as int),
    ensures
        r.0@ == spec_mask(v@, tagged_view(spans@)),
        finding_views(r.1@) == findings_of(tagged_view(spans@)),
{
    let ghost tv = tagged_view(spans@);
    let n = v.len();
    // findings, in span order
    let mut findings: Vec<Finding> = Vec::new();
    let mut i: usize = 0;
    while i < spans.len()
        invariant
            i <= spans@.len(),
            tv == tagged_view(spans@),
            finding_views(findings@) == findings_of(tv).take(i as int),
        decreases spans@.len() - i,
    {
        let kind = spans[i].2.clone();
        let f = Finding { kind, rung: spans[i].3 };
        assert(f.kind@ == tv[i as int].2 && f.rung == tv[i as int].3);
        let ghost old_f = findings@;
        findings.push(f);
        assert(finding_views(findings@) =~= finding_views(old_f).push((f.kind@, f.rung)));
        assert(findings_of(tv).take(i + 1) =~= findings_of(tv).take(i as int).push(findings_of(tv)[i as int]));
        i = i + 1;
    }
    assert(findings_of(tv).take(spans@.len() as int) =~= findings_of(tv));
    // stable insertion sort of the positions by start
    let ghost pos = positions(tv);
    assert(spans_ok(pos, n as int)) by {
        assert forall|k: int| 0 <= k < pos.len() implies 0 <= #[trigger] pos[k].0 <= pos[k].1 <= n by {
            assert(spans@[k].0 <= spans@[k].1);
        }
    }
    let mut sorted: Vec<(usize, usize)> = Vec::new();
    let mut k: usize = 0;
    while k < spans.len()
        invariant
            k <= spans@.len(),
            n == v@.len(),
            pos == positions(tagged_view(spans@)),
            spans_ok(pos, n as int),
            sorted@.map_values(|x: (usize, usize)| (x.0 as int, x.1 as int)) == sort_by_start(pos.take(k as int)),
        decreases spans@.len() - k,
    {
        let ghost before = sort_by_start(pos.take(k as int));
        proof {
            assert(spans_ok(pos.take(k as int), n as int)) by {
                assert forall|q: int| 0 <= q < pos.take(k as int).len() implies 0 <= #[trigger] pos.take(k as int)[q].0 <= pos.take(k as int)[q].1 <= n by {
                    assert(pos.take(k as int)[q] == pos[q]);
                }
            }
            lemma_sort_props(pos.take(k as int), n as int);
        }
        let x = (spans[k].0, spans[k].1);
        let mut p = sorted.len();
        while p > 0 && sorted[p - 1].0 > x.0
            invariant
                p <= sorted@.len(),
                sorted@.map_values(|y: (usize, usize)| (y.0 as int, y.1 as int)) == before,
                forall|q: int| p <= q < sorted@.len() ==> #[trigger] sorted@[q].0 > x.0,
            decreases p,
        {
            p = p - 1;
        }
        proof {
            let sv = sorted@.map_values(|y: (usize, usize)| (y.0 as int, y.1 as int));
            assert forall|q: int| p <= q < sv.len() implies #[trigger] sv[q].0 > x.0 by {
                assert(sorted@[q].0 > x.0);
            }
            lemma_insert_at(sv, (x.0 as int, x.1 as int), p as int);
            assert(pos.take(k + 1).drop_last() =~= pos.take(k as int));
            assert(pos.take(k + 1).last() == (x.0 as int, x.1 as int));
        }
        sorted.insert(p, x);
        assert(sorted@.map_values(|y: (usize, usize)| (y.0 as int, y.1 as int)) =~= sort_by_start(pos.take(k + 1)));
        k = k + 1;
    }
    assert(pos.take(spans@.len() as int) =~= pos);
    let ghost ss = sort_by_start(pos);
    proof {
        lemma_sort_props(pos, n as int);
        lemma_merge_props(ss, n as int);
    }
    // merge overlapping or touching spans
    let mut merged: Vec<(usize, usize)> = Vec::new();
    let mut j: usize = 0;
    while j < sorted.len()
        invariant
            j <= sorted@.len(),
            ss == sorted@.map_values(|y: (usize, usize)| (y.0 as int, y.1 as int)),
            spans_ok(ss, n as int),
            sorted_by_start(ss),
            merged@.map_values(|y: (usize, usize)| (y.0 as int, y.1 as int)) == merge_spans(ss.take(j as int)),
        decreases sorted@.len() - j,
    {
        let x = sorted[j];
        proof {
            assert(ss.take(j + 1).drop_last() =~= ss.take(j as int));
            assert(ss.take(j + 1).last() == ss[j as int]);
        }
        let ml = merged.len();
        if ml > 0 && x.0 <= merged[ml - 1].1 {
            let last = merged[ml - 1];
            let e = if last.1 >= x.1 { last.1 } else { x.1 };
            merged.set(ml - 1, (last.0, e));
        } else {
            merged.push(x);
        }
        assert(merged@.map_values(|y: (usize, usize)| (y.0 as int, y.1 as int)) =~= merge_spans(ss.take(j + 1)));
        j = j + 1;
    }
    assert(ss.take(sorted@.len() as int) =~= ss);
    let ghost mm = merge_spans(ss);
    // rebuild with the placeholder
    let mut out = String::new();
    let mut cur: usize = 0;
    let mut q: usize = 0;
    assert(mm.skip(0) =~= mm);
    while q < merged.len()
        invariant
            q <= merged@.len(),
            n == v@.len(),
            mm == merged@.map_values(|y: (usize, usize)| (y.0 as int, y.1 as int)),
            chained(mm, n as int),
            cur <= n,
            q == 0 ==> cur == 0,
            q > 0 ==> cur == mm[q - 1].1,
            q < mm.len() && q > 0 ==> cur < mm[q as int].0,
            out@ + mask_from(v@, mm.skip(q as int), cur as int) == mask_from(v@, mm, 0),
        decreases merged@.len() - q,
    {
        let (s, e) = merged[q];
        assert(mm[q as int] == (s as int, e as int));
        assert(0 <= mm[q as int].0 <= mm[q as int].1 <= n);
        if q > 0 {
            assert(mm[q - 1].1 < mm[(q - 1) + 1].0);
        }
        assert(cur <= s);
        push_chars_at(&mut out, v, cur, s);
        push_str(&mut out, "[REDACTED]");
        proof {
            let rest = mm.skip(q as int);
            assert(rest[0] == mm[q as int]);
            assert(rest.drop_first() =~= mm.skip(q + 1));
        }
        cur = e;
        q = q + 1;
    }
    push_chars_at(&mut out, v, cur, n);
    proof {
        assert(mm.skip(q as int).len() == 0);
    }
    (out, findings)
}

} // verus!

verus! {

/// The deterministic redactor: operator markers (rung 1) and the structured patterns (rung 2).
pub struct Redactor {
    /// The operator's sovereign markers, matched exactly and case-sensitively.
    pub markers: Vec<String>,
}

proof fn lemma_occurrences_step(t: Seq<char>, m: Seq<char>, from: int, found: Option<int>)
    requires
        m.len() > 0,
        0 <= from <= t.len(),
        found == find(t.subrange(from, t.len() as int), m),
    ensures
        match found {
            Some(rel) => 0 <= rel && from + rel + m.len() <= t.len() && occurrences(t, m, from)
                == seq![(from + rel, from + rel + m.len())] + occurrences(t, m, from + rel + m.len()),
            None => occurrences(t, m, from) == Seq::<(int, int)>::empty(),
        },
{
    lemma_find_from_bounds(t.subrange(from, t.len() as int), m, 0);
}

impl Redactor {
    /// A redactor with the operator's sovereign markers (an empty list runs rung 2 only).
    pub fn new(markers: Vec<String>) -> (r: Self)
        ensures
            r.markers@ == markers@,
    {
        Redactor { markers }
    }

    /// The rung-1/2 sweep of `text` (`v` is its chars), in char positions.
    fn deterministic_spans(&self, text: &str, v: &Vec<char>) -> (r: Vec<(usize, usize, String, u8)>)
        requires
            v@ == text@,
        ensures
            tagged_view(r@) == det_spans(self.markers@, text@),
            exec_spans_ok(r@, v@.len() as int),
    {
        let ghost t = text@;
        let n = v.len();
        let mut out: Vec<(usize, usize, String, u8)> = Vec::new();
        // rung 1: operator markers, exact and case-sensitive
        let mut mi: usize = 0;
        while mi < self.markers.len()
            invariant
                mi <= self.markers@.len(),
                v@ == t,
                n == v@.len(),
                tagged_view(out@) == marker_spans(t, self.markers@.take(mi as int)),
                exec_spans_ok(out@, n as int),
            decreases self.markers@.len() - mi,
        {
            let mv = chars_of(self.markers[mi].as_str());
            let ghost m = mv@;
            let ghost base = tagged_view(out@);
            let ghost mut local: Seq<(int, int)> = seq![];
            proof {
                assert(self.markers@.take(mi + 1).drop_last() =~= self.markers@.take(mi as int));
                assert(self.markers@.take(mi + 1).last() == self.markers@[mi as int]);
            }
            if mv.len() > 0 {
                let mut from: usize = 0;
                let mut done = false;
                assert(local + occurrences(t, m, 0) =~= occurrences(t, m, 0));
                while !done
                    invariant
                        v@ == t,
                        n == v@.len(),
                        m == mv@,
                        m.len() > 0,
                        from <= n,
                        done ==> local == occurrences(t, m, 0),
                        !done ==> occurrences(t, m, 0) == local + occurrences(t, m, from as int),
                        tagged_view(out@) == base + local.map_values(
                            |p: (int, int)| (p.0, p.1, "operator_marker"@, 1u8),
                        ),
                        exec_spans_ok(out@, n as int),
                    decreases n - from + (if done { 0int } else { 1int }),
                {
                    let found = find_at(v, from, n, &mv);
                    proof {
                        lemma_find_from_bounds(v@.subrange(from as int, n as int), m, 0);
                        assert(v@.subrange(from as int, n as int) =~= t.subrange(from as int, t.len() as int));
                        lemma_occurrences_step(t, m, from as int, match found {
                            Some(p) => Some(p - from),
                            None => None,
                        });
                    }
                    match found {
                        Some(p) => {
                            let e = p + mv.len();
                            let ghost old_out = out@;
                            out.push((p, e, String::from_str("operator_marker"), 1u8));
                            proof {
                                assert(tagged_view(out@) =~= tagged_view(old_out).push((p as int, e as int, "operator_marker"@, 1u8)));
                                assert((local + seq![(p as int, e as int)]).map_values(
                                    |q: (int, int)| (q.0, q.1, "operator_marker"@, 1u8),
                                ) =~= local.map_values(
                                    |q: (int, int)| (q.0, q.1, "operator_marker"@, 1u8),
                                ).push((p as int, e as int, "operator_marker"@, 1u8)));
                                assert(occurrences(t, m, 0) =~= (local + seq![(p as int, e as int)]) + occurrences(t, m, e as int));
                                local = local + seq![(p as int, e as int)];
                            }
                            from = e;
                        },
                        None => {
                            assert(local + occurrences(t, m, from as int) =~= local);
                            done = true;
                        },
                    }
                }
            } else {
                assert(occurrences(t, m, 0) =~= Seq::<(int, int)>::empty());
            }
            proof {
                assert(m == self.markers@[mi as int]@);
                assert(tagged_view(out@) =~= marker_spans(t, self.markers@.take(mi + 1)));
            }
            mi = mi + 1;
        }
        assert(self.markers@.take(self.markers@.len() as int) =~= self.markers@);
        let ghost mspans = marker_spans(t, self.markers@);
        // rung 2: structured patterns; a card number must also pass Luhn
        let mut pi: usize = 0;
        assert(mspans + pattern_spans(t, 0) =~= mspans);
        while pi < 5
            invariant
                pi <= 5,
                t == text@,
                v@ == t,
                n == v@.len(),
                tagged_view(out@) == mspans + pattern_spans(t, pi as int),
                exec_spans_ok(out@, n as int),
            decreases 5 - pi,
        {
            let pat = pattern_str(pi);
            assert(builtin_pattern(pat@)) by {
                assert(0 <= pi < 5 && pat@ == pattern_of(pi as int));
            }
            let ms = find_matches(pat, text);
            assert(ms@ == regex_matches(pattern_of(pi as int), t));
            let ghost base = tagged_view(out@);
            let mut j: usize = 0;
            assert(base + kept_matches(t, pi as int, ms@.take(0)) =~= base);
            while j < ms.len()
                invariant
                    pi < 5,
                    j <= ms@.len(),
                    t == text@,
                    v@ == t,
                    n == v@.len(),
                    ms@ == regex_matches(pattern_of(pi as int), t),
                    forall|i: int|
                        0 <= i < ms@.len() ==> ms@[i].0 <= ms@[i].1 && char_at_offset(t, ms@[i].0 as int) is Some
                            && char_at_offset(t, ms@[i].1 as int) is Some,
                    tagged_view(out@) == base + kept_matches(t, pi as int, ms@.take(j as int)),
                    exec_spans_ok(out@, n as int),
                decreases ms@.len() - j,
            {
                let (bs, be) = ms[j];
                let cs = match char_index(v, bs) {
                    Some(c) => c,
                    None => {
                        assert(false);
                        0
                    },
                };
                let ce = match char_index(v, be) {
                    Some(c) => c,
                    None => {
                        assert(false);
                        0
                    },
                };
                proof {
                    lemma_char_at_offset_bound(t, bs as int);
                    lemma_char_at_offset_bound(t, be as int);
                    lemma_char_at_offset_monotone(t, bs as int, be as int);
                    assert(ms@.take(j + 1).drop_last() =~= ms@.take(j as int));
                    assert(ms@.take(j + 1).last() == ms@[j as int]);
                }
                let keep = pi != 4 || luhn_ok_at(v, cs, ce);
                if keep {
                    let ghost old_out = out@;
                    out.push((cs, ce, String::from_str(pattern_kind_str(pi)), 2u8));
                    assert(tagged_view(out@) =~= tagged_view(old_out).push((cs as int, ce as int, pattern_kind(pi as int), 2u8)));
                }
                assert(tagged_view(out@) =~= base + kept_matches(t, pi as int, ms@.take(j + 1)));
                j = j + 1;
            }
            assert(ms@.take(ms@.len() as int) =~= ms@);
            assert(tagged_view(out@) =~= mspans + pattern_spans(t, pi + 1));
            pi = pi + 1;
        }
        out
    }

    /// Redact every marker/PII span (the rung-1/2 union) with `[REDACTED]`; return the scrubbed
    /// text and the findings. Deterministic only; no findings means the text comes back unchanged.
    pub fn redact(&self, text: &str) -> (r: (String, Vec<Finding>))
        ensures
            r.0@ == spec_mask(text@, det_spans(self.markers@, text@)),
            finding_views(r.1@) == findings_of(det_spans(self.markers@, text@)),
    {
        let v = chars_of(text);
        let spans = self.deterministic_spans(text, &v);
        mask(&v, &spans)
    }

    /// The model-assisted path: rungs 1-2 plus the classifier's spans (byte offsets), which only
    /// join the union. A model span that is empty, reversed, out of range or not on char
    /// boundaries is dropped.
    pub fn redact_with_model(&self, text: &str, model_spans: &Vec<PiiSpan>) -> (r: (String, Vec<Finding>))
        ensures
            r.0@ == spec_mask(text@, det_spans(self.markers@, text@) + valid_model_spans(text@, model_spans@)),
            finding_views(r.1@) == findings_of(det_spans(self.markers@, text@) + valid_model_spans(text@, model_spans@)),
    {
        let v = chars_of(text);
        let mut spans = self.deterministic_spans(text, &v);
        let ghost base = tagged_view(spans@);
        let n = v.len();
        let mut k: usize = 0;
        assert(base + valid_model_spans(text@, model_spans@.take(0)) =~= base);
        while k < model_spans.len()
            invariant
                k <= model_spans@.len(),
                v@ == text@,
                n == v@.len(),
                tagged_view(spans@) == base + valid_model_spans(text@, model_spans@.take(k as int)),
                exec_spans_ok(spans@, n as int),
            decreases model_spans@.len() - k,
        {
            let s = &model_spans[k];
            proof {
                assert(model_spans@.take(k + 1).drop_last() =~= model_spans@.take(k as int));
                assert(model_spans@.take(k + 1).last() == model_spans@[k as int]);
            }
            if s.start < s.end {
                match (char_index(&v, s.start), char_index(&v, s.end)) {
                    (Some(cs), Some(ce)) => {
                        proof {
                            lemma_char_at_offset_bound(text@, s.start as int);
                            lemma_char_at_offset_bound(text@, s.end as int);
                            lemma_char_at_offset_monotone(text@, s.start as int, s.end as int);
                        }
                        assert(cs <= ce && ce <= n);
                        let ghost old_spans = spans@;
                        spans.push((cs, ce, s.class.clone(), 3u8));
                        assert(tagged_view(spans@) =~= tagged_view(old_spans).push((cs as int, ce as int, s.class@, 3u8)));
                        assert(forall|i: int| 0 <= i < old_spans.len() ==> spans@[i] == old_spans[i]);
                    },
                    _ => {},
                }
            }
            assert(tagged_view(spans@) =~= base + valid_model_spans(text@, model_spans@.take(k + 1)));
            k = k + 1;
        }
        assert(model_spans@.take(model_spans@.len() as int) =~= model_spans@);
        mask(&v, &spans)
    }
}

/// The audit label of a finding: `rung<rung>:<kind>` (labels, never values).
pub open spec fn finding_label_text(f: Finding) -> Seq<char> {
    "rung"@ + crate::text::decimal(f.rung as nat) + ":"@ + f.kind@
}

/// The audit label of a finding (see [`finding_label_text`]).
pub fn finding_label(f: &Finding) -> (r: String)
    ensures
        r@ == finding_label_text(*f),
{
    let mut r = String::from_str("rung");
    crate::text::push_decimal(&mut r, f.rung as u64);
    push_str(&mut r, ":");
    push_str(&mut r, f.kind.as_str());
    r
}

impl Redactor {
    /// Scrub every text part of a message's content with the deterministic rungs (the reversibility
    /// gate before a trace becomes distill feedstock); other parts are left as they are.
    pub fn scrub_content(&self, content: &mut Vec<Content>)
        ensures
            final(content)@.len() == old(content)@.len(),
            forall|i: int|
                0 <= i < old(content)@.len() ==> match #[trigger] old(content)@[i] {
                    Content::Text { text } => final(content)@[i] matches Content::Text { text: t } && t@ == spec_mask(
                        text@,
                        det_spans(self.markers@, text@),
                    ),
                    other => final(content)@[i] == other,
                },
    {
        let ghost orig = content@;
        let mut i: usize = 0;
        while i < content.len()
            invariant
                i <= content@.len(),
                content@.len() == orig.len(),
                forall|j: int| i <= j < orig.len() ==> content@[j] == orig[j],
                forall|j: int|
                    0 <= j < i ==> match #[trigger] orig[j] {
                        Content::Text { text } => content@[j] matches Content::Text { text: t } && t@ == spec_mask(
                            text@,
                            det_spans(self.markers@, text@),
                        ),
                        other => content@[j] == other,
                    },
            decreases content@.len() - i,
        {
            let replacement = match &content[i] {
                Content::Text { text } => {
                    let (scrubbed, _) = self.redact(text.as_str());
                    Some(scrubbed)
                },
                _ => None,
            };
            match replacement {
                Some(t) => {
                    content.set(i, Content::Text { text: t });
                },
                None => {},
            }
            i = i + 1;
        }
    }
}

/// The audit labels of findings (kind and rung views), in order.
pub open spec fn labels_of(fs: Seq<(Seq<char>, u8)>) -> Seq<Seq<char>> {
    fs.map_values(|p: (Seq<char>, u8)| "rung"@ + crate::text::decimal(p.1 as nat) + ":"@ + p.0)
}

fn push_labels(labels: &mut Vec<String>, fs: &Vec<Finding>)
    ensures
        views(final(labels)@) == views(old(labels)@) + labels_of(finding_views(fs@)),
{
    let ghost start = views(labels@);
    let mut i: usize = 0;
    while i < fs.len()
        invariant
            i <= fs@.len(),
            views(labels@) == start + labels_of(finding_views(fs@.take(i as int))),
        decreases fs@.len() - i,
    {
        let l = finding_label(&fs[i]);
        let ghost before = views(labels@);
        labels.push(l);
        proof {
            assert(views(labels@) =~= before.push(l@));
            assert(finding_views(fs@.take(i + 1)) =~= finding_views(fs@.take(i as int)).push((fs@[i as int].kind@, fs@[i as int].rung)));
            assert(labels_of(finding_views(fs@.take(i + 1))) =~= labels_of(finding_views(fs@.take(i as int))).push(l@));
            assert(views(labels@) =~= start + labels_of(finding_views(fs@.take(i + 1))));
        }
        i = i + 1;
    }
    assert(fs@.take(fs@.len() as int) =~= fs@);
}

/// The labels the model-assisted scrub of a content list reports: each text part's findings in
/// order, the part's classifier spans joining its deterministic ones.
pub open spec fn part_labels(markers: Seq<String>, content: Seq<Content>, spans: Seq<Vec<PiiSpan>>) -> Seq<Seq<char>>
    decreases content.len(),
{
    if content.len() == 0 {
        seq![]
    } else {
        let i = content.len() - 1;
        part_labels(markers, content.drop_last(), spans) + match content.last() {
            Content::Text { text } => labels_of(
                findings_of(det_spans(markers, text@) + valid_model_spans(text@, spans[i]@)),
            ),
            _ => seq![],
        }
    }
}

impl Redactor {
    /// The outbound scrub of a reply, on every tier: the content and the reasoning (when present)
    /// are masked with the deterministic rungs, and the findings' labels reported, the content's
    /// first.
    pub fn scrub_reply(&self, content: &str, reasoning: &Option<String>) -> (r: (String, Option<String>, Vec<String>))
        ensures
            r.0@ == spec_mask(content@, det_spans(self.markers@, content@)),
            match reasoning {
                Some(t) => r.1 matches Some(s) && s@ == spec_mask(t@, det_spans(self.markers@, t@)),
                None => r.1 is None,
            },
            views(r.2@) == labels_of(findings_of(det_spans(self.markers@, content@))) + match reasoning {
                Some(t) => labels_of(findings_of(det_spans(self.markers@, t@))),
                None => Seq::<Seq<char>>::empty(),
            },
    {
        let mut labels: Vec<String> = Vec::new();
        let (scrubbed, findings) = self.redact(content);
        push_labels(&mut labels, &findings);
        let out = match reasoning {
            Some(t) => {
                let (s, rf) = self.redact(t.as_str());
                push_labels(&mut labels, &rf);
                Some(s)
            },
            None => {
                assert(views(labels@) =~= views(labels@) + Seq::<Seq<char>>::empty());
                None
            },
        };
        (scrubbed, out, labels)
    }

    /// The egress scrub of a message's content before it leaves the machine: each text part is
    /// masked on the model-assisted path with `spans[i]` (the classifier's spans for part `i`),
    /// other parts are left as they are; the findings' labels are returned in order.
    pub fn scrub_parts_with_model(&self, content: &mut Vec<Content>, spans: &Vec<Vec<PiiSpan>>) -> (labels: Vec<String>)
        requires
            spans@.len() == old(content)@.len(),
        ensures
            final(content)@.len() == old(content)@.len(),
            forall|i: int|
                0 <= i < old(content)@.len() ==> match #[trigger] old(content)@[i] {
                    Content::Text { text } => final(content)@[i] matches Content::Text { text: t } && t@ == spec_mask(
                        text@,
                        det_spans(self.markers@, text@) + valid_model_spans(text@, spans@[i]@),
                    ),
                    other => final(content)@[i] == other,
                },
            views(labels@) == part_labels(self.markers@, old(content)@, spans@),
    {
        let ghost orig = content@;
        let mut labels: Vec<String> = Vec::new();
        let mut i: usize = 0;
        while i < content.len()
            invariant
                i <= content@.len(),
                content@.len() == orig.len(),
                spans@.len() == orig.len(),
                forall|j: int| i <= j < orig.len() ==> content@[j] == orig[j],
                forall|j: int|
                    0 <= j < i ==> match #[trigger] orig[j] {
                        Content::Text { text } => content@[j] matches Content::Text { text: t } && t@ == spec_mask(
                            text@,
                            det_spans(self.markers@, text@) + valid_model_spans(text@, spans@[j]@),
                        ),
                        other => content@[j] == other,
                    },
                views(labels@) == part_labels(self.markers@, orig.take(i as int), spans@),
            decreases content@.len() - i,
        {
            proof {
                assert(orig.take(i + 1).drop_last() =~= orig.take(i as int));
                assert(orig.take(i + 1).last() == orig[i as int]);
            }
            let replacement = match &content[i] {
                Content::Text { text } => {
                    let (scrubbed, findings) = self.redact_with_model(text.as_str(), &spans[i]);
                    push_labels(&mut labels, &findings);
                    Some(scrubbed)
                },
                _ => {
                    assert(views(labels@) =~= views(labels@) + Seq::<Seq<char>>::empty());
                    None
                },
            };
            match replacement {
                Some(t) => {
                    content.set(i, Content::Text { text: t });
                },
                None => {},
            }
            i = i + 1;
        }
        assert(orig.take(orig.len() as int) =~= orig);
        labels
    }
}

/// No findings, no change: when no span is found the text comes back exactly as it was.
pub proof fn lemma_no_findings_no_change(t: Seq<char>, spans: Seq<Tagged>)
    requires
        findings_of(spans).len() == 0,
    ensures
        spec_mask(t, spans) == t,
{
    assert(spans.len() == 0);
    assert(positions(spans) =~= Seq::<(int, int)>::empty());
    assert(sort_by_start(positions(spans)) =~= Seq::<(int, int)>::empty());
    assert(merge_spans(sort_by_start(positions(spans))) =~= Seq::<(int, int)>::empty());
    assert(t.subrange(0, t.len() as int) =~= t);
}

/// The classifier can only add: on the model-assisted path every deterministic finding is still
/// reported, first and in order, and the model's findings come after them.
pub proof fn lemma_model_only_adds(markers: Seq<String>, t: Seq<char>, ms: Seq<PiiSpan>)
    ensures
        findings_of(det_spans(markers, t) + valid_model_spans(t, ms)).take(
            det_spans(markers, t).len() as int,
        ) == findings_of(det_spans(markers, t)),
        findings_of(det_spans(markers, t) + valid_model_spans(t, ms)).len() >= findings_of(
            det_spans(markers, t),
        ).len(),
{
    let d = det_spans(markers, t);
    let all = d + valid_model_spans(t, ms);
    assert(findings_of(all).take(d.len() as int) =~= findings_of(d));
}


/// Whether position `p` lies in the span `x` (start inclusive, end exclusive).
pub open spec fn in_span(x: (int, int), p: int) -> bool {
    x.0 <= p < x.1
}

/// Whether position `p` lies in one of the spans.
pub open spec fn covered(s: Seq<(int, int)>, p: int) -> bool {
    exists|i: int| 0 <= i < s.len() && in_span(#[trigger] s[i], p)
}

/// Whether the char at `p` is one the mask replaces: it lies in one of the merged runs of the
/// spans, each of which becomes a single `[REDACTED]` (see [`spec_mask`]).
pub open spec fn hidden(spans: Seq<Tagged>, p: int) -> bool {
    covered(merge_spans(sort_by_start(positions(spans))), p)
}

proof fn lemma_covered_push(s: Seq<(int, int)>, y: (int, int), p: int)
    ensures
        covered(s.push(y), p) == (covered(s, p) || in_span(y, p)),
{
    let r = s.push(y);
    if covered(s, p) {
        let i = choose|i: int| 0 <= i < s.len() && in_span(#[trigger] s[i], p);
        assert(r[i] == s[i]);
    }
    if in_span(y, p) {
        assert(r[s.len() as int] == y);
    }
    if covered(r, p) {
        let i = choose|i: int| 0 <= i < r.len() && in_span(#[trigger] r[i], p);
        if i < s.len() {
            assert(r[i] == s[i]);
        }
    }
}

proof fn lemma_covered_split(s: Seq<(int, int)>, p: int)
    requires
        s.len() > 0,
    ensures
        covered(s, p) == (covered(s.drop_last(), p) || in_span(s.last(), p)),
{
    assert(s =~= s.drop_last().push(s.last()));
    lemma_covered_push(s.drop_last(), s.last(), p);
}

proof fn lemma_insert_cover(s: Seq<(int, int)>, x: (int, int), p: int)
    ensures
        covered(insert_by_start(s, x), p) == (covered(s, p) || in_span(x, p)),
    decreases s.len(),
{
    if s.len() == 0 {
        assert(seq![x] =~= Seq::<(int, int)>::empty().push(x));
        lemma_covered_push(Seq::<(int, int)>::empty(), x, p);
    } else if s.last().0 <= x.0 {
        lemma_covered_push(s, x, p);
    } else {
        lemma_insert_cover(s.drop_last(), x, p);
        lemma_covered_push(insert_by_start(s.drop_last(), x), s.last(), p);
        lemma_covered_split(s, p);
    }
}

proof fn lemma_sort_cover(s: Seq<(int, int)>, p: int)
    ensures
        covered(sort_by_start(s), p) == covered(s, p),
    decreases s.len(),
{
    if s.len() > 0 {
        lemma_sort_cover(s.drop_last(), p);
        lemma_insert_cover(sort_by_start(s.drop_last()), s.last(), p);
        lemma_covered_split(s, p);
    }
}

proof fn lemma_insert_bounded(s: Seq<(int, int)>, x: (int, int), b: int)
    requires
        forall|i: int| 0 <= i < s.len() ==> (#[trigger] s[i]).0 <= b,
        x.0 <= b,
    ensures
        forall|i: int| 0 <= i < insert_by_start(s, x).len() ==> (#[trigger] insert_by_start(s, x)[i]).0 <= b,
        insert_by_start(s, x).len() == s.len() + 1,
    decreases s.len(),
{
    if s.len() > 0 && s.last().0 > x.0 {
        let d = s.drop_last();
        assert forall|i: int| 0 <= i < d.len() implies (#[trigger] d[i]).0 <= b by {
            assert(d[i] == s[i]);
        }
        lemma_insert_bounded(d, x, b);
        let r = insert_by_start(d, x);
        assert forall|i: int| 0 <= i < r.push(s.last()).len() implies (#[trigger] r.push(s.last())[i]).0 <= b by {
            if i < r.len() {
                assert(r.push(s.last())[i] == r[i]);
            }
        }
    } else if s.len() > 0 {
        assert forall|i: int| 0 <= i < s.push(x).len() implies (#[trigger] s.push(x)[i]).0 <= b by {
            if i < s.len() {
                assert(s.push(x)[i] == s[i]);
            }
        }
    }
}

proof fn lemma_insert_sorted(s: Seq<(int, int)>, x: (int, int))
    requires
        sorted_by_start(s),
    ensures
        sorted_by_start(insert_by_start(s, x)),
    decreases s.len(),
{
    if s.len() == 0 {
    } else if s.last().0 <= x.0 {
        let r = s.push(x);
        assert forall|i: int, j: int| 0 <= i < j < r.len() implies #[trigger] r[i].0 <= #[trigger] r[j].0 by {
            assert(r[i] == s[i]);
            if j < s.len() {
                assert(r[j] == s[j]);
            } else {
                assert(s[i].0 <= s[s.len() - 1].0 || i == s.len() - 1);
            }
        }
    } else {
        let d = s.drop_last();
        assert(sorted_by_start(d)) by {
            assert forall|i: int, j: int| 0 <= i < j < d.len() implies #[trigger] d[i].0 <= #[trigger] d[j].0 by {
                assert(d[i] == s[i] && d[j] == s[j]);
            }
        }
        lemma_insert_sorted(d, x);
        assert forall|i: int| 0 <= i < d.len() implies (#[trigger] d[i]).0 <= s.last().0 by {
            assert(d[i] == s[i]);
            assert(s[i].0 <= s[s.len() - 1].0);
        }
        lemma_insert_bounded(d, x, s.last().0);
        let r0 = insert_by_start(d, x);
        let r = r0.push(s.last());
        assert forall|i: int, j: int| 0 <= i < j < r.len() implies #[trigger] r[i].0 <= #[trigger] r[j].0 by {
            assert(r[i] == r0[i]);
            if j < r0.len() {
                assert(r[j] == r0[j]);
            }
        }
    }
}

proof fn lemma_sort_sorted(s: Seq<(int, int)>)
    ensures
        sorted_by_start(sort_by_start(s)),
    decreases s.len(),
{
    if s.len() > 0 {
        lemma_sort_sorted(s.drop_last());
        lemma_insert_sorted(sort_by_start(s.drop_last()), s.last());
    }
}

proof fn lemma_sorted_drop_last(s: Seq<(int, int)>)
    requires
        sorted_by_start(s),
        s.len() > 0,
    ensures
        sorted_by_start(s.drop_last()),
        forall|i: int| 0 <= i < s.drop_last().len() ==> (#[trigger] s.drop_last()[i]).0 <= s.last().0,
{
    let d = s.drop_last();
    assert forall|i: int, j: int| 0 <= i < j < d.len() implies #[trigger] d[i].0 <= #[trigger] d[j].0 by {
        assert(d[i] == s[i] && d[j] == s[j]);
    }
    assert forall|i: int| 0 <= i < d.len() implies (#[trigger] d[i]).0 <= s.last().0 by {
        assert(d[i] == s[i]);
        assert(s[i].0 <= s[s.len() - 1].0);
    }
}

proof fn lemma_merge_last(s: Seq<(int, int)>)
    requires
        sorted_by_start(s),
        s.len() > 0,
    ensures
        merge_spans(s).len() > 0,
        merge_spans(s).last().0 <= s.last().0,
    decreases s.len(),
{
    let d = s.drop_last();
    lemma_sorted_drop_last(s);
    let x = s.last();
    if d.len() > 0 {
        lemma_merge_last(d);
        assert(d.last() == d[d.len() - 1]);
        assert(d[d.len() - 1].0 <= x.0);
        let m = merge_spans(d);
        if x.0 <= m.last().1 {
            let e = if m.last().1 >= x.1 { m.last().1 } else { x.1 };
            assert(merge_spans(s) == m.update(m.len() - 1, (m.last().0, e)));
            assert(merge_spans(s).last() == (m.last().0, e));
        } else {
            assert(merge_spans(s) == m.push(x));
        }
    } else {
        assert(merge_spans(d) =~= Seq::<(int, int)>::empty());
        assert(merge_spans(s) == Seq::<(int, int)>::empty().push(x));
    }
}

proof fn lemma_merge_cover(s: Seq<(int, int)>, p: int)
    requires
        sorted_by_start(s),
    ensures
        covered(merge_spans(s), p) == covered(s, p),
    decreases s.len(),
{
    if s.len() > 0 {
        let d = s.drop_last();
        let x = s.last();
        lemma_sorted_drop_last(s);
        lemma_merge_cover(d, p);
        lemma_covered_split(s, p);
        let m = merge_spans(d);
        if m.len() > 0 && x.0 <= m.last().1 {
            lemma_merge_last(d);
            assert(d.last() == d[d.len() - 1]);
            let e = if m.last().1 >= x.1 { m.last().1 } else { x.1 };
            let r = m.update(m.len() - 1, (m.last().0, e));
            assert(r =~= m.drop_last().push((m.last().0, e)));
            lemma_covered_push(m.drop_last(), (m.last().0, e), p);
            lemma_covered_split(m, p);
        } else {
            lemma_covered_push(m, x, p);
        }
    }
}

/// The chars the mask replaces are exactly those the spans cover: sorting and merging the spans
/// into runs changes which placeholders are written, never which chars are hidden.
pub proof fn lemma_hidden_is_covered(spans: Seq<Tagged>, p: int)
    ensures
        hidden(spans, p) == covered(positions(spans), p),
{
    lemma_sort_sorted(positions(spans));
    lemma_merge_cover(sort_by_start(positions(spans)), p);
    lemma_sort_cover(positions(spans), p);
}

/// Masking is only ever added to: every char the deterministic path hides stays hidden on the
/// model-assisted path, and its findings are the deterministic findings followed by the valid
/// model spans' findings; without model spans the two paths mask the same spans.
pub proof fn lemma_masking_only_adds(markers: Seq<String>, t: Seq<char>, ms: Seq<PiiSpan>, p: int)
    ensures
        hidden(det_spans(markers, t), p) ==> hidden(det_spans(markers, t) + valid_model_spans(t, ms), p),
        findings_of(det_spans(markers, t) + valid_model_spans(t, ms)) == findings_of(det_spans(markers, t))
            + findings_of(valid_model_spans(t, ms)),
        ms.len() == 0 ==> det_spans(markers, t) + valid_model_spans(t, ms) == det_spans(markers, t),
{
    if ms.len() == 0 {
        assert(det_spans(markers, t) + valid_model_spans(t, ms) =~= det_spans(markers, t));
    }
    let d = det_spans(markers, t);
    let all = d + valid_model_spans(t, ms);
    lemma_hidden_is_covered(d, p);
    lemma_hidden_is_covered(all, p);
    if covered(positions(d), p) {
        let i = choose|i: int| 0 <= i < positions(d).len() && in_span(#[trigger] positions(d)[i], p);
        assert(positions(all)[i] == positions(d)[i]);
    }
    assert(findings_of(all) =~= findings_of(d) + findings_of(valid_model_spans(t, ms)));
}

/// One finding masks exactly its own span: the text before it, one `[REDACTED]`, and the text
/// after it, with nothing else changed.
pub proof fn lemma_one_span_masks_its_span(t: Seq<char>, x: Tagged)
    requires
        0 <= x.0 <= x.1 <= t.len(),
    ensures
        spec_mask(t, seq![x]) == t.subrange(0, x.0) + "[REDACTED]"@ + t.subrange(x.1, t.len() as int),
{
    let p = positions(seq![x]);
    assert(p =~= seq![(x.0, x.1)]);
    assert(p.drop_last() =~= Seq::<(int, int)>::empty());
    assert(sort_by_start(p.drop_last()) =~= Seq::<(int, int)>::empty());
    assert(sort_by_start(p) =~= seq![(x.0, x.1)]);
    let m = seq![(x.0, x.1)];
    assert(m.drop_last() =~= Seq::<(int, int)>::empty());
    assert(merge_spans(m.drop_last()) =~= Seq::<(int, int)>::empty());
    assert(merge_spans(m) =~= seq![(x.0, x.1)]);
    assert(m.drop_first() =~= Seq::<(int, int)>::empty());
    assert(mask_from(t, m, 0) == t.subrange(0, x.0) + "[REDACTED]"@ + mask_from(t, m.drop_first(), x.1));
}

} // verus!
