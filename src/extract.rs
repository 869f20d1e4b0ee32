//! Extraction of a semantic version from a free-form tag or release name.
use vstd::prelude::*;
use vstd::string::*;
use crate::model::is_digit;

verus! {

/// `s` with each occurrence of `pat`, found left to right without overlap,
/// replaced by `rep`.
pub open spec fn replace_all(s: Seq<char>, pat: Seq<char>, rep: Seq<char>) -> Seq<char>
    decreases s.len(),
{
    if pat.len() == 0 || s.len() < pat.len() {
        s
    } else if s.subrange(0, pat.len() as int) == pat {
        rep + replace_all(s.subrange(pat.len() as int, s.len() as int), pat, rep)
    } else {
        seq![s[0]] + replace_all(s.subrange(1, s.len() as int), pat, rep)
    }
}

/// Pre-release markers spelled `.Beta` and `.RC` become `-beta` and `-rc`.
pub open spec fn normalize(s: Seq<char>) -> Seq<char> {
    replace_all(replace_all(s, ".Beta"@, "-beta"@), ".RC"@, "-rc"@)
}

/// Whether `c` may stand in a pre-release tag: a lower-case ASCII letter or a digit.
pub open spec fn is_tag_char(c: char) -> bool {
    ('a' <= c && c <= 'z') || is_digit(c)
}

/// The end of the run of digits that starts at `i`.
pub open spec fn digits_end(s: Seq<char>, i: int) -> int
    decreases s.len() - i,
{
    if i < 0 || i >= s.len() || !is_digit(s[i]) {
        i
    } else {
        digits_end(s, i + 1)
    }
}

/// The end of the run of tag characters that starts at `i`.
pub open spec fn tag_end(s: Seq<char>, i: int) -> int
    decreases s.len() - i,
{
    if i < 0 || i >= s.len() || !is_tag_char(s[i]) {
        i
    } else {
        tag_end(s, i + 1)
    }
}

/// Whether the run of digits `s[i..j]` has no leading zero: it is `0` or
/// starts with another digit.
pub open spec fn canonical_numeral(s: Seq<char>, i: int, j: int) -> bool {
    s[i] != '0' || j == i + 1
}

/// Whether the run of tag characters `s[i..j]` is a numeral with a leading
/// zero, which no semantic version holds.
pub open spec fn zero_padded_tag(s: Seq<char>, i: int, j: int) -> bool {
    j > i + 1 && s[i] == '0' && digits_end(s, i) == j
}

/// The end of the `MAJOR.MINOR.PATCH` core that starts at `i`, if one does.
/// Each number is a whole run of digits, without a leading zero.
pub open spec fn core_end(s: Seq<char>, i: int) -> Option<int> {
    let a = digits_end(s, i);
    let b = digits_end(s, a + 1);
    let c = digits_end(s, b + 1);
    if 0 <= i < a < s.len() && s[a] == '.' && a + 1 < b < s.len() && s[b] == '.' && b + 1 < c
        && canonical_numeral(s, i, a) && canonical_numeral(s, a + 1, b) && canonical_numeral(
        s,
        b + 1,
        c,
    ) {
        Some(c)
    } else {
        None
    }
}

/// The end of the version (core and optional `-tag`) that starts at `i`, if one does.
/// Each run of digits or tag characters is taken whole; a tag that is a
/// numeral with a leading zero is not taken.
pub open spec fn version_end(s: Seq<char>, i: int) -> Option<int> {
    match core_end(s, i) {
        Some(c) => if c + 1 < s.len() && s[c] == '-' && is_tag_char(s[c + 1]) && !zero_padded_tag(
            s,
            c + 1,
            tag_end(s, c + 1),
        ) {
            Some(tag_end(s, c + 1))
        } else {
            Some(c)
        },
        None => None,
    }
}

/// The leftmost position at or after `i` where a version starts, with its end.
pub open spec fn first_version(s: Seq<char>, i: int) -> Option<(int, int)>
    decreases s.len() - i,
{
    if i < 0 || i >= s.len() {
        None
    } else {
        match version_end(s, i) {
            Some(e) => Some((i, e)),
            None => first_version(s, i + 1),
        }
    }
}

/// The version that a raw tag or release name holds: after normalizing the
/// pre-release markers, the first embedded `MAJOR.MINOR.PATCH[-tag]`.
pub open spec fn extracted(raw: Seq<char>) -> Option<Seq<char>> {
    let s = normalize(raw);
    match first_version(s, 0) {
        Some((b, e)) => Some(s.subrange(b, e)),
        None => None,
    }
}

fn chars_of(s: &str) -> (r: Vec<char>)
    ensures
        r@ == s@,
{
    let n = s.unicode_len();
    let mut r: Vec<char> = Vec::new();
    let mut i: usize = 0;
    while i < n
        invariant
            n == s@.len(),
            i <= n,
            r@ == s@.subrange(0, i as int),
        decreases n - i,
    {
        r.push(s.get_char(i));
        i = i + 1;
        assert(r@ =~= s@.subrange(0, i as int));
    }
    assert(r@ =~= s@);
    r
}

fn occurs_at(s: &Vec<char>, i: usize, pat: &Vec<char>) -> (r: bool)
    requires
        i + pat@.len() <= s@.len(),
    ensures
        r == (s@.subrange(i as int, i + pat@.len()) == pat@),
{
    let sl = s.len();
    let mut k: usize = 0;
    while k < pat.len()
        invariant
            sl == s@.len(),
            i + pat@.len() <= s@.len(),
            k <= pat@.len(),
            forall|j: int| 0 <= j < k ==> s@[i + j] == pat@[j],
        decreases pat@.len() - k,
    {
        if s[i + k] != pat[k] {
            assert(s@.subrange(i as int, i + pat@.len())[k as int] != pat@[k as int]);
            return false;
        }
        k = k + 1;
    }
    assert(s@.subrange(i as int, i + pat@.len()) =~= pat@);
    true
}

/// `s` with each occurrence of `pat`, left to right, replaced by `rep`.
pub fn replace_all_exec(s: &str, pat: &str, rep: &str) -> (r: String)
    ensures
        r@ == replace_all(s@, pat@, rep@),
{
    let cs = chars_of(s);
    let ps = chars_of(pat);
    let n = cs.len();
    let m = ps.len();
    let mut out = String::new();
    if m == 0 {
        out.append(s);
        assert(out@ =~= s@);
        return out;
    }
    let mut i: usize = 0;
    assert(s@.subrange(0, n as int) =~= s@);
    assert(out@ + replace_all(s@, pat@, rep@) =~= replace_all(s@, pat@, rep@));
    while m <= n - i
        invariant
            cs@ == s@,
            ps@ == pat@,
            n == s@.len(),
            m == pat@.len(),
            m > 0,
            i <= n,
            out@ + replace_all(s@.subrange(i as int, n as int), pat@, rep@) == replace_all(
                s@,
                pat@,
                rep@,
            ),
        decreases n - i,
    {
        let ghost rest = s@.subrange(i as int, n as int);
        if occurs_at(&cs, i, &ps) {
            assert(rest.subrange(0, m as int) =~= s@.subrange(i as int, i + m));
            assert(rest.subrange(m as int, rest.len() as int) =~= s@.subrange(i + m, n as int));
            out.append(rep);
            i = i + m;
            assert(out@ + replace_all(s@.subrange(i as int, n as int), pat@, rep@) =~= replace_all(
                s@,
                pat@,
                rep@,
            ));
        } else {
            assert(rest.subrange(0, m as int) =~= s@.subrange(i as int, i + m));
            assert(rest.subrange(1, rest.len() as int) =~= s@.subrange(i + 1, n as int));
            let one = s.substring_char(i, i + 1);
            assert(one@ =~= seq![rest[0]]);
            out.append(one);
            i = i + 1;
            assert(out@ + replace_all(s@.subrange(i as int, n as int), pat@, rep@) =~= replace_all(
                s@,
                pat@,
                rep@,
            ));
        }
    }
    let tail = s.substring_char(i, n);
    assert(replace_all(tail@, pat@, rep@) == tail@);
    out.append(tail);
    assert(out@ =~= replace_all(s@, pat@, rep@));
    out
}

fn is_digit_exec(c: char) -> (r: bool)
    ensures
        r == is_digit(c),
{
    '0' <= c && c <= '9'
}

fn is_tag_char_exec(c: char) -> (r: bool)
    ensures
        r == is_tag_char(c),
{
    ('a' <= c && c <= 'z') || ('0' <= c && c <= '9')
}

fn digits_end_exec(s: &Vec<char>, i: usize) -> (r: usize)
    requires
        i <= s@.len(),
    ensures
        r as int == digits_end(s@, i as int),
        i <= r <= s@.len(),
{
    let mut j = i;
    while j < s.len() && is_digit_exec(s[j])
        invariant
            i <= j <= s@.len(),
            digits_end(s@, i as int) == digits_end(s@, j as int),
        decreases s@.len() - j,
    {
        j = j + 1;
    }
    j
}

fn tag_end_exec(s: &Vec<char>, i: usize) -> (r: usize)
    requires
        i <= s@.len(),
    ensures
        r as int == tag_end(s@, i as int),
        i <= r <= s@.len(),
{
    let mut j = i;
    while j < s.len() && is_tag_char_exec(s[j])
        invariant
            i <= j <= s@.len(),
            tag_end(s@, i as int) == tag_end(s@, j as int),
        decreases s@.len() - j,
    {
        j = j + 1;
    }
    j
}

fn version_end_exec(s: &Vec<char>, i: usize) -> (r: Option<usize>)
    requires
        i < s@.len(),
    ensures
        r matches Some(e) ==> version_end(s@, i as int) == Some(e as int) && i < e <= s@.len(),
        r is None ==> version_end(s@, i as int) is None,
{
    let n = s.len();
    let a = digits_end_exec(s, i);
    if !(i < a && a < n && s[a] == '.') {
        return None;
    }
    let b = digits_end_exec(s, a + 1);
    if !(a + 1 < b && b < n && s[b] == '.') {
        return None;
    }
    let c = digits_end_exec(s, b + 1);
    if !(b + 1 < c) {
        return None;
    }
    if !((s[i] != '0' || a == i + 1) && (s[a + 1] != '0' || b == a + 2) && (s[b + 1] != '0' || c
        == b + 2)) {
        return None;
    }
    if c < n && c + 1 < n && s[c] == '-' && is_tag_char_exec(s[c + 1]) {
        let t = tag_end_exec(s, c + 1);
        let d = digits_end_exec(s, c + 1);
        if t > c + 2 && s[c + 1] == '0' && d == t {
            Some(c)
        } else {
            Some(t)
        }
    } else {
        Some(c)
    }
}

/// The version that a tag or release name holds, if any: `.Beta` and `.RC`
/// become `-beta` and `-rc`, then the first embedded `MAJOR.MINOR.PATCH`
/// with its optional `-tag` is taken.
pub fn extract_version_string(raw: &str) -> (r: Option<String>)
    ensures
        r matches Some(x) ==> extracted(raw@) == Some(x@),
        r is None ==> extracted(raw@) is None,
{
    let step = replace_all_exec(raw, ".Beta", "-beta");
    let norm = replace_all_exec(step.as_str(), ".RC", "-rc");
    let cs = chars_of(norm.as_str());
    let n = cs.len();
    let mut i: usize = 0;
    while i < n
        invariant
            cs@ == norm@,
            norm@ == normalize(raw@),
            n == norm@.len(),
            i <= n,
            first_version(norm@, 0) == first_version(norm@, i as int),
        decreases n - i,
    {
        match version_end_exec(&cs, i) {
            Some(e) => {
                let v = norm.as_str().substring_char(i, e);
                return Some(String::from_str(v));
            },
            None => {
                i = i + 1;
            },
        }
    }
    None
}

/// Whether every character of `d` is an ASCII digit.
pub open spec fn all_digits(d: Seq<char>) -> bool {
    forall|k: int| 0 <= k < d.len() ==> is_digit(#[trigger] d[k])
}

/// Whether every character of `t` is a tag character.
pub open spec fn all_tag_chars(t: Seq<char>) -> bool {
    forall|k: int| 0 <= k < t.len() ==> is_tag_char(#[trigger] t[k])
}

/// The text `d1.d2.d3`, followed by `-tag` when `tag` is not empty.
pub open spec fn version_token(
    d1: Seq<char>,
    d2: Seq<char>,
    d3: Seq<char>,
    tag: Seq<char>,
) -> Seq<char> {
    let core = d1 + "."@ + d2 + "."@ + d3;
    if tag.len() == 0 { core } else { core + "-"@ + tag }
}

/// Whether text `q` placed right after a token with pre-release `tag` would
/// lengthen the token's last part.
pub open spec fn continues_token(tag: Seq<char>, q: Seq<char>) -> bool {
    q.len() > 0 && if tag.len() == 0 {
        is_digit(q[0]) || (q[0] == '-' && q.len() > 1 && is_tag_char(q[1]))
    } else {
        is_tag_char(q[0])
    }
}

/// Whether `s[i..c]` reads `digits.digits.digits`, with its dots at `a` and `b`,
/// the last run of digits taken whole and no number with a leading zero.
pub open spec fn core_at(s: Seq<char>, i: int, a: int, b: int, c: int) -> bool {
    &&& 0 <= i < a && a + 1 < b && b + 1 < c && c <= s.len() && s[a] == '.' && s[b] == '.'
    &&& forall|k: int| (i <= k < a || a < k < b || b < k < c) ==> #[trigger] is_digit(s[k])
    &&& c == s.len() || !is_digit(s[c])
    &&& canonical_numeral(s, i, a) && canonical_numeral(s, a + 1, b) && canonical_numeral(s, b + 1, c)
}

/// Whether some part of `s` reads `digits.digits.digits`, the last run of
/// digits taken whole, and no number with a leading zero.
pub open spec fn holds_core(s: Seq<char>) -> bool {
    exists|i: int, a: int, b: int, c: int| #[trigger] core_at(s, i, a, b, c)
}

pub(crate) proof fn lemma_digits_end(s: Seq<char>, i: int, j: int)
    requires
        0 <= i <= j <= s.len(),
        forall|k: int| i <= k < j ==> is_digit(#[trigger] s[k]),
        j == s.len() || !is_digit(s[j]),
    ensures
        digits_end(s, i) == j,
    decreases j - i,
{
    if i < j {
        lemma_digits_end(s, i + 1, j);
    }
}

pub(crate) proof fn lemma_tag_end(s: Seq<char>, i: int, j: int)
    requires
        0 <= i <= j <= s.len(),
        forall|k: int| i <= k < j ==> is_tag_char(#[trigger] s[k]),
        j == s.len() || !is_tag_char(s[j]),
    ensures
        tag_end(s, i) == j,
    decreases j - i,
{
    if i < j {
        lemma_tag_end(s, i + 1, j);
    }
}

pub(crate) proof fn lemma_digits_end_bounds(s: Seq<char>, i: int)
    requires
        0 <= i <= s.len(),
    ensures
        i <= digits_end(s, i) <= s.len(),
        forall|k: int| i <= k < digits_end(s, i) ==> is_digit(#[trigger] s[k]),
        digits_end(s, i) < s.len() ==> !is_digit(s[digits_end(s, i)]),
    decreases s.len() - i,
{
    if i < s.len() && is_digit(s[i]) {
        lemma_digits_end_bounds(s, i + 1);
    }
}

pub(crate) proof fn lemma_tag_end_bounds(s: Seq<char>, i: int)
    requires
        0 <= i <= s.len(),
    ensures
        i <= tag_end(s, i) <= s.len(),
        forall|k: int| i <= k < tag_end(s, i) ==> is_tag_char(#[trigger] s[k]),
        tag_end(s, i) < s.len() ==> !is_tag_char(s[tag_end(s, i)]),
    decreases s.len() - i,
{
    if i < s.len() && is_tag_char(s[i]) {
        lemma_tag_end_bounds(s, i + 1);
    }
}

pub(crate) proof fn lemma_first_version_found(s: Seq<char>, k: int)
    requires
        0 <= k,
        first_version(s, k) is Some,
    ensures
        first_version(s, k) matches Some((i, e)) && k <= i < s.len() && version_end(s, i) == Some(e),
    decreases s.len() - k,
{
    if version_end(s, k) is None {
        lemma_first_version_found(s, k + 1);
    }
}

pub(crate) proof fn lemma_first_reaches(s: Seq<char>, k: int, i: int)
    requires
        0 <= k <= i < s.len(),
        version_end(s, i) is Some,
    ensures
        first_version(s, k) is Some,
    decreases i - k,
{
    if k < i && version_end(s, k) is None {
        lemma_first_reaches(s, k + 1, i);
    }
}

proof fn lemma_skip_non_digits(s: Seq<char>, i: int, j: int)
    requires
        0 <= i <= j <= s.len(),
        forall|k: int| i <= k < j ==> !is_digit(#[trigger] s[k]),
    ensures
        first_version(s, i) == first_version(s, j),
    decreases j - i,
{
    if i < j {
        assert(!is_digit(s[i]));
        assert(digits_end(s, i) == i);
        lemma_skip_non_digits(s, i + 1, j);
    }
}

proof fn lemma_found_is_core(s: Seq<char>, i: int)
    requires
        0 <= i,
        first_version(s, i) is Some,
    ensures
        holds_core(s),
    decreases s.len() - i,
{
    if version_end(s, i) is Some {
        let a = digits_end(s, i);
        let b = digits_end(s, a + 1);
        let c = digits_end(s, b + 1);
        lemma_digits_end_bounds(s, i);
        lemma_digits_end_bounds(s, a + 1);
        lemma_digits_end_bounds(s, b + 1);
        assert(core_at(s, i, a, b, c));
    } else {
        lemma_found_is_core(s, i + 1);
    }
}

/// Text whose normalized form has no part that reads `digits.digits.digits`
/// holds no version.
pub proof fn lemma_extract_none(raw: Seq<char>)
    requires
        !holds_core(normalize(raw)),
    ensures
        extracted(raw) is None,
{
    if first_version(normalize(raw), 0) is Some {
        lemma_found_is_core(normalize(raw), 0);
    }
}

/// Text whose normalized form has a part that reads `digits.digits.digits`,
/// with no number with a leading zero, holds a version.
pub proof fn lemma_extract_some(raw: Seq<char>)
    requires
        holds_core(normalize(raw)),
    ensures
        extracted(raw) is Some,
{
    let s = normalize(raw);
    let (i, a, b, c) = choose|i: int, a: int, b: int, c: int| #[trigger] core_at(s, i, a, b, c);
    lemma_digits_end(s, i, a);
    lemma_digits_end(s, a + 1, b);
    lemma_digits_end(s, b + 1, c);
    assert(core_end(s, i) == Some(c));
    lemma_first_reaches(s, 0, i);
}

/// Whether a run of digits has no leading zero.
pub open spec fn no_leading_zero(d: Seq<char>) -> bool {
    d.len() == 1 || d[0] != '0'
}

/// A version token embedded in a tag or release name is extracted exactly,
/// when the text before it holds no digit, the text after it does not
/// lengthen it, and the text holds no `.Beta` or `.RC` marker. Its numbers
/// have no leading zero, nor has its tag where the tag is all digits.
pub proof fn lemma_extract_embedded(
    p: Seq<char>,
    d1: Seq<char>,
    d2: Seq<char>,
    d3: Seq<char>,
    tag: Seq<char>,
    q: Seq<char>,
)
    requires
        d1.len() > 0 && d2.len() > 0 && d3.len() > 0,
        all_digits(d1) && all_digits(d2) && all_digits(d3),
        no_leading_zero(d1) && no_leading_zero(d2) && no_leading_zero(d3),
        all_tag_chars(tag),
        !(tag.len() > 1 && tag[0] == '0' && all_digits(tag)),
        forall|k: int| 0 <= k < p.len() ==> !is_digit(#[trigger] p[k]),
        !continues_token(tag, q),
        normalize(p + version_token(d1, d2, d3, tag) + q) == p + version_token(d1, d2, d3, tag) + q,
    ensures
        extracted(p + version_token(d1, d2, d3, tag) + q) == Some(version_token(d1, d2, d3, tag)),
{
    reveal_strlit(".");
    reveal_strlit("-");
    let v = version_token(d1, d2, d3, tag);
    let s = p + v + q;
    let i = p.len() as int;
    let a = i + d1.len();
    let b = a + 1 + d2.len();
    let c = b + 1 + d3.len();
    let e = if tag.len() == 0 { c } else { c + 1 + tag.len() };
    assert(v.len() == e - i);
    assert forall|k: int| i <= k < e implies s[k] == v[k - i] by {}
    assert forall|k: int| e <= k < s.len() implies s[k] == q[k - e] by {}
    assert forall|k: int| 0 <= k < i implies s[k] == p[k] by {}
    assert forall|k: int| i <= k < a implies is_digit(#[trigger] s[k]) by {
        assert(v[k - i] == d1[k - i]);
    }
    assert(s[a] == '.');
    assert forall|k: int| a + 1 <= k < b implies is_digit(#[trigger] s[k]) by {
        assert(v[k - i] == d2[k - a - 1]);
    }
    assert(s[b] == '.');
    assert forall|k: int| b + 1 <= k < c implies is_digit(#[trigger] s[k]) by {
        assert(v[k - i] == d3[k - b - 1]);
    }
    assert(s[i] == d1[0]);
    assert(s[a + 1] == d2[0]);
    assert(s[b + 1] == d3[0]);
    lemma_skip_non_digits(s, 0, i);
    lemma_digits_end(s, i, a);
    lemma_digits_end(s, a + 1, b);
    if tag.len() == 0 {
        if c < s.len() {
            assert(s[c] == q[0]);
            if q.len() > 1 {
                assert(s[c + 1] == q[1]);
            }
        }
        lemma_digits_end(s, b + 1, c);
        assert(version_end(s, i) == Some(c));
    } else {
        assert(s[c] == '-');
        assert forall|k: int| c + 1 <= k < e implies is_tag_char(#[trigger] s[k]) by {
            assert(v[k - i] == tag[k - c - 1]);
        }
        if e < s.len() {
            assert(s[e] == q[0]);
        }
        lemma_digits_end(s, b + 1, c);
        lemma_tag_end(s, c + 1, e);
        assert(s[c + 1] == tag[0]);
        if tag.len() > 1 && tag[0] == '0' {
            let k = choose|k: int| 0 <= k < tag.len() && !is_digit(#[trigger] tag[k]);
            assert(s[c + 1 + k] == tag[k]);
            lemma_digits_end_bounds(s, c + 1);
            assert(digits_end(s, c + 1) != e);
        }
        assert(version_end(s, i) == Some(e));
    }
    assert(first_version(s, i) == Some((i, e)));
    assert(s.subrange(i, e) =~= v);
}

} // verus!
