//! Turning tag and release names into versions.
use vstd::prelude::*;
use vstd::string::*;
use vstd::seq_lib::*;
use std::cmp::Ordering;

use crate::extract::{
    all_digits, all_tag_chars, digits_end, extract_version_string, extracted, first_version,
    is_tag_char, lemma_digits_end, lemma_digits_end_bounds, lemma_first_version_found,
    lemma_tag_end_bounds, no_leading_zero, normalize, tag_end, version_token,
};
use crate::model::{decimal, digit_char, is_digit, version_text, Version};

verus! {

#[verifier::external_type_specification]
#[verifier::external_body]
pub struct ExSemverError(semver::Error);

/// Whether semver accepts `s` as a version.
pub uninterp spec fn semver_accepts(s: Seq<char>) -> bool;

/// Whether `c` may stand in a semver identifier: an ASCII letter, digit or `-`.
pub open spec fn is_identifier_char(c: char) -> bool {
    ('0' <= c && c <= '9') || ('a' <= c && c <= 'z') || ('A' <= c && c <= 'Z') || c == '-'
}

/// A pre-release tag of one identifier that semver accepts (or no tag): letters,
/// digits and `-`, and no leading zero where it is all digits.
pub open spec fn is_plain_prerelease(pre: Seq<char>) -> bool {
    pre.len() == 0 || ((forall|k: int| 0 <= k < pre.len() ==> is_identifier_char(#[trigger] pre[k]))
        && !(pre.len() > 1 && pre[0] == '0' && forall|k: int|
        0 <= k < pre.len() ==> is_digit(#[trigger] pre[k])))
}

/// Whether `t` is the canonical text of a version with a plain pre-release tag
/// (or none) and no build metadata.
pub open spec fn is_plain_version_text(t: Seq<char>) -> bool {
    exists|a: u64, b: u64, c: u64, pre: Seq<char>|
        is_plain_prerelease(pre) && t == #[trigger] version_text(a, b, c, pre, Seq::<char>::empty())
}

/// Relies on semver::Version::parse: it accepts `MAJOR.MINOR.PATCH[-pre][+build]`
/// with no leading zeros in the numbers and none in numeric pre-release
/// identifiers, and keeps the pre-release and build text as written. So a
/// version it returns prints back as the text given, and every canonical
/// `MAJOR.MINOR.PATCH` with a plain pre-release tag is accepted.
#[verifier::external_body]
fn semver_parse(text: &str) -> (r: Result<Version, semver::Error>)
    ensures
        r is Ok == semver_accepts(text@),
        r matches Ok(v) ==> v.spec_text() == text@,
        is_plain_version_text(text@) ==> r is Ok,
{
    semver::Version::parse(text).map(
        |v| Version {
            major: v.major,
            minor: v.minor,
            patch: v.patch,
            pre: v.pre.as_str().to_string(),
            build: v.build.as_str().to_string(),
        },
    )
}

impl Version {
    /// Parses a semantic version. It succeeds exactly where semver accepts the
    /// text, always on a canonical `MAJOR.MINOR.PATCH` with a plain
    /// pre-release tag, and the text of the version returned is the text given.
    pub fn parse(text: &str) -> (r: Result<Version, crate::error::ManifestError>)
        ensures
            r is Ok == semver_accepts(text@),
            is_plain_version_text(text@) ==> r is Ok,
            r matches Ok(v) ==> v.spec_text() == text@,
            r matches Err(e) ==> e matches crate::error::ManifestError::VersionParse { name } && name@ == text@,
    {
        match semver_parse(text) {
            Ok(v) => Ok(v),
            Err(_) => Err(crate::error::ManifestError::VersionParse { name: String::from_str(text) }),
        }
    }
}

/// The order semver gives the versions whose texts are `a` and `b`.
pub uninterp spec fn semver_order(a: Seq<char>, b: Seq<char>) -> Ordering;

/// An order read the other way round.
pub open spec fn flipped(o: Ordering) -> Ordering {
    match o {
        Ordering::Less => Ordering::Greater,
        Ordering::Greater => Ordering::Less,
        Ordering::Equal => Ordering::Equal,
    }
}

/// Relies on semver's `Ord` for semver::Version, on the two versions that
/// semver::Version::parse reads from the texts: a total order, so swapping the
/// texts flips it. The texts parse, so nothing panics.
#[verifier::external_body]
fn semver_cmp(a: &str, b: &str) -> (r: Ordering)
    requires
        semver_accepts(a@),
        semver_accepts(b@),
    ensures
        r == semver_order(a@, b@),
        flipped(r) == semver_order(b@, a@),
{
    let a = semver::Version::parse(a).unwrap();
    let b = semver::Version::parse(b).unwrap();
    a.cmp(&b)
}

/// The canonical texts of a list of versions.
pub open spec fn version_texts(v: Seq<Version>) -> Seq<Seq<char>> {
    v.map_values(|x: Version| x.spec_text())
}

/// Whether each version text comes no later in semver order than the next.
pub open spec fn semver_sorted(t: Seq<Seq<char>>) -> bool {
    forall|k: int| 0 <= k < t.len() - 1 ==> #[trigger] semver_order(t[k], t[k + 1]) != Ordering::Greater
}

fn comes_after(a: &Version, b: &Version) -> (r: bool)
    requires
        semver_accepts(a.spec_text()),
        semver_accepts(b.spec_text()),
    ensures
        r == (semver_order(a.spec_text(), b.spec_text()) == Ordering::Greater),
        r ==> semver_order(b.spec_text(), a.spec_text()) == Ordering::Less,
{
    let ta = a.text();
    let tb = b.text();
    match semver_cmp(ta.as_str(), tb.as_str()) {
        Ordering::Greater => true,
        _ => false,
    }
}

/// Sorts versions into semver order, keeping each of them.
pub fn sort_versions(vs: &Vec<Version>) -> (r: Vec<Version>)
    requires
        forall|k: int| 0 <= k < vs@.len() ==> semver_accepts(#[trigger] vs@[k].spec_text()),
    ensures
        version_texts(r@).to_multiset() == version_texts(vs@).to_multiset(),
        semver_sorted(version_texts(r@)),
        forall|k: int| 0 <= k < r@.len() ==> semver_accepts(#[trigger] r@[k].spec_text()),
{
    broadcast use to_multiset_build, to_multiset_insert;

    let mut out: Vec<Version> = Vec::new();
    let mut i: usize = 0;
    assert(version_texts(out@) =~= Seq::<Seq<char>>::empty());
    assert(version_texts(vs@.subrange(0, 0)) =~= Seq::<Seq<char>>::empty());
    while i < vs.len()
        invariant
            forall|k: int| 0 <= k < vs@.len() ==> semver_accepts(#[trigger] vs@[k].spec_text()),
            i <= vs@.len(),
            version_texts(out@).to_multiset() == version_texts(vs@.subrange(0, i as int)).to_multiset(),
            semver_sorted(version_texts(out@)),
            forall|k: int| 0 <= k < out@.len() ==> semver_accepts(#[trigger] out@[k].spec_text()),
        decreases vs@.len() - i,
    {
        let x = vs[i].duplicate();
        assert(x.spec_text() == vs@[i as int].spec_text());
        let mut j = out.len();
        while j > 0 && comes_after(&out[j - 1], &x)
            invariant
                semver_accepts(x.spec_text()),
                forall|k: int| 0 <= k < out@.len() ==> semver_accepts(#[trigger] out@[k].spec_text()),
                j <= out@.len(),
                j < out@.len() ==> semver_order(x.spec_text(), out@[j as int].spec_text())
                    == Ordering::Less,
            decreases j,
        {
            j = j - 1;
        }
        let ghost t = version_texts(out@);
        let ghost xt = x.spec_text();
        assert(j == 0 || semver_order(t[j - 1], xt) != Ordering::Greater);
        assert(j < t.len() ==> semver_order(xt, t[j as int]) == Ordering::Less);
        out.insert(j, x);
        proof {
            assert(version_texts(out@) =~= t.insert(j as int, xt));
            to_multiset_insert(t, j as int, xt);
            let prev = version_texts(vs@.subrange(0, i as int));
            assert(version_texts(vs@.subrange(0, i + 1)) =~= prev.push(xt));
            to_multiset_build(prev, xt);
            let t2 = version_texts(out@);
            assert forall|k: int| 0 <= k < t2.len() - 1 implies #[trigger] semver_order(
                t2[k],
                t2[k + 1],
            ) != Ordering::Greater by {
                if k + 1 < j {
                    assert(t2[k] == t[k] && t2[k + 1] == t[k + 1]);
                } else if k + 1 == j {
                    assert(t2[k] == t[k] && t2[k + 1] == xt);
                } else if k == j {
                    assert(t2[k] == xt && t2[k + 1] == t[k]);
                } else {
                    let m = k - 1;
                    assert(t2[k] == t[m] && t2[k + 1] == t[m + 1]);
                    assert(semver_order(t[m], t[m + 1]) != Ordering::Greater);
                }
            }
            assert forall|k: int| 0 <= k < out@.len() implies semver_accepts(
                #[trigger] out@[k].spec_text(),
            ) by {
                assert(out@[k].spec_text() == t2[k]);
                if k < j {
                    assert(t2[k] == t[k]);
                } else if k > j {
                    assert(t2[k] == t[k - 1]);
                }
            }
        }
        i = i + 1;
    }
    proof {
        assert(vs@.subrange(0, vs@.len() as int) =~= vs@);
    }
    out
}

/// The versions that a list of names holds, in order: the version each name
/// holds, where it holds one and semver accepts it. Other names are left out.
pub open spec fn parsed_all(names: Seq<Seq<char>>) -> Seq<Seq<char>>
    decreases names.len(),
{
    if names.len() == 0 {
        Seq::empty()
    } else {
        let rest = parsed_all(names.drop_last());
        match extracted(names.last()) {
            Some(x) => if semver_accepts(x) {
                rest.push(x)
            } else {
                rest
            },
            None => rest,
        }
    }
}

/// The text of each name, as a sequence.
pub open spec fn texts(names: Seq<String>) -> Seq<Seq<char>> {
    names.map_values(|s: String| s@)
}

/// Turns the tag or release names of a repository into versions, in semver
/// order. A name that holds no version, or one that semver rejects, is left
/// out; no name fails the list.
pub fn versions_from_names(names: &Vec<String>) -> (vs: Vec<Version>)
    ensures
        version_texts(vs@).to_multiset() == parsed_all(texts(names@)).to_multiset(),
        semver_sorted(version_texts(vs@)),
{
    let mut out: Vec<Version> = Vec::new();
    let mut i: usize = 0;
    while i < names.len()
        invariant
            i <= names@.len(),
            out@.len() == parsed_all(texts(names@.subrange(0, i as int))).len(),
            forall|k: int|
                0 <= k < out@.len() ==> #[trigger] out@[k].spec_text() == parsed_all(
                    texts(names@.subrange(0, i as int)),
                )[k],
            forall|k: int| 0 <= k < out@.len() ==> semver_accepts(#[trigger] out@[k].spec_text()),
        decreases names@.len() - i,
    {
        proof {
            let t = texts(names@.subrange(0, i + 1));
            assert(t.drop_last() =~= texts(names@.subrange(0, i as int)));
            assert(t.last() == names@[i as int]@);
        }
        match extract_version_string(names[i].as_str()) {
            Some(x) => {
                match Version::parse(x.as_str()) {
                    Ok(v) => {
                        out.push(v);
                    },
                    Err(_) => {},
                }
            },
            None => {},
        }
        i = i + 1;
    }
    proof {
        assert(names@.subrange(0, names@.len() as int) =~= names@);
        assert(version_texts(out@) =~= parsed_all(texts(names@)));
    }
    sort_versions(&out)
}

/// The value of a decimal digit.
pub open spec fn digit_value(c: char) -> nat {
    if c == '1' { 1 } else if c == '2' { 2 } else if c == '3' { 3 } else if c == '4' { 4 }
    else if c == '5' { 5 } else if c == '6' { 6 } else if c == '7' { 7 } else if c == '8' { 8 }
    else if c == '9' { 9 } else { 0 }
}

/// The value of a run of decimal digits.
pub open spec fn numeral_value(d: Seq<char>) -> nat
    decreases d.len(),
{
    if d.len() == 0 {
        0
    } else {
        numeral_value(d.drop_last()) * 10 + digit_value(d.last())
    }
}

/// Whether every run of digits in `x` has a value that fits in 64 bits.
pub open spec fn numbers_fit(x: Seq<char>) -> bool {
    forall|k: int, j: int|
        0 <= k <= j <= x.len() && all_digits(x.subrange(k, j)) ==> #[trigger] numeral_value(
            x.subrange(k, j),
        ) <= u64::MAX
}

proof fn lemma_digit(c: char)
    requires
        is_digit(c),
    ensures
        digit_value(c) < 10,
        digit_char(digit_value(c)) == c,
        c != '0' ==> digit_value(c) >= 1,
{
    let u = c as u32;
    assert('0' as u32 <= u <= '9' as u32);
}

proof fn lemma_decimal_of_numeral(d: Seq<char>)
    requires
        d.len() > 0,
        all_digits(d),
        no_leading_zero(d),
    ensures
        decimal(numeral_value(d)) == d,
        d.len() > 1 ==> numeral_value(d) >= 10,
        numeral_value(d) >= 1 || d.len() == 1,
    decreases d.len(),
{
    lemma_digit(d.last());
    if d.len() == 1 {
        assert(d.drop_last().len() == 0);
        assert(numeral_value(d.drop_last()) == 0);
        assert(d.last() == d[0]);
        assert(numeral_value(d) == digit_value(d[0]));
        assert(d =~= seq![d[0]]);
    } else {
        let p = d.drop_last();
        assert(p[0] == d[0]);
        assert(all_digits(p)) by {
            assert forall|k: int| 0 <= k < p.len() implies is_digit(#[trigger] p[k]) by {
                assert(p[k] == d[k]);
            }
        }
        lemma_decimal_of_numeral(p);
        lemma_digit(p[0]);
        if p.len() == 1 {
            assert(numeral_value(p.drop_last()) == 0);
        }
        let m = numeral_value(p);
        let n = numeral_value(d);
        assert(m >= 1);
        assert(n == m * 10 + digit_value(d.last()));
        assert(n / 10 == m && n % 10 == digit_value(d.last())) by (nonlinear_arith)
            requires
                n == m * 10 + digit_value(d.last()),
                digit_value(d.last()) < 10,
        ;
        assert(decimal(n) == decimal(m).push(digit_char(digit_value(d.last()))));
        assert(d =~= p.push(d.last()));
    }
}

/// A version extracted from a tag or release name whose numbers fit in 64
/// bits is the canonical text of a version with a plain pre-release tag, so
/// semver parses it and prints it back unchanged.
pub proof fn lemma_extracted_round_trips(raw: Seq<char>)
    requires
        extracted(raw) matches Some(x) && numbers_fit(x),
    ensures
        extracted(raw) matches Some(x) && is_plain_version_text(x),
{
    reveal_strlit(".");
    reveal_strlit("-");
    let s = normalize(raw);
    lemma_first_version_found(s, 0);
    let (i, e) = first_version(s, 0)->0;
    let x = s.subrange(i, e);
    let a = digits_end(s, i);
    let b = digits_end(s, a + 1);
    let c = digits_end(s, b + 1);
    lemma_digits_end_bounds(s, i);
    lemma_digits_end_bounds(s, a + 1);
    lemma_digits_end_bounds(s, b + 1);
    let d1 = s.subrange(i, a);
    let d2 = s.subrange(a + 1, b);
    let d3 = s.subrange(b + 1, c);
    let tag = if e == c { Seq::<char>::empty() } else { s.subrange(c + 1, e) };
    assert(all_digits(d1) && all_digits(d2) && all_digits(d3)) by {
        assert forall|k: int| 0 <= k < d1.len() implies is_digit(#[trigger] d1[k]) by {
            assert(d1[k] == s[i + k]);
        }
        assert forall|k: int| 0 <= k < d2.len() implies is_digit(#[trigger] d2[k]) by {
            assert(d2[k] == s[a + 1 + k]);
        }
        assert forall|k: int| 0 <= k < d3.len() implies is_digit(#[trigger] d3[k]) by {
            assert(d3[k] == s[b + 1 + k]);
        }
    }
    assert(no_leading_zero(d1) && no_leading_zero(d2) && no_leading_zero(d3));
    if e != c {
        lemma_tag_end_bounds(s, c + 1);
        assert(e == tag_end(s, c + 1));
        assert(all_tag_chars(tag)) by {
            assert forall|k: int| 0 <= k < tag.len() implies is_tag_char(#[trigger] tag[k]) by {
                assert(tag[k] == s[c + 1 + k]);
            }
        }
        if tag.len() > 1 && tag[0] == '0' && all_digits(tag) {
            assert forall|k: int| c + 1 <= k < e implies is_digit(#[trigger] s[k]) by {
                assert(s[k] == tag[k - c - 1]);
            }
            lemma_digits_end(s, c + 1, e);
        }
    }
    assert(x =~= version_token(d1, d2, d3, tag));
    assert(x.subrange(0, a - i) =~= d1);
    assert(x.subrange(a + 1 - i, b - i) =~= d2);
    assert(x.subrange(b + 1 - i, c - i) =~= d3);
    assert(numeral_value(x.subrange(0, a - i)) <= u64::MAX);
    assert(numeral_value(x.subrange(a + 1 - i, b - i)) <= u64::MAX);
    assert(numeral_value(x.subrange(b + 1 - i, c - i)) <= u64::MAX);
    lemma_decimal_of_numeral(d1);
    lemma_decimal_of_numeral(d2);
    lemma_decimal_of_numeral(d3);
    let va = numeral_value(d1) as u64;
    let vb = numeral_value(d2) as u64;
    let vc = numeral_value(d3) as u64;
    assert(is_plain_prerelease(tag));
    assert(x == version_text(va, vb, vc, tag, Seq::<char>::empty()));
}

} // verus!
