//! Semantic versions: an ordered `major.minor.patch` triple, its total
//! order, and the increment applied to it by a change classification.

use vstd::prelude::*;

use crate::classify::Classification;
use crate::template::{spec_find_char, find_char_from, lemma_find_char_bounds, to_chars, chars_to_string, push_all};

verus! {

/// A semantic version: an ordered triple of non-negative integers.
///
/// The default starting point, used when no matching tag exists, is `0.0.0`.
#[derive(Clone, Copy, Debug, PartialEq, Eq, Structural)]
pub struct Version {
    pub major: u64,
    pub minor: u64,
    pub patch: u64,
}

impl Version {
    /// Strict order on versions: comparison of the triples, major first.
    pub open spec fn spec_lt(self, other: Version) -> bool {
        self.major < other.major
            || (self.major == other.major && self.minor < other.minor)
            || (self.major == other.major && self.minor == other.minor
                && self.patch < other.patch)
    }

    /// Non-strict order on versions.
    pub open spec fn spec_le(self, other: Version) -> bool {
        self.spec_lt(other) || self == other
    }

    pub fn new(major: u64, minor: u64, patch: u64) -> (v: Version)
        ensures
            v == (Version { major, minor, patch }),
    {
        Version { major, minor, patch }
    }

    /// The `0.0.0` version, current when no tag embeds a version.
    pub fn zero() -> (v: Version)
        ensures
            v == (Version { major: 0u64, minor: 0u64, patch: 0u64 }),
    {
        Version { major: 0, minor: 0, patch: 0 }
    }

    /// Whether `self >= other` in the total order on versions.
    pub fn ge(&self, other: &Version) -> (r: bool)
        ensures
            r == other.spec_le(*self),
    {
        if self.major != other.major {
            self.major > other.major
        } else if self.minor != other.minor {
            self.minor > other.minor
        } else {
            self.patch >= other.patch
        }
    }
}

/// The version that a classification turns `v` into: a major bump resets
/// minor and patch, a minor bump resets patch, a patch bump increments
/// patch, and no qualifying change leaves the version untouched.
pub open spec fn spec_apply(v: Version, c: Classification) -> Version {
    match c {
        Classification::Major => Version { major: (v.major + 1) as u64, minor: 0, patch: 0 },
        Classification::Minor => Version { major: v.major, minor: (v.minor + 1) as u64, patch: 0 },
        Classification::Patch => Version { major: v.major, minor: v.minor, patch: (v.patch + 1) as u64 },
        Classification::NoChange => v,
    }
}

/// Whether applying `c` to `v` stays within the machine bounds of the triple.
pub open spec fn apply_fits(v: Version, c: Classification) -> bool {
    match c {
        Classification::Major => v.major < u64::MAX,
        Classification::Minor => v.minor < u64::MAX,
        Classification::Patch => v.patch < u64::MAX,
        Classification::NoChange => true,
    }
}

impl Version {
    /// Produce the next version from the accumulated classification.
    pub fn apply(&self, c: Classification) -> (r: Version)
        requires
            apply_fits(*self, c),
        ensures
            r == spec_apply(*self, c),
    {
        match c {
            Classification::Major => Version { major: self.major + 1, minor: 0, patch: 0 },
            Classification::Minor => Version { major: self.major, minor: self.minor + 1, patch: 0 },
            Classification::Patch => Version { major: self.major, minor: self.minor, patch: self.patch + 1 },
            Classification::NoChange => *self,
        }
    }
}

/// The increment step never decreases a version, and strictly increases it
/// whenever a qualifying commit type was found.
pub proof fn lemma_apply_increases(v: Version, c: Classification)
    requires
        apply_fits(v, c),
    ensures
        v.spec_le(spec_apply(v, c)),
        c != Classification::NoChange ==> v.spec_lt(spec_apply(v, c)),
{
}


/// Numeric value of a decimal digit; any other character maps to `10`,
/// which no digit reaches.
pub open spec fn spec_digit_val(c: char) -> int {
    if c == '0' { 0 } else if c == '1' { 1 } else if c == '2' { 2 } else if c == '3' { 3 }
    else if c == '4' { 4 } else if c == '5' { 5 } else if c == '6' { 6 } else if c == '7' { 7 }
    else if c == '8' { 8 } else if c == '9' { 9 } else { 10 }
}

pub open spec fn spec_is_digit(c: char) -> bool {
    spec_digit_val(c) < 10
}

/// The decimal digit for a value below ten.
pub open spec fn spec_digit_char(d: int) -> char {
    if d == 0 { '0' } else if d == 1 { '1' } else if d == 2 { '2' } else if d == 3 { '3' }
    else if d == 4 { '4' } else if d == 5 { '5' } else if d == 6 { '6' } else if d == 7 { '7' }
    else if d == 8 { '8' } else { '9' }
}

/// Value of a digit string, most significant digit first.
pub open spec fn spec_digits_val(s: Seq<char>) -> int
    decreases s.len(),
{
    if s.len() == 0 {
        0
    } else {
        spec_digits_val(s.drop_last()) * 10 + spec_digit_val(s.last())
    }
}

/// A non-empty string of decimal digits.
pub open spec fn spec_all_digits(s: Seq<char>) -> bool {
    s.len() > 0 && forall|k: int| 0 <= k < s.len() ==> spec_is_digit(s[k])
}

/// `0`, or a digit string that does not begin with `0`.
pub open spec fn spec_no_leading_zero(s: Seq<char>) -> bool {
    s.len() > 0 && (s[0] != '0' || s.len() == 1)
}

/// A version component: digits without a leading zero, fitting in `u64`.
pub open spec fn spec_valid_num(s: Seq<char>) -> bool {
    spec_all_digits(s) && spec_no_leading_zero(s) && spec_digits_val(s) <= u64::MAX as int
}

pub proof fn lemma_digits_val_nonneg(s: Seq<char>)
    ensures
        spec_digits_val(s) >= 0,
    decreases s.len(),
{
    if s.len() > 0 {
        lemma_digits_val_nonneg(s.drop_last());
    }
}

/// A digit string is worth at least any of its prefixes.
pub proof fn lemma_digits_val_mono(s: Seq<char>, m: int)
    requires
        0 <= m <= s.len(),
    ensures
        spec_digits_val(s) >= spec_digits_val(s.take(m)),
    decreases s.len() - m,
{
    if m < s.len() {
        assert(s.take(m + 1).drop_last() =~= s.take(m));
        assert(s.take(m + 1).last() == s[m]);
        lemma_digits_val_nonneg(s.take(m));
        assert(spec_digits_val(s.take(m + 1)) == spec_digits_val(s.take(m)) * 10
            + spec_digit_val(s[m]));
        lemma_digits_val_mono(s, m + 1);
    } else {
        assert(s.take(m) =~= s);
    }
}

/// Numeric value of `c` as a digit, or `10` where `c` is none.
pub fn digit_val(c: char) -> (d: u64)
    ensures
        d as int == spec_digit_val(c),
{
    if c == '0' { 0 } else if c == '1' { 1 } else if c == '2' { 2 } else if c == '3' { 3 }
    else if c == '4' { 4 } else if c == '5' { 5 } else if c == '6' { 6 } else if c == '7' { 7 }
    else if c == '8' { 8 } else if c == '9' { 9 } else { 10 }
}

/// Parse the characters of `v` between `start` and `end` as one decimal
/// version component.
fn parse_component(v: &Vec<char>, start: usize, end: usize) -> (r: Option<u64>)
    requires
        start <= end <= v@.len(),
    ensures
        match r {
            Some(x) => spec_valid_num(v@.subrange(start as int, end as int)) && x as int
                == spec_digits_val(v@.subrange(start as int, end as int)),
            None => !spec_valid_num(v@.subrange(start as int, end as int)),
        },
{
    let ghost sub = v@.subrange(start as int, end as int);
    if start == end {
        return None;
    }
    if v[start] == '0' && end - start > 1 {
        proof {
            assert(sub[0] == v@[start as int]);
        }
        return None;
    }
    let mut acc: u64 = 0;
    let mut k: usize = start;
    proof {
        assert(sub.take(0) =~= Seq::<char>::empty());
    }
    while k < end
        invariant
            start <= k <= end <= v@.len(),
            sub == v@.subrange(start as int, end as int),
            acc as int == spec_digits_val(sub.take(k - start)),
            forall|q: int| 0 <= q < k - start ==> spec_is_digit(sub[q]),
        decreases end - k,
    {
        let c = v[k];
        proof {
            assert(sub[k - start] == v@[k as int]);
        }
        let d = digit_val(c);
        if d >= 10 {
            return None;
        }
        let ghost m = k - start;
        proof {
            assert(sub.take(m + 1).drop_last() =~= sub.take(m as int));
            assert(sub.take(m + 1).last() == sub[m as int]);
            assert(spec_digits_val(sub.take(m + 1)) == acc as int * 10 + d as int);
        }
        if acc > (u64::MAX - d) / 10 {
            // The component would exceed the machine bound, so whatever
            // follows, it is not a valid version number.
            proof {
                assert(acc as int * 10 + d as int > u64::MAX as int) by (nonlinear_arith)
                    requires
                        acc as int > (u64::MAX as int - d as int) / 10,
                        0 <= d < 10,
                ;
                if spec_all_digits(sub) {
                    lemma_digits_val_mono(sub, m + 1);
                }
            }
            return None;
        }
        proof {
            assert(acc as int * 10 + d as int <= u64::MAX as int) by (nonlinear_arith)
                requires
                    acc as int <= (u64::MAX as int - d as int) / 10,
                    0 <= d < 10,
            ;
        }
        acc = acc * 10 + d;
        k = k + 1;
    }
    proof {
        assert(sub.take(end - start) =~= sub);
        assert(spec_all_digits(sub));
        assert(sub[0] == v@[start as int]);
    }
    Some(acc)
}

/// The parse of `s` as a `major.minor.patch` version: the string must
/// split at exactly two dots into three components, each a decimal number
/// without leading zeros that fits the machine word.
pub open spec fn spec_parse_version(s: Seq<char>) -> Option<Version> {
    match spec_find_char(s, '.') {
        None => None,
        Some(i) => {
            let rest = s.skip(i + 1);
            match spec_find_char(rest, '.') {
                None => None,
                Some(d) => {
                    let p0 = s.take(i);
                    let p1 = rest.take(d);
                    let p2 = rest.skip(d + 1);
                    if spec_find_char(p2, '.') is Some {
                        None
                    } else if spec_valid_num(p0) && spec_valid_num(p1) && spec_valid_num(p2) {
                        Some(
                            Version {
                                major: spec_digits_val(p0) as u64,
                                minor: spec_digits_val(p1) as u64,
                                patch: spec_digits_val(p2) as u64,
                            },
                        )
                    } else {
                        None
                    }
                },
            }
        },
    }
}

/// Parse a string as a semantic version.
pub fn parse_version(s: &str) -> (r: Option<Version>)
    ensures
        (r == spec_parse_version(s@)),
{
    let v = to_chars(s);
    let n = v.len();
    proof {
        assert(v@.skip(0) =~= v@);
    }
    let first = find_char_from(&v, '.', 0);
    if first.is_none() {
        return None;
    }
    let i = first.unwrap();
    let ghost rest = v@.skip(i + 1);
    let second = find_char_from(&v, '.', i + 1);
    if second.is_none() {
        proof {
            assert((spec_find_char(rest, '.') is None));
        }
        return None;
    }
    let j = second.unwrap();
    proof {
        assert(spec_find_char(rest, '.') == Some(j - (i + 1)));
        lemma_find_char_bounds(rest, '.');
    }
    let ghost p2 = rest.skip(j - (i + 1) + 1);
    proof {
        assert(p2 =~= v@.skip(j + 1));
    }
    let third = find_char_from(&v, '.', j + 1);
    if third.is_some() {
        return None;
    }
    let a = parse_component(&v, 0, i);
    let b = parse_component(&v, i + 1, j);
    let c = parse_component(&v, j + 1, n);
    proof {
        assert(v@.take(i as int) =~= v@.subrange(0, i as int));
        assert(rest.take(j - (i + 1)) =~= v@.subrange(i + 1 as int, j as int));
        assert(p2 =~= v@.subrange(j + 1 as int, n as int));
    }
    if a.is_some() && b.is_some() && c.is_some() {
        Some(Version { major: a.unwrap(), minor: b.unwrap(), patch: c.unwrap() })
    } else {
        None
    }
}


/// Decimal rendering of a non-negative integer, most significant digit
/// first, without leading zeros (`0` renders as `"0"`).
pub open spec fn spec_u64_digits(n: int) -> Seq<char>
    decreases n,
    when n >= 0
{
    if n < 10 {
        seq![spec_digit_char(n)]
    } else {
        spec_u64_digits(n / 10) + seq![spec_digit_char(n % 10)]
    }
}

/// The decimal digit character for `d`.
fn digit_char(d: u64) -> (c: char)
    requires
        d < 10,
    ensures
        c == spec_digit_char(d as int),
{
    if d == 0 { '0' } else if d == 1 { '1' } else if d == 2 { '2' } else if d == 3 { '3' }
    else if d == 4 { '4' } else if d == 5 { '5' } else if d == 6 { '6' } else if d == 7 { '7' }
    else if d == 8 { '8' } else { '9' }
}

/// Render `n` in decimal.
pub fn u64_to_chars(n: u64) -> (r: Vec<char>)
    ensures
        r@ == spec_u64_digits(n as int),
{
    let mut m: u64 = n;
    let mut tmp: Vec<char> = Vec::new();
    proof {
        assert(spec_u64_digits(m as int) + tmp@.reverse() =~= spec_u64_digits(n as int));
    }
    while m >= 10
        invariant
            spec_u64_digits(n as int) == spec_u64_digits(m as int) + tmp@.reverse(),
        decreases m,
    {
        let ghost pre = tmp@;
        let d = m % 10;
        tmp.push(digit_char(d));
        proof {
            assert(tmp@.reverse() =~= seq![spec_digit_char(d as int)] + pre.reverse());
            assert(spec_u64_digits(m as int) == spec_u64_digits(m as int / 10) + seq![
                spec_digit_char(m as int % 10),
            ]);
            assert(spec_u64_digits(m as int / 10) + tmp@.reverse() =~= spec_u64_digits(m as int)
                + pre.reverse());
        }
        m = m / 10;
    }
    let ghost pre = tmp@;
    tmp.push(digit_char(m));
    proof {
        assert(tmp@.reverse() =~= seq![spec_digit_char(m as int)] + pre.reverse());
        assert(spec_u64_digits(m as int) == seq![spec_digit_char(m as int)]);
        assert(tmp@.reverse() =~= spec_u64_digits(n as int));
    }
    let len = tmp.len();
    let mut out: Vec<char> = Vec::new();
    let mut k: usize = 0;
    while k < len
        invariant
            k <= len,
            len == tmp@.len(),
            tmp@.reverse() == spec_u64_digits(n as int),
            out@ == tmp@.reverse().take(k as int),
        decreases len - k,
    {
        out.push(tmp[len - 1 - k]);
        proof {
            assert(tmp@.reverse()[k as int] == tmp@[len - 1 - k]);
            assert(tmp@.reverse().take(k + 1 as int) == tmp@.reverse().take(k as int).push(
                tmp@.reverse()[k as int],
            ));
        }
        k = k + 1;
    }
    proof {
        assert(tmp@.reverse().take(len as int) =~= tmp@.reverse());
    }
    out
}

/// The canonical `major.minor.patch` rendering of a version.
pub open spec fn spec_version_string(v: Version) -> Seq<char> {
    spec_u64_digits(v.major as int) + seq!['.'] + spec_u64_digits(v.minor as int) + seq!['.']
        + spec_u64_digits(v.patch as int)
}

impl Version {
    /// Render the version as `major.minor.patch`.
    pub fn to_version_string(&self) -> (r: String)
        ensures
            r@ == spec_version_string(*self),
    {
        let mut out = u64_to_chars(self.major);
        out.push('.');
        let minor = u64_to_chars(self.minor);
        push_all(&mut out, &minor);
        out.push('.');
        let patch = u64_to_chars(self.patch);
        push_all(&mut out, &patch);
        proof {
            assert(out@ =~= spec_version_string(*self));
        }
        chars_to_string(&out)
    }
}
} // verus!
