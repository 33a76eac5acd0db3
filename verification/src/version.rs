//! Versions of releases: triples of numbers, their text form and the tolerant parser.

use vstd::prelude::*;
use crate::error::ErrorKind;
use crate::text::{chars_of, skip_spaces, skip_spaces_from, string_of, sub_chars};

verus! {

/// The version of a mod release or of the game: major, minor and patch number, ordered
/// lexicographically.
#[derive(Clone, Copy, Debug, PartialEq, Eq, Structural, PartialOrd, Ord, Hash)]
pub struct ReleaseVersion {
    pub major: u64,
    pub minor: u64,
    pub patch: u64,
}

/// The character of the decimal digit `d`.
pub open spec fn digit_char(d: nat) -> char {
    if d == 0 {
        '0'
    } else if d == 1 {
        '1'
    } else if d == 2 {
        '2'
    } else if d == 3 {
        '3'
    } else if d == 4 {
        '4'
    } else if d == 5 {
        '5'
    } else if d == 6 {
        '6'
    } else if d == 7 {
        '7'
    } else if d == 8 {
        '8'
    } else {
        '9'
    }
}

/// Whether `c` is one of the ten decimal digits.
pub open spec fn is_digit(c: char) -> bool {
    '0' <= c <= '9'
}

/// The decimal numeral of `n`, without leading zeros.
pub open spec fn decimal(n: nat) -> Seq<char>
    decreases n,
{
    if n < 10 {
        seq![digit_char(n)]
    } else {
        decimal(n / 10).push(digit_char(n % 10))
    }
}

/// The number that a digit stands for.
pub open spec fn digit_value(c: char) -> nat {
    if c == '1' {
        1
    } else if c == '2' {
        2
    } else if c == '3' {
        3
    } else if c == '4' {
        4
    } else if c == '5' {
        5
    } else if c == '6' {
        6
    } else if c == '7' {
        7
    } else if c == '8' {
        8
    } else if c == '9' {
        9
    } else {
        0
    }
}

/// The number that a sequence of digits stands for.
pub open spec fn numeral_value(s: Seq<char>) -> nat
    decreases s.len(),
{
    if s.len() == 0 {
        0
    } else {
        numeral_value(s.drop_last()) * 10 + digit_value(s.last())
    }
}

/// A numeral is made of digits only and stands for its number.
pub proof fn lemma_decimal(n: nat)
    ensures
        decimal(n).len() >= 1,
        forall|i: int| 0 <= i < decimal(n).len() ==> is_digit(#[trigger] decimal(n)[i]),
        numeral_value(decimal(n)) == n,
    decreases n,
{
    if n < 10 {
        assert(numeral_value(decimal(n).drop_last()) == 0);
    } else {
        lemma_decimal(n / 10);
        assert(decimal(n).drop_last() =~= decimal(n / 10));
    }
}

/// Three numerals, separated by dots.
pub open spec fn version_text(major: u64, minor: u64, patch: u64) -> Seq<char> {
    decimal(major as nat) + seq!['.'] + decimal(minor as nat) + seq!['.'] + decimal(patch as nat)
}

impl ReleaseVersion {
    /// Whether `self` is older than `other`.
    pub open spec fn lt_spec(self, other: ReleaseVersion) -> bool {
        self.major < other.major || (self.major == other.major && (self.minor < other.minor || (
        self.minor == other.minor && self.patch < other.patch)))
    }

    /// Whether `self` is older than or equal to `other`.
    pub open spec fn le_spec(self, other: ReleaseVersion) -> bool {
        self == other || self.lt_spec(other)
    }

    /// The canonical text of the version: its three numerals, separated by dots.
    pub open spec fn text(self) -> Seq<char> {
        version_text(self.major, self.minor, self.patch)
    }

    /// Makes a version of its three numbers.
    pub fn new(major: u64, minor: u64, patch: u64) -> (r: ReleaseVersion)
        ensures
            r == (ReleaseVersion { major, minor, patch }),
    {
        ReleaseVersion { major, minor, patch }
    }

    /// Tests whether `self` is older than `other`.
    pub fn lt(&self, other: &ReleaseVersion) -> (r: bool)
        ensures
            r == self.lt_spec(*other),
    {
        self.major < other.major || (self.major == other.major && (self.minor < other.minor || (
        self.minor == other.minor && self.patch < other.patch)))
    }

    /// Tests whether `self` is older than or equal to `other`.
    pub fn le(&self, other: &ReleaseVersion) -> (r: bool)
        ensures
            r == self.le_spec(*other),
    {
        (self.major == other.major && self.minor == other.minor && self.patch == other.patch)
            || self.lt(other)
    }

    /// Tests whether `self` and `other` are the same version.
    pub fn same(&self, other: &ReleaseVersion) -> (r: bool)
        ensures
            r == (*self == *other),
    {
        self.major == other.major && self.minor == other.minor && self.patch == other.patch
    }

    /// The canonical text of the version.
    pub fn to_string(&self) -> (r: String)
        ensures
            r@ == self.text(),
    {
        let mut out: Vec<char> = Vec::new();
        push_decimal(self.major, &mut out);
        out.push('.');
        push_decimal(self.minor, &mut out);
        out.push('.');
        push_decimal(self.patch, &mut out);
        string_of(&out)
    }
}

/// The character of the decimal digit `d`.
fn digit_of(d: u64) -> (c: char)
    requires
        d < 10,
    ensures
        c == digit_char(d as nat),
{
    if d == 0 {
        '0'
    } else if d == 1 {
        '1'
    } else if d == 2 {
        '2'
    } else if d == 3 {
        '3'
    } else if d == 4 {
        '4'
    } else if d == 5 {
        '5'
    } else if d == 6 {
        '6'
    } else if d == 7 {
        '7'
    } else if d == 8 {
        '8'
    } else {
        '9'
    }
}

/// Appends the decimal numeral of `n` to `out`.
pub fn push_decimal(n: u64, out: &mut Vec<char>)
    ensures
        final(out)@ == old(out)@ + decimal(n as nat),
    decreases n,
{
    if n >= 10 {
        push_decimal(n / 10, out);
    }
    out.push(digit_of(n % 10));
}

/// The number of characters of `s` before its first dot, or its length if it has none.
pub open spec fn first_dot(s: Seq<char>) -> nat
    decreases s.len(),
{
    if s.len() == 0 || s[0] == '.' {
        0
    } else {
        1 + first_dot(s.subrange(1, s.len() as int))
    }
}

/// `first_dot` stays within the text and stops at a dot.
pub proof fn lemma_first_dot(s: Seq<char>)
    ensures
        first_dot(s) <= s.len(),
        first_dot(s) < s.len() ==> s[first_dot(s) as int] == '.',
        forall|i: int| 0 <= i < first_dot(s) ==> #[trigger] s[i] != '.',
    decreases s.len(),
{
    if !(s.len() == 0 || s[0] == '.') {
        let t = s.subrange(1, s.len() as int);
        lemma_first_dot(t);
        assert forall|i: int| 0 <= i < first_dot(s) implies #[trigger] s[i] != '.' by {
            if i > 0 {
                assert(s[i] == t[i - 1]);
            }
        }
    }
}

/// The first dot of a text that starts with digits and a dot stands behind those digits.
proof fn lemma_first_dot_after(a: Seq<char>, rest: Seq<char>)
    requires
        forall|i: int| 0 <= i < a.len() ==> is_digit(#[trigger] a[i]),
    ensures
        first_dot(a + seq!['.'] + rest) == a.len(),
    decreases a.len(),
{
    let s = a + seq!['.'] + rest;
    if a.len() != 0 {
        let a1 = a.subrange(1, a.len() as int);
        assert(s.subrange(1, s.len() as int) =~= a1 + seq!['.'] + rest);
        assert forall|i: int| 0 <= i < a1.len() implies is_digit(#[trigger] a1[i]) by {}
        lemma_first_dot_after(a1, rest);
    }
}

/// Different versions have different canonical texts.
pub proof fn lemma_text_injective(v: ReleaseVersion, w: ReleaseVersion)
    requires
        v.text() == w.text(),
    ensures
        v == w,
{
    let s = v.text();
    let (a1, b1, c1) = (decimal(v.major as nat), decimal(v.minor as nat), decimal(v.patch as nat));
    let (a2, b2, c2) = (decimal(w.major as nat), decimal(w.minor as nat), decimal(w.patch as nat));
    lemma_decimal(v.major as nat);
    lemma_decimal(v.minor as nat);
    lemma_decimal(v.patch as nat);
    lemma_decimal(w.major as nat);
    lemma_decimal(w.minor as nat);
    lemma_decimal(w.patch as nat);
    let r1 = b1 + seq!['.'] + c1;
    let r2 = b2 + seq!['.'] + c2;
    assert(s =~= a1 + seq!['.'] + r1);
    assert(s =~= a2 + seq!['.'] + r2);
    lemma_first_dot_after(a1, r1);
    lemma_first_dot_after(a2, r2);
    assert(a1 =~= s.subrange(0, a1.len() as int));
    assert(a2 =~= s.subrange(0, a2.len() as int));
    assert(r1 =~= s.subrange(a1.len() as int + 1, s.len() as int));
    assert(r2 =~= s.subrange(a2.len() as int + 1, s.len() as int));
    lemma_first_dot_after(b1, c1);
    lemma_first_dot_after(b2, c2);
    assert(b1 =~= r1.subrange(0, b1.len() as int));
    assert(b2 =~= r2.subrange(0, b2.len() as int));
    assert(c1 =~= r1.subrange(b1.len() as int + 1, r1.len() as int));
    assert(c2 =~= r2.subrange(b2.len() as int + 1, r2.len() as int));
}

/// The version whose canonical text is `s`, if there is one.
pub open spec fn version_of_text(s: Seq<char>) -> Option<ReleaseVersion> {
    if exists|v: ReleaseVersion| v.text() == s {
        Some(choose|v: ReleaseVersion| v.text() == s)
    } else {
        None
    }
}

/// A canonical text is read back as the version it was written from.
pub proof fn lemma_version_of_text(v: ReleaseVersion)
    ensures
        version_of_text(v.text()) == Some(v),
{
    let w = choose|w: ReleaseVersion| w.text() == v.text();
    lemma_text_injective(w, v);
}

/// Parses `text` as a semantic version and hands out its numbers, its pre-release tag and its
/// build metadata.
///
/// Trusted: `semver::Version::parse` accepts three decimal numerals without leading zeros, each
/// at most `u64::MAX`, separated by dots, optionally followed by `-` and a non-empty pre-release
/// tag and by `+` and non-empty build metadata, and nothing else. So it returns a version with
/// neither tag nor metadata exactly for the canonical text of that version's three numbers.
#[verifier::external_body]
fn semver_parse(text: &str) -> (r: Option<(u64, u64, u64, String, String)>)
    ensures
        r matches Some(p) ==> (p.3@.len() == 0 && p.4@.len() == 0 ==> version_text(p.0, p.1, p.2)
            == text@),
        r.is_none() || version_of_text(text@).is_none() || (r matches Some(p)
            && version_of_text(text@) matches Some(v) && p.0 == v.major && p.1 == v.minor && p.2
            == v.patch && p.3@.len() == 0 && p.4@.len() == 0),
        r.is_none() ==> version_of_text(text@).is_none(),
{
    match semver::Version::parse(text) {
        Ok(v) => Some(
            (v.major, v.minor, v.patch, v.pre.as_str().to_string(), v.build.as_str().to_string()),
        ),
        Err(_) => None,
    }
}

/// Reads `text` as the canonical text of a version.
pub fn parse_canonical(text: &str) -> (r: Option<ReleaseVersion>)
    ensures
        r == version_of_text(text@),
{
    match semver_parse(text) {
        Some((major, minor, patch, pre, build)) => {
            if pre.as_str().is_empty() && build.as_str().is_empty() {
                let v = ReleaseVersion { major, minor, patch };
                proof {
                    lemma_version_of_text(v);
                }
                Some(v)
            } else {
                None
            }
        },
        None => {
            None
        },
    }
}

/// `part` without the zeros at its start.
pub open spec fn strip_zeros(part: Seq<char>) -> Seq<char>
    decreases part.len(),
{
    if part.len() > 0 && part[0] == '0' {
        strip_zeros(part.subrange(1, part.len() as int))
    } else {
        part
    }
}

/// One component of a version text, mended: leading zeros are stripped and an empty result
/// becomes `0`; the first component keeps one zero in front if it began with one.
pub open spec fn fix_component(part: Seq<char>, first: bool) -> Seq<char> {
    let stripped = strip_zeros(part);
    if first && part.len() > 0 && part[0] == '0' {
        seq!['0'] + stripped
    } else if stripped.len() == 0 {
        seq!['0']
    } else {
        stripped
    }
}

/// The components of `s` between its dots, each mended and joined by dots again. `first` says
/// whether `s` starts with the first component of the whole text.
pub open spec fn fixup_from(s: Seq<char>, first: bool) -> Seq<char>
    decreases s.len(),
{
    let i = first_dot(s) as int;
    if i >= s.len() {
        fix_component(s, first)
    } else {
        fix_component(s.subrange(0, i), first) + seq!['.'] + fixup_from(
            s.subrange(i + 1, s.len() as int),
            false,
        )
    }
}

/// The text `s` with each of its dot-separated components mended.
pub open spec fn fixup_version_spec(s: Seq<char>) -> Seq<char> {
    fixup_from(s, true)
}

/// Appends to `out` the mended components of `chars` from position `start` on.
fn fixup_into(chars: &Vec<char>, start: usize, first: bool, out: &mut Vec<char>)
    requires
        start <= chars.len(),
    ensures
        final(out)@ == old(out)@ + fixup_from(chars@.subrange(start as int, chars.len() as int), first),
    decreases chars.len() - start,
{
    let ghost s = chars@.subrange(start as int, chars.len() as int);
    let n = chars.len();
    // The end of this component.
    let mut end = start;
    proof {
        assert(s.subrange(0, s.len() as int) =~= s);
    }
    while end < n && chars[end] != '.'
        invariant
            start <= end <= n,
            n == chars.len(),
            s == chars@.subrange(start as int, chars.len() as int),
            first_dot(s) == (end - start) + first_dot(s.subrange(end - start, s.len() as int)),
        decreases n - end,
    {
        proof {
            let t = s.subrange(end - start, s.len() as int);
            assert(t.subrange(1, t.len() as int) =~= s.subrange(end + 1 - start, s.len() as int));
        }
        end += 1;
    }
    let ghost part = s.subrange(0, end - start);
    // The component without its leading zeros.
    let mut from = start;
    proof {
        assert(part =~= chars@.subrange(start as int, end as int));
    }
    while from < end && chars[from] == '0'
        invariant
            start <= from <= end <= n,
            n == chars.len(),
            part == chars@.subrange(start as int, end as int),
            strip_zeros(part) == strip_zeros(chars@.subrange(from as int, end as int)),
        decreases end - from,
    {
        proof {
            let t = chars@.subrange(from as int, end as int);
            assert(t.subrange(1, t.len() as int) =~= chars@.subrange(from + 1, end as int));
        }
        from += 1;
    }
    let ghost before = out@;
    if first && start < end && chars[start] == '0' {
        out.push('0');
        let mut i = from;
        while i < end
            invariant
                from <= i <= end <= chars.len(),
                out@ == before + seq!['0'] + chars@.subrange(from as int, i as int),
            decreases end - i,
        {
            out.push(chars[i]);
            i += 1;
        }
    } else if from == end {
        out.push('0');
    } else {
        let mut i = from;
        while i < end
            invariant
                from <= i <= end <= chars.len(),
                out@ == before + chars@.subrange(from as int, i as int),
            decreases end - i,
        {
            out.push(chars[i]);
            i += 1;
        }
    }
    if end < n {
        out.push('.');
        proof {
            assert(chars@.subrange(end + 1, chars.len() as int) =~= s.subrange(
                first_dot(s) as int + 1,
                s.len() as int,
            ));
        }
        fixup_into(chars, end + 1, false, out);
    }
}

/// Mends a version text that the strict parser refuses: every dot-separated component loses
/// its leading zeros, and a component left empty becomes `0`. A first component that began
/// with a zero keeps one zero in front.
pub fn fixup_version(s: &str) -> (r: String)
    ensures
        r@ == fixup_version_spec(s@),
{
    let chars = chars_of(s);
    let mut out: Vec<char> = Vec::new();
    proof {
        assert(chars@.subrange(0, chars.len() as int) =~= chars@);
    }
    fixup_into(&chars, 0, true, &mut out);
    string_of(&out)
}

/// How many dots `s` holds.
pub open spec fn count_dots(s: Seq<char>) -> nat
    decreases s.len(),
{
    if s.len() == 0 {
        0
    } else if s.last() == '.' {
        count_dots(s.drop_last()) + 1
    } else {
        count_dots(s.drop_last())
    }
}

/// The text `s` with what it lacks of three dot-separated components added as `0`: a text
/// of one component gets `.0.0` behind it, one of two components gets `.0`, and any other
/// stays as it is.
pub open spec fn padded(s: Seq<char>) -> Seq<char> {
    if count_dots(s) == 0 {
        s + seq!['.', '0', '.', '0']
    } else if count_dots(s) == 1 {
        s + seq!['.', '0']
    } else {
        s
    }
}

/// Adds to `chars` what they lack of three dot-separated components, as `0`.
pub fn pad_version(chars: &Vec<char>) -> (r: Vec<char>)
    ensures
        r@ == padded(chars@),
{
    let mut out: Vec<char> = Vec::new();
    let mut dots: usize = 0;
    let mut i: usize = 0;
    while i < chars.len()
        invariant
            i <= chars.len(),
            out@ == chars@.subrange(0, i as int),
            dots == count_dots(chars@.subrange(0, i as int)),
            dots <= i,
        decreases chars.len() - i,
    {
        proof {
            let now = chars@.subrange(0, i + 1);
            assert(now.drop_last() =~= chars@.subrange(0, i as int));
            assert(now.last() == chars@[i as int]);
        }
        if chars[i] == '.' {
            dots += 1;
        }
        out.push(chars[i]);
        proof {
            assert(out@ =~= chars@.subrange(0, i + 1));
        }
        i += 1;
    }
    proof {
        assert(chars@.subrange(0, chars.len() as int) =~= chars@);
    }
    if dots == 0 {
        out.push('.');
        out.push('0');
        out.push('.');
        out.push('0');
        proof {
            assert(out@ =~= chars@ + seq!['.', '0', '.', '0']);
        }
    } else if dots == 1 {
        out.push('.');
        out.push('0');
        proof {
            assert(out@ =~= chars@ + seq!['.', '0']);
        }
    }
    out
}

/// What parsing the text `s` as a version gives: the version that `s` is the canonical text
/// of; failing that, the version that the mended `s` is the canonical text of; failing that,
/// the version that the mended `s` is the canonical text of once missing trailing
/// components are added as `0`.
pub open spec fn parse_version_spec(s: Seq<char>) -> Option<ReleaseVersion> {
    match version_of_text(s) {
        Some(v) => Some(v),
        None => match version_of_text(fixup_version_spec(s)) {
            Some(v) => Some(v),
            None => version_of_text(padded(fixup_version_spec(s))),
        },
    }
}

/// Reads a version: strictly first, then from the mended text, then from the mended text
/// with missing trailing components added as `0`.
pub fn read_version(s: &str) -> (r: Option<ReleaseVersion>)
    ensures
        r == parse_version_spec(s@),
{
    match parse_canonical(s) {
        Some(v) => Some(v),
        None => {
            let fixed = fixup_version(s);
            match parse_canonical(fixed.as_str()) {
                Some(v) => Some(v),
                None => {
                    let fixed_chars = chars_of(fixed.as_str());
                    let full = string_of(&pad_version(&fixed_chars));
                    parse_canonical(full.as_str())
                },
            }
        },
    }
}

/// Parses a version: strictly first, and once more after mending the text if that fails. A
/// mended text of one or two components counts as if the missing components were `0`.
pub fn parse_version(s: &str) -> (r: Result<ReleaseVersion, ErrorKind>)
    ensures
        match r {
            Ok(v) => parse_version_spec(s@) == Some(v),
            Err(e) => parse_version_spec(s@).is_none() && (e matches ErrorKind::ParseVersion(t)
                && t@ == s@),
        },
        forall|v: ReleaseVersion| s@ == v.text() ==> r == Ok::<ReleaseVersion, ErrorKind>(v),
{
    proof {
        assert forall|v: ReleaseVersion| s@ == v.text() implies version_of_text(s@) == Some(v) by {
            lemma_version_of_text(v);
        }
    }
    match read_version(s) {
        Some(v) => Ok(v),
        None => Err(ErrorKind::ParseVersion(String::from_str(s))),
    }
}

/// What a version is asked to be: anything, or in a given relation to a given version.
#[derive(Clone, Copy, Debug, PartialEq, Eq, Structural)]
pub enum VersionReq {
    /// Every version.
    Any,
    /// The given version only.
    Exact(ReleaseVersion),
    /// Versions older than the given one.
    Less(ReleaseVersion),
    /// The given version and older ones.
    LessEq(ReleaseVersion),
    /// The given version and newer ones.
    GreaterEq(ReleaseVersion),
    /// Versions newer than the given one.
    Greater(ReleaseVersion),
}

/// A version requirement.
#[derive(Clone, Copy, Debug, PartialEq, Eq, Structural)]
pub struct ModVersionReq(pub VersionReq);

impl ModVersionReq {
    /// Whether the version `v` meets the requirement.
    pub open spec fn matches_spec(self, v: ReleaseVersion) -> bool {
        match self.0 {
            VersionReq::Any => true,
            VersionReq::Exact(w) => v == w,
            VersionReq::Less(w) => v.lt_spec(w),
            VersionReq::LessEq(w) => v.le_spec(w),
            VersionReq::GreaterEq(w) => w.le_spec(v),
            VersionReq::Greater(w) => w.lt_spec(v),
        }
    }

    /// The text of the requirement: `*`, or the operator and the canonical text of the
    /// version.
    pub open spec fn text(self) -> Seq<char> {
        match self.0 {
            VersionReq::Any => seq!['*'],
            VersionReq::Exact(w) => seq!['='] + w.text(),
            VersionReq::Less(w) => seq!['<'] + w.text(),
            VersionReq::LessEq(w) => seq!['<', '='] + w.text(),
            VersionReq::GreaterEq(w) => seq!['>', '='] + w.text(),
            VersionReq::Greater(w) => seq!['>'] + w.text(),
        }
    }

    /// The requirement that every version meets.
    pub fn any() -> (r: ModVersionReq)
        ensures
            r == ModVersionReq(VersionReq::Any),
    {
        ModVersionReq(VersionReq::Any)
    }

    /// Tests whether the version `v` meets the requirement.
    pub fn matches(&self, v: &ReleaseVersion) -> (r: bool)
        ensures
            r == self.matches_spec(*v),
    {
        match self.0 {
            VersionReq::Any => true,
            VersionReq::Exact(w) => v.same(&w),
            VersionReq::Less(w) => v.lt(&w),
            VersionReq::LessEq(w) => v.le(&w),
            VersionReq::GreaterEq(w) => w.le(v),
            VersionReq::Greater(w) => w.lt(v),
        }
    }

    /// The text of the requirement.
    pub fn to_string(&self) -> (r: String)
        ensures
            r@ == self.text(),
    {
        let mut out: Vec<char> = Vec::new();
        let version = match self.0 {
            VersionReq::Any => {
                out.push('*');
                return string_of(&out);
            },
            VersionReq::Exact(w) => {
                out.push('=');
                w
            },
            VersionReq::Less(w) => {
                out.push('<');
                w
            },
            VersionReq::LessEq(w) => {
                out.push('<');
                out.push('=');
                w
            },
            VersionReq::GreaterEq(w) => {
                out.push('>');
                out.push('=');
                w
            },
            VersionReq::Greater(w) => {
                out.push('>');
                w
            },
        };
        push_decimal(version.major, &mut out);
        out.push('.');
        push_decimal(version.minor, &mut out);
        out.push('.');
        push_decimal(version.patch, &mut out);
        string_of(&out)
    }
}

/// The number of characters that the comparison operator at the start of `s` takes: 2 for
/// `<=` and `>=`, 1 for `<`, `>` and `=`, and 0 if `s` starts with none of them.
pub open spec fn operator_len(s: Seq<char>) -> nat {
    if s.len() >= 2 && (s[0] == '<' || s[0] == '>') && s[1] == '=' {
        2
    } else if s.len() >= 1 && (s[0] == '<' || s[0] == '>' || s[0] == '=') {
        1
    } else {
        0
    }
}

/// The requirement that the operator at the start of `s` makes of the version `v`.
pub open spec fn operator_req(s: Seq<char>, v: ReleaseVersion) -> VersionReq {
    if operator_len(s) == 2 {
        if s[0] == '<' {
            VersionReq::LessEq(v)
        } else {
            VersionReq::GreaterEq(v)
        }
    } else if s[0] == '<' {
        VersionReq::Less(v)
    } else if s[0] == '>' {
        VersionReq::Greater(v)
    } else {
        VersionReq::Exact(v)
    }
}

/// The requirement that `s` is the text of: `*`, or one of the operators `<`, `<=`, `=`,
/// `>=`, `>`, then white space or none, then the text of a version, read as versions are.
pub open spec fn req_of_text(s: Seq<char>) -> Option<ModVersionReq> {
    if s == seq!['*'] {
        Some(ModVersionReq(VersionReq::Any))
    } else if operator_len(s) == 0 {
        None
    } else {
        match parse_version_spec(skip_spaces(s.subrange(operator_len(s) as int, s.len() as int))) {
            Some(v) => Some(ModVersionReq(operator_req(s, v))),
            None => None,
        }
    }
}

/// Reads `chars` as the text of a requirement.
pub fn read_req(chars: &Vec<char>) -> (r: Option<ModVersionReq>)
    ensures
        r == req_of_text(chars@),
{
    let n = chars.len();
    if n == 1 && chars[0] == '*' {
        assert(chars@ =~= seq!['*']);
        return Some(ModVersionReq(VersionReq::Any));
    }
    assert(chars@ != seq!['*']);
    let len: usize = if n >= 2 && (chars[0] == '<' || chars[0] == '>') && chars[1] == '=' {
        2
    } else if n >= 1 && (chars[0] == '<' || chars[0] == '>' || chars[0] == '=') {
        1
    } else {
        0
    };
    if len == 0 {
        return None;
    }
    let start = skip_spaces_from(chars, len);
    let rest = sub_chars(chars, start, n);
    let text = string_of(&rest);
    match read_version(text.as_str()) {
        Some(v) => {
            let req = if len == 2 {
                if chars[0] == '<' {
                    VersionReq::LessEq(v)
                } else {
                    VersionReq::GreaterEq(v)
                }
            } else if chars[0] == '<' {
                VersionReq::Less(v)
            } else if chars[0] == '>' {
                VersionReq::Greater(v)
            } else {
                VersionReq::Exact(v)
            };
            Some(ModVersionReq(req))
        },
        None => None,
    }
}

/// What parsing the text `s` as a requirement gives: the requirement that `s` is the text
/// of; failing that, the one that the mended `s` is the text of.
pub open spec fn parse_version_req_spec(s: Seq<char>) -> Option<ModVersionReq> {
    match req_of_text(s) {
        Some(r) => Some(r),
        None => req_of_text(fixup_version_spec(s)),
    }
}

/// Parses a version requirement: strictly first, and once more after mending the text if
/// that fails.
pub fn parse_version_req(s: &str) -> (r: Result<ModVersionReq, ErrorKind>)
    ensures
        match r {
            Ok(q) => parse_version_req_spec(s@) == Some(q),
            Err(e) => parse_version_req_spec(s@).is_none() && (e matches ErrorKind::ParseVersion(t)
                && t@ == s@),
        },
{
    let chars = chars_of(s);
    match read_req(&chars) {
        Some(q) => Ok(q),
        None => {
            let fixed = fixup_version(s);
            let fixed_chars = chars_of(fixed.as_str());
            match read_req(&fixed_chars) {
                Some(q) => Ok(q),
                None => Err(ErrorKind::ParseVersion(String::from_str(s))),
            }
        },
    }
}

/// Parsing the canonical text of a version gives the version back.
pub proof fn lemma_version_round_trip(v: ReleaseVersion)
    ensures
        parse_version_spec(v.text()) == Some(v),
{
    lemma_version_of_text(v);
}

/// Parsing the text of a requirement gives the requirement back.
pub proof fn lemma_requirement_round_trip(q: ModVersionReq)
    ensures
        parse_version_req_spec(q.text()) == Some(q),
{
    match q.0 {
        VersionReq::Any => {},
        VersionReq::Exact(w) => {
            lemma_requirement_text(seq!['='], w);
        },
        VersionReq::Less(w) => {
            lemma_requirement_text(seq!['<'], w);
        },
        VersionReq::LessEq(w) => {
            lemma_requirement_text(seq!['<', '='], w);
        },
        VersionReq::GreaterEq(w) => {
            lemma_requirement_text(seq!['>', '='], w);
        },
        VersionReq::Greater(w) => {
            lemma_requirement_text(seq!['>'], w);
        },
    }
}

/// What stands behind an operator in the text of a requirement is read as the version
/// that was written there.
proof fn lemma_requirement_text(operator: Seq<char>, w: ReleaseVersion)
    requires
        operator.len() >= 1,
        operator.len() == operator_len(operator),
    ensures
        operator_len(operator + w.text()) == operator.len(),
        (operator + w.text()) != seq!['*'],
        version_of_text(
            skip_spaces(
                (operator + w.text()).subrange(
                    operator.len() as int,
                    (operator + w.text()).len() as int,
                ),
            ),
        ) == Some(w),
        operator_req(operator + w.text(), w) == operator_req(operator, w),
{
    let text = w.text();
    let s = operator + text;
    lemma_decimal(w.major as nat);
    assert(s.subrange(operator.len() as int, s.len() as int) =~= text);
    assert(skip_spaces(text) =~= text);
    lemma_version_of_text(w);
}


/// Numerals hold no dot.
pub proof fn lemma_decimal_dots(n: nat)
    ensures
        count_dots(decimal(n)) == 0,
    decreases n,
{
    lemma_decimal(n);
    lemma_count_dots_digits(decimal(n));
}

/// A text of digits holds no dot.
proof fn lemma_count_dots_digits(s: Seq<char>)
    requires
        forall|i: int| 0 <= i < s.len() ==> is_digit(#[trigger] s[i]),
    ensures
        count_dots(s) == 0,
    decreases s.len(),
{
    if s.len() > 0 {
        assert(is_digit(s[s.len() - 1]));
        lemma_count_dots_digits(s.drop_last());
    }
}

/// The dots of two texts put together are those of the one and those of the other.
pub proof fn lemma_count_dots_add(a: Seq<char>, b: Seq<char>)
    ensures
        count_dots(a + b) == count_dots(a) + count_dots(b),
    decreases b.len(),
{
    if b.len() == 0 {
        assert(a + b =~= a);
    } else {
        assert((a + b).drop_last() =~= a + b.drop_last());
        lemma_count_dots_add(a, b.drop_last());
    }
}

/// The canonical text of a version holds two dots: a text with fewer or more dots is the
/// canonical text of no version.
pub proof fn lemma_text_dots(v: ReleaseVersion)
    ensures
        count_dots(v.text()) == 2,
{
    let a = decimal(v.major as nat);
    let b = decimal(v.minor as nat);
    let c = decimal(v.patch as nat);
    let dot = seq!['.'];
    lemma_decimal_dots(v.major as nat);
    lemma_decimal_dots(v.minor as nat);
    lemma_decimal_dots(v.patch as nat);
    assert(count_dots(dot) == 1) by {
        assert(dot.last() == '.');
        assert(dot.drop_last().len() == 0);
        assert(count_dots(dot.drop_last()) == 0);
    }
    lemma_count_dots_add(a, dot);
    lemma_count_dots_add(a + dot, b);
    lemma_count_dots_add(a + dot + b, dot);
    lemma_count_dots_add(a + dot + b + dot, c);
}

} // verus!
