//! Dependencies of a release on other mods, and their text form.

use vstd::prelude::*;
use vstd::std_specs::cmp::PartialEqSpecImpl;
use crate::error::ErrorKind;
use crate::text::chars_of;
use crate::types::ModName;
use crate::version::{
    fixup_version,
    fixup_version_spec,
    read_req,
    parse_version_req,
    parse_version_req_spec,
    req_of_text,
    ModVersionReq,
    ReleaseVersion,
};

verus! {

/// The specification of a dependency in the description of a release.
#[derive(Debug, Eq)]
pub struct Dependency {
    /// The name of the mod that is depended on.
    pub name: ModName,
    /// The versions of it that satisfy the dependency.
    pub version: ModVersionReq,
    /// Whether the dependency is required or optional.
    pub required: bool,
}

/// A dependency as a plain value.
pub struct DependencyView {
    pub name: Seq<char>,
    pub version: ModVersionReq,
    pub required: bool,
}

impl View for Dependency {
    type V = DependencyView;

    open spec fn view(&self) -> DependencyView {
        DependencyView { name: self.name@, version: self.version, required: self.required }
    }
}

impl DependencyView {
    /// Whether a mod of the given name and version satisfies the dependency.
    pub open spec fn satisfied_by(self, name: Seq<char>, version: ReleaseVersion) -> bool {
        self.name == name && self.version.matches_spec(version)
    }
}

impl Clone for Dependency {
    fn clone(&self) -> (r: Self)
        ensures
            r@ == self@,
    {
        Dependency { name: self.name.clone(), version: self.version, required: self.required }
    }
}

impl PartialEq for Dependency {
    fn eq(&self, other: &Self) -> (r: bool) {
        self.name == other.name && self.version == other.version && self.required
            == other.required
    }
}

impl PartialEqSpecImpl for Dependency {
    open spec fn obeys_eq_spec() -> bool {
        true
    }

    open spec fn eq_spec(&self, other: &Self) -> bool {
        self@ == other@
    }
}

impl Dependency {
    /// Puts a dependency together.
    pub fn new(name: ModName, version: ModVersionReq, required: bool) -> (r: Self)
        ensures
            r@ == (DependencyView { name: name@, version, required }),
    {
        Dependency { name, version, required }
    }

    /// The name of the mod that is depended on.
    pub fn name(&self) -> (r: &ModName)
        ensures
            r@ == self@.name,
    {
        &self.name
    }

    /// The versions that satisfy the dependency.
    pub fn version(&self) -> (r: &ModVersionReq)
        ensures
            *r == self@.version,
    {
        &self.version
    }

    /// Whether the dependency is required.
    pub fn required(&self) -> (r: bool)
        ensures
            r == self@.required,
    {
        self.required
    }
}

/// The parts of a dependency specifier, as the pattern of specifiers tells them apart.
#[derive(Debug)]
pub struct DependencyCaptures {
    /// The question mark that makes the dependency optional, or nothing.
    pub marker: String,
    /// The name of the mod.
    pub name: String,
    /// The operator and the version together, if the specifier has them.
    pub requirement: Option<String>,
    /// The operator.
    pub operator: Option<String>,
    /// The version text.
    pub version: Option<String>,
}

/// The parts of a dependency specifier as plain values.
pub struct DependencyCapturesView {
    pub marker: Seq<char>,
    pub name: Seq<char>,
    pub requirement: Option<Seq<char>>,
    pub operator: Option<Seq<char>>,
    pub version: Option<Seq<char>>,
}

/// The text in an optional string.
pub open spec fn optional_text(s: Option<String>) -> Option<Seq<char>> {
    match s {
        Some(t) => Some(t@),
        None => None,
    }
}

impl View for DependencyCaptures {
    type V = DependencyCapturesView;

    open spec fn view(&self) -> DependencyCapturesView {
        DependencyCapturesView {
            marker: self.marker@,
            name: self.name@,
            requirement: optional_text(self.requirement),
            operator: optional_text(self.operator),
            version: optional_text(self.version),
        }
    }
}

/// The pattern of dependency specifiers: white space or none, an optional `?`, the name, which
/// holds none of `<`, `>`, `=`, and optionally one of the operators `<`, `<=`, `=`, `>=`, `>`
/// and a version of digits and dots; white space may stand between the parts and at the end.
/// Its groups are the marker, the name, the requirement, its operator and its version.
pub const DEPENDENCY_PATTERN: &'static str =
    r"^\s*(\??)\s*([^<>=]+?)\s*((<|<=|=|>=|>)\s*([\d\.]+))?\s*$";

/// What the groups one to five of the pattern `pattern` capture in `text`: the first two, and
/// each of the others if it took part in the match; or nothing if `pattern` is no pattern,
/// if `text` does not match it, or if one of the first two groups took no part.
pub uninterp spec fn dependency_match(pattern: Seq<char>, text: Seq<char>) -> Option<
    (Seq<char>, Seq<char>, Option<Seq<char>>, Option<Seq<char>>, Option<Seq<char>>),
>;

/// The parts as the tuple that `dependency_match` speaks of.
pub open spec fn captures_tuple(c: Option<DependencyCaptures>) -> Option<
    (Seq<char>, Seq<char>, Option<Seq<char>>, Option<Seq<char>>, Option<Seq<char>>),
> {
    match c {
        Some(c) => Some((c@.marker, c@.name, c@.requirement, c@.operator, c@.version)),
        None => None,
    }
}

/// Matches `text` against `pattern` and hands out what the groups one to five of the
/// pattern captured.
///
/// Trusted: `regex::Regex::new` compiles the pattern, or fails if it is none, and
/// `Regex::captures` returns the groups of the leftmost-first match of the pattern in
/// `text`, or nothing if there is none; `Captures::get` hands out a group if it took part in
/// the match. The result is a function of the pattern and the text.
#[verifier::external_body]
fn dependency_captures(pattern: &str, text: &str) -> (r: Option<DependencyCaptures>)
    ensures
        captures_tuple(r) == dependency_match(pattern@, text@),
{
    let groups = regex::Regex::new(pattern).ok()?.captures(text)?;
    Some(
        DependencyCaptures {
            marker: groups.get(1)?.as_str().to_string(),
            name: groups.get(2)?.as_str().to_string(),
            requirement: groups.get(3).map(|m| m.as_str().to_string()),
            operator: groups.get(4).map(|m| m.as_str().to_string()),
            version: groups.get(5).map(|m| m.as_str().to_string()),
        },
    )
}

/// The text of the requirement in the captured parts: `*` where the specifier has none.
pub open spec fn requirement_text(c: DependencyCapturesView) -> Seq<char> {
    match c.requirement {
        Some(t) => t,
        None => seq!['*'],
    }
}

/// The dependency that the captured parts describe, or the requirement text that is no
/// requirement.
///
/// The dependency is required unless the marker is there. Its requirement is parsed from
/// the requirement text; if that fails, from the operator followed by the mended version.
pub open spec fn dependency_of_captures(c: DependencyCapturesView) -> Result<
    DependencyView,
    Seq<char>,
> {
    let required = c.marker.len() == 0;
    match parse_version_req_spec(requirement_text(c)) {
        Some(q) => Ok(DependencyView { name: c.name, version: q, required }),
        None => match (c.operator, c.version) {
            (Some(operator), Some(version)) => {
                let mended = operator + fixup_version_spec(version);
                match req_of_text(mended) {
                    Some(q) => Ok(DependencyView { name: c.name, version: q, required }),
                    None => Err(mended),
                }
            },
            _ => Err(requirement_text(c)),
        },
    }
}

/// Makes a dependency of the captured parts of a specifier. Fails with `ParseVersion` and
/// the offending text when the requirement among the parts cannot be parsed.
pub fn dependency_from_captures(captures: DependencyCaptures) -> (r: Result<
    Dependency,
    ErrorKind,
>)
    ensures
        match r {
            Ok(d) => dependency_of_captures(captures@) == Ok::<DependencyView, Seq<char>>(d@),
            Err(e) => dependency_of_captures(captures@) matches Err(t) && (
            e matches ErrorKind::ParseVersion(x) && x@ == t),
        },
{
    let required = captures.marker.as_str().is_empty();
    let star = String::from_str("*");
    proof {
        reveal_strlit("*");
        assert(star@ =~= seq!['*']);
    }
    let requirement: &String = match &captures.requirement {
        Some(t) => t,
        None => &star,
    };
    match parse_version_req(requirement.as_str()) {
        Ok(q) => Ok(Dependency { name: ModName(captures.name), version: q, required }),
        Err(_) => match (&captures.operator, &captures.version) {
            (Some(operator), Some(version)) => {
                let mut mended = operator.clone();
                let fixed = fixup_version(version.as_str());
                mended.append(fixed.as_str());
                let chars = chars_of(mended.as_str());
                match read_req(&chars) {
                    Some(q) => Ok(Dependency { name: ModName(captures.name), version: q, required }),
                    None => Err(ErrorKind::ParseVersion(mended)),
                }
            },
            _ => Err(ErrorKind::ParseVersion(requirement.clone())),
        },
    }
}

/// What parsing the text `s` as a dependency specifier gives: nothing if `s` does not match
/// the pattern of specifiers, else what the captured parts describe.
pub open spec fn parse_dependency_spec(s: Seq<char>) -> Option<Result<DependencyView, Seq<char>>> {
    match dependency_match(DEPENDENCY_PATTERN@, s) {
        Some(t) => Some(
            dependency_of_captures(
                DependencyCapturesView {
                    marker: t.0,
                    name: t.1,
                    requirement: t.2,
                    operator: t.3,
                    version: t.4,
                },
            ),
        ),
        None => None,
    }
}

/// Parses a dependency specifier: an optional `?` that makes the dependency optional, the
/// name of the mod, and optionally an operator and a version. Fails with `ParseDependency`
/// when the text does not match that pattern, and with `ParseVersion` when the version in it
/// cannot be parsed.
pub fn parse_dependency(s: &str) -> (r: Result<Dependency, ErrorKind>)
    ensures
        match r {
            Ok(d) => parse_dependency_spec(s@) == Some(Ok::<DependencyView, Seq<char>>(d@)),
            Err(ErrorKind::ParseDependency(x)) => parse_dependency_spec(s@).is_none() && x@ == s@,
            Err(ErrorKind::ParseVersion(x)) => parse_dependency_spec(s@) == Some(
                Err::<DependencyView, Seq<char>>(x@),
            ),
            Err(_) => false,
        },
{
    match dependency_captures(DEPENDENCY_PATTERN, s) {
        None => Err(ErrorKind::ParseDependency(String::from_str(s))),
        Some(captures) => {
            proof {
                let t = dependency_match(DEPENDENCY_PATTERN@, s@).unwrap();
                assert(captures@ == (DependencyCapturesView {
                    marker: t.0,
                    name: t.1,
                    requirement: t.2,
                    operator: t.3,
                    version: t.4,
                }));
            }
            dependency_from_captures(captures)
        },
    }
}

} // verus!
