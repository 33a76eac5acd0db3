//! Releases as the portal writes them, with versions and dependencies as text, and how they
//! are read.

use vstd::prelude::*;
use crate::dependency::{parse_dependency, parse_dependency_spec, Dependency, DependencyView};
use crate::error::ErrorKind;
use crate::release::{dependency_views, ModRelease};
use crate::types::{ModName, Url};
use crate::version::{parse_version, parse_version_req, parse_version_req_spec, parse_version_spec};

verus! {

/// One release of a mod as the portal writes it.
#[derive(Debug)]
pub struct RawRelease {
    /// The name of the mod.
    pub name: String,
    /// The version of the release.
    pub version: String,
    /// The versions of the game that the release works with.
    pub factorio_version: String,
    /// The dependency specifiers of the release.
    pub dependencies: Vec<String>,
    /// Where the archive of the release is downloaded from, relative to the portal.
    pub download_url: String,
    /// The file name of the archive.
    pub file_name: String,
    /// The size of the archive in bytes.
    pub file_size: u64,
}

/// The texts in `texts` as plain values.
pub open spec fn texts_of(texts: Seq<String>) -> Seq<Seq<char>> {
    Seq::new(texts.len(), |i: int| texts[i]@)
}

/// Whether the first `upto` of the specifiers `texts` are read as the dependencies `deps`.
pub open spec fn read_as(texts: Seq<Seq<char>>, deps: Seq<DependencyView>, upto: int) -> bool {
    forall|k: int|
        0 <= k < upto ==> parse_dependency_spec(#[trigger] texts[k]) == Some(
            Ok::<DependencyView, Seq<char>>(deps[k]),
        )
}

/// The place of the first of the specifiers `texts`, from place `from` on, that is not read
/// as a dependency.
pub open spec fn first_unread(texts: Seq<Seq<char>>, from: int) -> Option<int>
    decreases texts.len() - from,
{
    if from < 0 || from >= texts.len() {
        None
    } else if !(parse_dependency_spec(texts[from]) matches Some(Ok(_))) {
        Some(from)
    } else {
        first_unread(texts, from + 1)
    }
}

/// Whether the error `e` is the one that reading the specifier `text` fails with: that the
/// text is no specifier, or that the requirement in it is no requirement.
pub open spec fn unread_as(text: Seq<char>, e: ErrorKind) -> bool {
    match e {
        ErrorKind::ParseDependency(x) => parse_dependency_spec(text).is_none() && x@ == text,
        ErrorKind::ParseVersion(x) => parse_dependency_spec(text) == Some(
            Err::<DependencyView, Seq<char>>(x@),
        ),
        _ => false,
    }
}

/// Reads the dependency specifiers `texts`. Fails with the error of the first that is none.
pub fn parse_dependencies(texts: &Vec<String>) -> (r: Result<Vec<Dependency>, ErrorKind>)
    ensures
        match r {
            Ok(deps) => first_unread(texts_of(texts@), 0).is_none() && deps.len() == texts.len()
                && read_as(texts_of(texts@), dependency_views(deps@), texts.len() as int),
            Err(e) => first_unread(texts_of(texts@), 0) matches Some(k) && unread_as(
                texts_of(texts@)[k],
                e,
            ),
        },
{
    let ghost views = texts_of(texts@);
    let mut deps: Vec<Dependency> = Vec::new();
    let mut i: usize = 0;
    while i < texts.len()
        invariant
            i <= texts.len(),
            views == texts_of(texts@),
            deps.len() == i,
            first_unread(views, 0) == first_unread(views, i as int),
            read_as(views, dependency_views(deps@), i as int),
        decreases texts.len() - i,
    {
        match parse_dependency(texts[i].as_str()) {
            Ok(dep) => {
                deps.push(dep);
                proof {
                    let after = dependency_views(deps@);
                    assert forall|k: int| 0 <= k < i + 1 implies parse_dependency_spec(
                        #[trigger] views[k],
                    ) == Some(Ok::<DependencyView, Seq<char>>(after[k])) by {}
                }
            },
            Err(e) => {
                return Err(e);
            },
        }
        i += 1;
    }
    Ok(deps)
}

/// Reads a release as the portal writes it: its version, the versions of the game that it
/// works with, and its dependencies are parsed; the rest is taken as it is.
///
/// Fails with `ParseVersion` and the text if the version is none, or else if the game
/// version requirement is none; or else with the error of the first dependency specifier
/// that is none.
pub fn parse_release(raw: RawRelease) -> (r: Result<ModRelease, ErrorKind>)
    ensures
        match r {
            Ok(release) => {
                &&& release@.name == raw.name@
                &&& parse_version_spec(raw.version@) == Some(release@.version)
                &&& parse_version_req_spec(raw.factorio_version@) == Some(
                    release@.factorio_version,
                )
                &&& first_unread(texts_of(raw.dependencies@), 0).is_none()
                &&& release@.dependencies.len() == raw.dependencies.len()
                &&& read_as(
                    texts_of(raw.dependencies@),
                    release@.dependencies,
                    raw.dependencies.len() as int,
                )
                &&& release@.download_url == raw.download_url@
                &&& release@.file_name == raw.file_name@
                &&& release@.file_size == raw.file_size
            },
            Err(e) => {
                if parse_version_spec(raw.version@).is_none() {
                    e matches ErrorKind::ParseVersion(x) && x@ == raw.version@
                } else if parse_version_req_spec(raw.factorio_version@).is_none() {
                    e matches ErrorKind::ParseVersion(x) && x@ == raw.factorio_version@
                } else {
                    first_unread(texts_of(raw.dependencies@), 0) matches Some(k) && unread_as(
                        texts_of(raw.dependencies@)[k],
                        e,
                    )
                }
            },
        },
{
    let version = match parse_version(raw.version.as_str()) {
        Ok(version) => version,
        Err(e) => {
            return Err(e);
        },
    };
    let factorio_version = match parse_version_req(raw.factorio_version.as_str()) {
        Ok(req) => req,
        Err(e) => {
            return Err(e);
        },
    };
    let dependencies = match parse_dependencies(&raw.dependencies) {
        Ok(deps) => deps,
        Err(e) => {
            return Err(e);
        },
    };
    Ok(
        ModRelease {
            name: ModName(raw.name),
            version,
            factorio_version,
            dependencies,
            download_url: Url(raw.download_url),
            file_name: raw.file_name,
            file_size: raw.file_size,
        },
    )
}

} // verus!
