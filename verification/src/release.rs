//! Releases of mods, and what can be installed: a release, or the game itself.

use vstd::prelude::*;
use crate::dependency::{Dependency, DependencyView};
use crate::types::{ModName, Url};
use crate::version::{ModVersionReq, ReleaseVersion};

verus! {

/// The dependencies in `deps` as plain values.
pub open spec fn dependency_views(deps: Seq<Dependency>) -> Seq<DependencyView> {
    Seq::new(deps.len(), |i: int| deps[i]@)
}

/// A copy of `deps`.
pub fn clone_dependencies(deps: &Vec<Dependency>) -> (r: Vec<Dependency>)
    ensures
        dependency_views(r@) == dependency_views(deps@),
{
    let mut out: Vec<Dependency> = Vec::new();
    let mut i: usize = 0;
    while i < deps.len()
        invariant
            i <= deps.len(),
            out.len() == i,
            forall|k: int| 0 <= k < i ==> out[k]@ == deps[k]@,
        decreases deps.len() - i,
    {
        out.push(deps[i].clone());
        i += 1;
    }
    out
}

/// One release of a mod, as the portal describes it.
#[derive(Debug)]
pub struct ModRelease {
    /// The name of the mod.
    pub name: ModName,
    /// The version of the release.
    pub version: ReleaseVersion,
    /// The versions of the game that the release works with.
    pub factorio_version: ModVersionReq,
    /// What the release depends on.
    pub dependencies: Vec<Dependency>,
    /// Where the archive of the release is downloaded from, relative to the portal.
    pub download_url: Url,
    /// The file name of the archive.
    pub file_name: String,
    /// The size of the archive in bytes.
    pub file_size: u64,
}

/// A release as a plain value.
pub struct ModReleaseView {
    pub name: Seq<char>,
    pub version: ReleaseVersion,
    pub factorio_version: ModVersionReq,
    pub dependencies: Seq<DependencyView>,
    pub download_url: Seq<char>,
    pub file_name: Seq<char>,
    pub file_size: u64,
}

impl View for ModRelease {
    type V = ModReleaseView;

    open spec fn view(&self) -> ModReleaseView {
        ModReleaseView {
            name: self.name@,
            version: self.version,
            factorio_version: self.factorio_version,
            dependencies: dependency_views(self.dependencies@),
            download_url: self.download_url@,
            file_name: self.file_name@,
            file_size: self.file_size,
        }
    }
}

impl Clone for ModRelease {
    fn clone(&self) -> (r: Self)
        ensures
            r@ == self@,
    {
        ModRelease {
            name: self.name.clone(),
            version: self.version,
            factorio_version: self.factorio_version,
            dependencies: clone_dependencies(&self.dependencies),
            download_url: self.download_url.clone(),
            file_name: self.file_name.clone(),
            file_size: self.file_size,
        }
    }
}

impl ModRelease {
    /// The name of the mod.
    pub fn name(&self) -> (r: &ModName)
        ensures
            r@ == self@.name,
    {
        &self.name
    }

    /// The version of the release.
    pub fn version(&self) -> (r: &ReleaseVersion)
        ensures
            *r == self@.version,
    {
        &self.version
    }

    /// The versions of the game that the release works with.
    pub fn factorio_version(&self) -> (r: &ModVersionReq)
        ensures
            *r == self@.factorio_version,
    {
        &self.factorio_version
    }

    /// What the release depends on.
    pub fn dependencies(&self) -> (r: &Vec<Dependency>)
        ensures
            dependency_views(r@) == self@.dependencies,
    {
        &self.dependencies
    }
}

/// What a solution can hold under a name: the game itself, under the name `base` and with
/// the version of the game, or a release of a mod.
#[derive(Debug)]
pub enum Installable {
    /// The game.
    Base(ModName, ReleaseVersion),
    /// A release of a mod.
    Mod(ModRelease),
}

/// The name under which the game itself takes part in resolution.
pub open spec fn base_name() -> Seq<char> {
    seq!['b', 'a', 's', 'e']
}

/// An installable as the resolver sees it: its name, its version and what it depends on.
pub struct InstallableView {
    pub name: Seq<char>,
    pub version: ReleaseVersion,
    pub deps: Seq<DependencyView>,
}

impl View for Installable {
    type V = InstallableView;

    open spec fn view(&self) -> InstallableView {
        match self {
            Installable::Base(name, version) => InstallableView {
                name: name@,
                version: *version,
                deps: Seq::empty(),
            },
            Installable::Mod(release) => InstallableView {
                name: release@.name,
                version: release@.version,
                deps: release@.dependencies,
            },
        }
    }
}

impl Installable {
    /// The game at the given version, under the name `base`.
    pub fn base(game_version: ReleaseVersion) -> (r: Installable)
        ensures
            r is Base,
            r@.name == base_name(),
            r@.version == game_version,
            r@.deps.len() == 0,
    {
        let name = String::from_str("base");
        proof {
            reveal_strlit("base");
        }
        Installable::Base(ModName(name), game_version)
    }

    /// The name of the installable.
    pub fn name(&self) -> (r: &ModName)
        ensures
            r@ == self@.name,
    {
        match self {
            Installable::Base(name, _) => name,
            Installable::Mod(release) => &release.name,
        }
    }

    /// The version of the installable.
    pub fn version(&self) -> (r: &ReleaseVersion)
        ensures
            *r == self@.version,
    {
        match self {
            Installable::Base(_, version) => version,
            Installable::Mod(release) => &release.version,
        }
    }

    /// What the installable depends on: nothing for the game.
    pub fn dependencies(&self) -> (r: &[Dependency])
        ensures
            dependency_views(r@) == self@.deps,
    {
        match self {
            Installable::Base(_, _) => {
                let none: &[Dependency] = &[];
                none
            },
            Installable::Mod(release) => release.dependencies.as_slice(),
        }
    }
}

/// An installable as a plain value, with all that a release holds.
pub enum InstallableWhole {
    Base(Seq<char>, ReleaseVersion),
    Mod(ModReleaseView),
}

impl Installable {
    /// The installable as a plain value, with all that a release holds.
    pub open spec fn whole(self) -> InstallableWhole {
        match self {
            Installable::Base(name, version) => InstallableWhole::Base(name@, version),
            Installable::Mod(release) => InstallableWhole::Mod(release@),
        }
    }
}

impl InstallableWhole {
    /// The installable as the resolver sees it.
    pub open spec fn seen(self) -> InstallableView {
        match self {
            InstallableWhole::Base(name, version) => InstallableView {
                name,
                version,
                deps: Seq::empty(),
            },
            InstallableWhole::Mod(release) => InstallableView {
                name: release.name,
                version: release.version,
                deps: release.dependencies,
            },
        }
    }
}

/// The installables in `wholes` as the resolver sees them.
pub open spec fn items_in(wholes: Seq<InstallableWhole>) -> Seq<InstallableView> {
    Seq::new(wholes.len(), |i: int| wholes[i].seen())
}

/// The installables in `nodes` as plain values, with all that a release holds.
pub open spec fn wholes_of(nodes: Seq<Installable>) -> Seq<InstallableWhole> {
    Seq::new(nodes.len(), |i: int| nodes[i].whole())
}

/// The installables in `nodes` as the resolver sees them.
pub open spec fn items_of(nodes: Seq<Installable>) -> Seq<InstallableView> {
    Seq::new(nodes.len(), |i: int| nodes[i]@)
}

/// The installables that `solution` refers to as the resolver sees them.
pub open spec fn items_of_refs(solution: Seq<&Installable>) -> Seq<InstallableView> {
    Seq::new(solution.len(), |i: int| solution[i]@)
}

} // verus!
