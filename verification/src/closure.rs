//! Loading the releases that a resolution can draw on: those of the mods that are asked
//! for and of every mod that one of them depends on, as far as they work with the game.
//!
//! The portal is asked by the caller: the closure says which mod to ask for next and takes
//! the answer.

use vstd::prelude::*;
use crate::dependency::DependencyView;
use crate::error::ErrorKind;
use crate::release::{base_name, dependency_views, Installable, ModRelease, ModReleaseView};
use crate::requirements::Requirements;
use crate::types::ModName;
use crate::version::ReleaseVersion;
use crate::web::{description, is_not_found};

verus! {

/// What the portal answers when asked for a mod.
#[derive(Debug)]
pub enum PortalResponse {
    /// The releases of the mod.
    Found(Vec<ModRelease>),
    /// The portal does not know the mod.
    NotFound,
    /// The portal failed otherwise; the text says how.
    Failed(String),
}

/// What the closure is to make of what came of asking the portal for a mod: releases are
/// found; a mod that the portal does not know is no failure, it has no releases; any other
/// failure of the portal is one, and is kept in words.
pub fn portal_response(r: Result<Vec<ModRelease>, crate::web::ErrorKind>) -> (p: PortalResponse)
    ensures
        match r {
            Ok(releases) => p == PortalResponse::Found(releases),
            Err(e) => if is_not_found(e) {
                p is NotFound
            } else {
                p matches PortalResponse::Failed(text) && text@ == description(e)
            },
        },
{
    match r {
        Ok(releases) => PortalResponse::Found(releases),
        Err(e) => if e.not_found() {
            PortalResponse::NotFound
        } else {
            PortalResponse::Failed(e.to_string())
        },
    }
}

/// The names in `names` as plain values.
pub open spec fn name_views(names: Seq<ModName>) -> Seq<Seq<char>> {
    Seq::new(names.len(), |i: int| names[i]@)
}

/// Tests whether `names` holds `name`.
pub fn contains_name(names: &Vec<ModName>, name: &ModName) -> (r: bool)
    ensures
        r == name_views(names@).contains(name@),
{
    let mut i: usize = 0;
    while i < names.len()
        invariant
            i <= names.len(),
            forall|k: int| 0 <= k < i ==> name_views(names@)[k] != name@,
        decreases names.len() - i,
    {
        if &names[i] == name {
            assert(name_views(names@)[i as int] == name@);
            return true;
        }
        i += 1;
    }
    false
}

/// The releases in `releases` as plain values.
pub open spec fn release_views_of(releases: Seq<ModRelease>) -> Seq<ModReleaseView> {
    Seq::new(releases.len(), |i: int| releases[i]@)
}

/// The first `upto` of `releases` that work with the game at version `game_version`.
pub open spec fn compatible(releases: Seq<ModReleaseView>, game_version: ReleaseVersion, upto: int)
    -> Seq<ModReleaseView>
    decreases upto,
{
    if upto <= 0 {
        Seq::empty()
    } else {
        let rest = compatible(releases, game_version, upto - 1);
        if releases[upto - 1].factorio_version.matches_spec(game_version) {
            rest.push(releases[upto - 1])
        } else {
            rest
        }
    }
}

/// The names that the dependencies `deps` speak of.
pub open spec fn dependency_names(deps: Seq<DependencyView>) -> Seq<Seq<char>> {
    Seq::new(deps.len(), |i: int| deps[i].name)
}

/// The names that the dependencies of the first `upto` of `releases` speak of, as far as
/// those releases work with the game.
pub open spec fn wanted(releases: Seq<ModReleaseView>, game_version: ReleaseVersion, upto: int)
    -> Seq<Seq<char>>
    decreases upto,
{
    if upto <= 0 {
        Seq::empty()
    } else {
        let rest = wanted(releases, game_version, upto - 1);
        if releases[upto - 1].factorio_version.matches_spec(game_version) {
            rest + dependency_names(releases[upto - 1].dependencies)
        } else {
            rest
        }
    }
}

/// The first place at or after `cursor` in `pending` that holds a name not in `visited`, or
/// the length of `pending` if there is none.
pub open spec fn next_unvisited(pending: Seq<Seq<char>>, visited: Seq<Seq<char>>, cursor: int)
    -> int
    decreases pending.len() - cursor,
{
    if cursor < 0 || cursor >= pending.len() {
        pending.len() as int
    } else if !visited.contains(pending[cursor]) {
        cursor
    } else {
        next_unvisited(pending, visited, cursor + 1)
    }
}

/// The installables that a resolution can draw on, and the names that the portal is still
/// to be asked for.
#[derive(Debug)]
pub struct Closure {
    game_version: ReleaseVersion,
    nodes: Vec<Installable>,
    visited: Vec<ModName>,
    pending: Vec<ModName>,
    cursor: usize,
}

impl Closure {
    /// The version of the game.
    pub closed spec fn game_version(&self) -> ReleaseVersion {
        self.game_version
    }

    /// The installables loaded so far. The first is the game.
    pub closed spec fn nodes(&self) -> Seq<Installable> {
        self.nodes@
    }

    /// The names that the portal was asked for so far, and `base`.
    pub closed spec fn visited(&self) -> Seq<Seq<char>> {
        name_views(self.visited@)
    }

    /// The names that were met so far, in the order in which they were met.
    pub closed spec fn pending(&self) -> Seq<Seq<char>> {
        name_views(self.pending@)
    }

    /// How many of the pending names were dealt with.
    pub closed spec fn cursor(&self) -> int {
        self.cursor as int
    }

    /// Whether the closure is in order: its first installable is the game, under the name
    /// `base` and at the version of the game, and the others are releases that work with
    /// the game.
    pub open spec fn wf(&self) -> bool {
        &&& self.nodes().len() >= 1
        &&& self.nodes()[0] is Base
        &&& self.nodes()[0]@.name == base_name()
        &&& self.nodes()[0]@.version == self.game_version()
        &&& forall|i: int|
            1 <= i < self.nodes().len() ==> (#[trigger] self.nodes()[i] matches Installable::Mod(r)
                && r.factorio_version.matches_spec(self.game_version()))
        &&& 0 <= self.cursor() <= self.pending().len()
    }

    /// Starts a closure for the game at `game_version` and the mods asked for in `reqs`. It
    /// holds the game alone; the mods asked for are pending.
    pub fn new(game_version: ReleaseVersion, reqs: &Requirements) -> (r: Self)
        ensures
            r.wf(),
            r.game_version() == game_version,
            r.nodes().len() == 1,
            r.visited() == seq![base_name()],
            r.pending() == Seq::new(reqs.pairs().len(), |i: int| reqs.pairs()[i].0),
            r.cursor() == 0,
    {
        let base = Installable::base(game_version);
        let mut visited: Vec<ModName> = Vec::new();
        visited.push(base.name().clone());
        let mut nodes: Vec<Installable> = Vec::new();
        nodes.push(base);
        let mut pending: Vec<ModName> = Vec::new();
        let mut i: usize = 0;
        while i < reqs.len()
            invariant
                i <= reqs.pairs().len(),
                pending.len() == i,
                forall|k: int| 0 <= k < i ==> pending[k]@ == reqs.pairs()[k].0,
            decreases reqs.pairs().len() - i,
        {
            pending.push(reqs.name(i).clone());
            i += 1;
        }
        let r = Closure { game_version, nodes, visited, pending, cursor: 0 };
        r
    }

    /// The version of the game.
    pub fn version(&self) -> (r: ReleaseVersion)
        ensures
            r == self.game_version(),
    {
        self.game_version
    }

    /// The number of installables loaded so far.
    pub fn len(&self) -> (r: usize)
        ensures
            r == self.nodes().len(),
    {
        self.nodes.len()
    }

    /// The installables loaded so far.
    pub fn installables(&self) -> (r: &Vec<Installable>)
        ensures
            r@ == self.nodes(),
    {
        &self.nodes
    }

    /// The installable at place `i`.
    pub fn node(&self, i: usize) -> (r: &Installable)
        requires
            i < self.nodes().len(),
        ensures
            *r == self.nodes()[i as int],
    {
        &self.nodes[i]
    }

    /// Says which mod the portal is to be asked for next: the first pending name that it
    /// was not asked for yet. That name then counts as asked for. `None` when no such name
    /// is left, and the closure is complete.
    pub fn next_request(&mut self) -> (r: Option<ModName>)
        requires
            old(self).wf(),
        ensures
            final(self).wf(),
            final(self).game_version() == old(self).game_version(),
            final(self).nodes() == old(self).nodes(),
            final(self).pending() == old(self).pending(),
            match r {
                Some(name) => {
                    let k = next_unvisited(
                        old(self).pending(),
                        old(self).visited(),
                        old(self).cursor(),
                    );
                    &&& k < old(self).pending().len()
                    &&& name@ == old(self).pending()[k]
                    &&& final(self).cursor() == k + 1
                    &&& final(self).visited() == old(self).visited().push(name@)
                },
                None => {
                    &&& next_unvisited(old(self).pending(), old(self).visited(), old(self).cursor())
                        == old(self).pending().len()
                    &&& final(self).cursor() == old(self).pending().len()
                    &&& final(self).visited() == old(self).visited()
                },
            },
    {
        while self.cursor < self.pending.len()
            invariant
                self.wf(),
                self.game_version() == old(self).game_version(),
                self.nodes() == old(self).nodes(),
                self.pending() == old(self).pending(),
                self.visited() == old(self).visited(),
                old(self).cursor() <= self.cursor(),
                next_unvisited(self.pending(), self.visited(), self.cursor()) == next_unvisited(
                    old(self).pending(),
                    old(self).visited(),
                    old(self).cursor(),
                ),
            decreases self.pending.len() - self.cursor,
        {
            let name = self.pending[self.cursor].clone();
            self.cursor += 1;
            if !contains_name(&self.visited, &name) {
                self.visited.push(name.clone());
                return Some(name);
            }
        }
        None
    }

    /// Adds an installable to the closure: a release that works with the game.
    pub fn add_installable(&mut self, installable: Installable)
        requires
            old(self).wf(),
            installable matches Installable::Mod(r) && r.factorio_version.matches_spec(
                old(self).game_version(),
            ),
        ensures
            final(self).wf(),
            final(self).game_version() == old(self).game_version(),
            final(self).nodes() == old(self).nodes().push(installable),
            final(self).pending() == old(self).pending(),
            final(self).visited() == old(self).visited(),
            final(self).cursor() == old(self).cursor(),
    {
        self.nodes.push(installable);
    }

    /// Takes the portal's answer for a mod. Of the releases found, those that work with the
    /// game join the closure, and the mods that they depend on become pending. A mod that
    /// the portal does not know adds nothing. Any other failure of the portal is handed
    /// on, and the closure stays as it is.
    pub fn add_mod(&mut self, response: PortalResponse) -> (r: Result<(), ErrorKind>)
        requires
            old(self).wf(),
        ensures
            final(self).wf(),
            final(self).game_version() == old(self).game_version(),
            final(self).visited() == old(self).visited(),
            final(self).cursor() == old(self).cursor(),
            match response {
                PortalResponse::Found(releases) => {
                    let added = compatible(
                        release_views_of(releases@),
                        old(self).game_version(),
                        releases@.len() as int,
                    );
                    &&& r is Ok
                    &&& final(self).nodes().len() == old(self).nodes().len() + added.len()
                    &&& final(self).nodes().subrange(0, old(self).nodes().len() as int) == old(
                        self,
                    ).nodes()
                    &&& forall|j: int|
                        0 <= j < added.len() ==> (#[trigger] final(self).nodes()[old(
                            self,
                        ).nodes().len() + j] matches Installable::Mod(release) && release@
                            == added[j])
                    &&& final(self).pending() == old(self).pending() + wanted(
                        release_views_of(releases@),
                        old(self).game_version(),
                        releases@.len() as int,
                    )
                },
                PortalResponse::NotFound => {
                    &&& r is Ok
                    &&& final(self).nodes() == old(self).nodes()
                    &&& final(self).pending() == old(self).pending()
                },
                PortalResponse::Failed(message) => {
                    &&& r matches Err(ErrorKind::Portal(text)) && text@ == message@
                    &&& final(self).nodes() == old(self).nodes()
                    &&& final(self).pending() == old(self).pending()
                },
            },
    {
        match response {
            PortalResponse::NotFound => Ok(()),
            PortalResponse::Failed(message) => Err(ErrorKind::Portal(message)),
            PortalResponse::Found(releases) => {
                let game_version = self.game_version;
                let ghost views = release_views_of(releases@);
                let mut i: usize = 0;
                while i < releases.len()
                    invariant
                        i <= releases.len(),
                        self.wf(),
                        game_version == self.game_version(),
                        self.game_version() == old(self).game_version(),
                        self.visited() == old(self).visited(),
                        self.cursor() == old(self).cursor(),
                        views == release_views_of(releases@),
                        self.nodes().len() == old(self).nodes().len() + compatible(
                            views,
                            game_version,
                            i as int,
                        ).len(),
                        self.nodes().subrange(0, old(self).nodes().len() as int) == old(
                            self,
                        ).nodes(),
                        forall|j: int|
                            0 <= j < compatible(views, game_version, i as int).len() ==> (
                            #[trigger] self.nodes()[old(self).nodes().len() + j] matches Installable::Mod(
                                release,
                            ) && release@ == compatible(views, game_version, i as int)[j]),
                        self.pending() == old(self).pending() + wanted(
                            views,
                            game_version,
                            i as int,
                        ),
                    decreases releases.len() - i,
                {
                    let release = &releases[i];
                    if release.factorio_version.matches(&game_version) {
                        let ghost nodes_before = self.nodes();
                        let ghost pending_before = self.pending();
                        let copy = release.clone();
                        self.add_installable(Installable::Mod(copy));
                        proof {
                            let added = compatible(views, game_version, i + 1);
                            assert(self.nodes().subrange(0, old(self).nodes().len() as int)
                                =~= old(self).nodes());
                            assert forall|j: int| 0 <= j < added.len() implies (
                            #[trigger] self.nodes()[old(self).nodes().len() + j] matches Installable::Mod(
                                release,
                            ) && release@ == added[j]) by {
                                if j < added.len() - 1 {
                                    assert(self.nodes()[old(self).nodes().len() + j]
                                        == nodes_before[old(self).nodes().len() + j]);
                                }
                            }
                        }
                        let deps = &release.dependencies;
                        let mut k: usize = 0;
                        while k < deps.len()
                            invariant
                                k <= deps.len(),
                                self.wf(),
                                self.game_version() == old(self).game_version(),
                                self.visited() == old(self).visited(),
                                self.cursor() == old(self).cursor(),
                                self.nodes() == nodes_before.push(Installable::Mod(copy)),
                                self.pending() == pending_before + dependency_names(
                                    dependency_views(deps@),
                                ).subrange(0, k as int),
                            decreases deps.len() - k,
                        {
                            let ghost pending_so_far = self.pending();
                            self.pending.push(deps[k].name.clone());
                            proof {
                                assert(self.pending() =~= pending_so_far.push(deps[k as int]@.name));
                                assert(dependency_names(dependency_views(deps@))[k as int]
                                    == deps[k as int]@.name);
                                assert(self.pending() =~= pending_before + dependency_names(
                                    dependency_views(deps@),
                                ).subrange(0, k + 1));
                            }
                            k += 1;
                        }
                        proof {
                            assert(self.pending() =~= old(self).pending() + wanted(
                                views,
                                game_version,
                                i + 1,
                            ));
                        }
                    }
                    i += 1;
                }
                Ok(())
            },
        }
    }
}

} // verus!
