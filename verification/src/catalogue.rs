//! A snapshot of the portal, and the closure that is loaded from one.

use vstd::prelude::*;
use crate::closure::{
    compatible,
    dependency_names,
    next_unvisited,
    release_views_of,
    wanted,
    Closure,
    PortalResponse,
};
use crate::release::{base_name, wholes_of, InstallableWhole, ModRelease, ModReleaseView};
use crate::requirements::Requirements;
use crate::types::ModName;
use crate::version::{ModVersionReq, ReleaseVersion};

verus! {

/// The place of the first of `entries`, from place `from` on, that is of the given name.
pub open spec fn entry_of(entries: Seq<(Seq<char>, Seq<ModReleaseView>)>, name: Seq<char>, from: int)
    -> Option<int>
    decreases entries.len() - from,
{
    if from < 0 || from >= entries.len() {
        None
    } else if entries[from].0 == name {
        Some(from)
    } else {
        entry_of(entries, name, from + 1)
    }
}

/// What `entry_of` finds is an entry of that name.
pub proof fn lemma_entry_of(entries: Seq<(Seq<char>, Seq<ModReleaseView>)>, name: Seq<char>, from: int)
    requires
        0 <= from,
    ensures
        entry_of(entries, name, from) matches Some(m) ==> from <= m < entries.len()
            && entries[m].0 == name,
    decreases entries.len() - from,
{
    if from < entries.len() && entries[from].0 != name {
        lemma_entry_of(entries, name, from + 1);
    }
}

/// The releases that the portal offered of each mod at one time.
#[derive(Debug)]
pub struct Catalogue {
    mods: Vec<(ModName, Vec<ModRelease>)>,
}

impl Catalogue {
    /// The mods and their releases as plain values. Of two entries of one name the first
    /// counts.
    pub closed spec fn entries(&self) -> Seq<(Seq<char>, Seq<ModReleaseView>)> {
        Seq::new(self.mods@.len(), |i: int| (self.mods@[i].0@, release_views_of(self.mods@[i].1@)))
    }

    /// A catalogue without mods.
    pub fn new() -> (r: Self)
        ensures
            r.entries().len() == 0,
    {
        Catalogue { mods: Vec::new() }
    }

    /// Adds a mod and its releases.
    pub fn add(&mut self, name: ModName, releases: Vec<ModRelease>)
        ensures
            final(self).entries() == old(self).entries().push((name@, release_views_of(releases@))),
    {
        self.mods.push((name, releases));
        proof {
            assert(self.entries() =~= old(self).entries().push(
                (name@, release_views_of(releases@)),
            ));
        }
    }

    /// What the portal answered when asked for `name`: the releases of the first entry of
    /// that name, or that it does not know the mod.
    pub fn get(&self, name: &ModName) -> (r: PortalResponse)
        ensures
            match entry_of(self.entries(), name@, 0) {
                Some(m) => r matches PortalResponse::Found(releases) && release_views_of(releases@)
                    == self.entries()[m].1,
                None => r is NotFound,
            },
    {
        let mut i: usize = 0;
        while i < self.mods.len()
            invariant
                i <= self.mods.len(),
                entry_of(self.entries(), name@, 0) == entry_of(self.entries(), name@, i as int),
            decreases self.mods.len() - i,
        {
            if &self.mods[i].0 == name {
                let releases = &self.mods[i].1;
                let mut copy: Vec<ModRelease> = Vec::new();
                let mut k: usize = 0;
                while k < releases.len()
                    invariant
                        k <= releases.len(),
                        copy.len() == k,
                        forall|j: int| 0 <= j < k ==> copy[j]@ == releases[j]@,
                    decreases releases.len() - k,
                {
                    copy.push(releases[k].clone());
                    k += 1;
                }
                proof {
                    assert(release_views_of(copy@) =~= release_views_of(releases@));
                }
                return PortalResponse::Found(copy);
            }
            i += 1;
        }
        PortalResponse::NotFound
    }
}

/// What a closure holds, as a plain value.
pub struct ClosureState {
    pub nodes: Seq<InstallableWhole>,
    pub visited: Seq<Seq<char>>,
    pub pending: Seq<Seq<char>>,
    pub cursor: int,
}

/// What the closure `closure` holds.
pub open spec fn state_of(closure: Closure) -> ClosureState {
    ClosureState {
        nodes: wholes_of(closure.nodes()),
        visited: closure.visited(),
        pending: closure.pending(),
        cursor: closure.cursor(),
    }
}

/// The releases `releases` as installables.
pub open spec fn mods_of(releases: Seq<ModReleaseView>) -> Seq<InstallableWhole> {
    Seq::new(releases.len(), |i: int| InstallableWhole::Mod(releases[i]))
}

/// The closure after the portal was asked for the name at place `k` of the pending names.
pub open spec fn requested(s: ClosureState, k: int) -> ClosureState {
    ClosureState { visited: s.visited.push(s.pending[k]), cursor: k + 1, ..s }
}

/// The closure after the portal answered with the releases `releases`.
pub open spec fn supplied(s: ClosureState, releases: Seq<ModReleaseView>, game_version: ReleaseVersion)
    -> ClosureState {
    ClosureState {
        nodes: s.nodes + mods_of(compatible(releases, game_version, releases.len() as int)),
        pending: s.pending + wanted(releases, game_version, releases.len() as int),
        ..s
    }
}

/// The names that the dependencies of the first `upto` of `releases` speak of.
pub open spec fn release_dep_names(releases: Seq<ModReleaseView>, upto: int) -> Seq<Seq<char>>
    decreases upto,
{
    if upto <= 0 {
        Seq::empty()
    } else {
        release_dep_names(releases, upto - 1) + dependency_names(releases[upto - 1].dependencies)
    }
}

/// The names that the dependencies of the releases of the first `upto` of `entries` speak
/// of.
pub open spec fn entry_dep_names(entries: Seq<(Seq<char>, Seq<ModReleaseView>)>, upto: int) -> Seq<
    Seq<char>,
>
    decreases upto,
{
    if upto <= 0 {
        Seq::empty()
    } else {
        entry_dep_names(entries, upto - 1) + release_dep_names(
            entries[upto - 1].1,
            entries[upto - 1].1.len() as int,
        )
    }
}

/// The names in `reqs`.
pub open spec fn names_of(reqs: Seq<(Seq<char>, ModVersionReq)>) -> Seq<Seq<char>> {
    Seq::new(reqs.len(), |i: int| reqs[i].0)
}

/// Every name that loading can meet: those asked for and those that a dependency of a
/// release in the catalogue speaks of.
pub open spec fn universe(
    entries: Seq<(Seq<char>, Seq<ModReleaseView>)>,
    reqs: Seq<(Seq<char>, ModVersionReq)>,
) -> Seq<Seq<char>> {
    names_of(reqs) + entry_dep_names(entries, entries.len() as int)
}

/// How many of the first `upto` of `names` are not in `visited`.
pub open spec fn unvisited(names: Seq<Seq<char>>, visited: Seq<Seq<char>>, upto: int) -> nat
    decreases upto,
{
    if upto <= 0 {
        0
    } else if visited.contains(names[upto - 1]) {
        unvisited(names, visited, upto - 1)
    } else {
        unvisited(names, visited, upto - 1) + 1
    }
}

/// The closure that is reached from `s` by asking the catalogue for one pending name after
/// the other until none is left that it was not asked for.
pub open spec fn load_from(
    s: ClosureState,
    entries: Seq<(Seq<char>, Seq<ModReleaseView>)>,
    game_version: ReleaseVersion,
    names: Seq<Seq<char>>,
) -> ClosureState
    decreases unvisited(names, s.visited, names.len() as int),
{
    let k = next_unvisited(s.pending, s.visited, s.cursor);
    if k >= s.pending.len() {
        ClosureState { cursor: s.pending.len() as int, ..s }
    } else {
        let asked = requested(s, k);
        let next = match entry_of(entries, s.pending[k], 0) {
            Some(m) => supplied(asked, entries[m].1, game_version),
            None => asked,
        };
        if unvisited(names, next.visited, names.len() as int) < unvisited(
            names,
            s.visited,
            names.len() as int,
        ) {
            load_from(next, entries, game_version, names)
        } else {
            next
        }
    }
}

/// The closure before the portal was asked for anything: it holds the game, and the mods
/// asked for are pending.
pub open spec fn initial_state(game_version: ReleaseVersion, reqs: Seq<(Seq<char>, ModVersionReq)>)
    -> ClosureState {
    ClosureState {
        nodes: seq![InstallableWhole::Base(base_name(), game_version)],
        visited: seq![base_name()],
        pending: names_of(reqs),
        cursor: 0,
    }
}

/// The closure for the game at `game_version` and the requirements `reqs` over the
/// catalogue `entries`.
pub open spec fn loaded(
    entries: Seq<(Seq<char>, Seq<ModReleaseView>)>,
    game_version: ReleaseVersion,
    reqs: Seq<(Seq<char>, ModVersionReq)>,
) -> ClosureState {
    load_from(initial_state(game_version, reqs), entries, game_version, universe(entries, reqs))
}

/// Visiting more names leaves no more names unvisited, and visiting one of the names
/// leaves fewer.
proof fn lemma_unvisited_shrinks(
    names: Seq<Seq<char>>,
    visited: Seq<Seq<char>>,
    name: Seq<char>,
    upto: int,
)
    requires
        0 <= upto <= names.len(),
        !visited.contains(name),
    ensures
        unvisited(names, visited.push(name), upto) <= unvisited(names, visited, upto),
        (exists|i: int| 0 <= i < upto && names[i] == name) ==> unvisited(
            names,
            visited.push(name),
            upto,
        ) < unvisited(names, visited, upto),
    decreases upto,
{
    if upto > 0 {
        lemma_unvisited_shrinks(names, visited, name, upto - 1);
        let more = visited.push(name);
        let x = names[upto - 1];
        assert(more[more.len() - 1] == name);
        if visited.contains(x) {
            let i = choose|i: int| 0 <= i < visited.len() && visited[i] == x;
            assert(more[i] == x);
        }
        if more.contains(x) && x != name {
            let i = choose|i: int| 0 <= i < more.len() && more[i] == x;
            assert(visited[i] == x);
        }
        if exists|i: int| 0 <= i < upto && names[i] == name {
            let i = choose|i: int| 0 <= i < upto && names[i] == name;
            if i < upto - 1 {
                assert(0 <= i < upto - 1 && names[i] == name);
            }
        }
    }
}

/// The names between the cursor and what `next_unvisited` finds are in `visited`, and
/// what it finds is not.
proof fn lemma_skipped(pending: Seq<Seq<char>>, visited: Seq<Seq<char>>, cursor: int)
    requires
        0 <= cursor <= pending.len(),
    ensures
        cursor <= next_unvisited(pending, visited, cursor) <= pending.len(),
        forall|i: int|
            cursor <= i < next_unvisited(pending, visited, cursor) ==> visited.contains(
                #[trigger] pending[i],
            ),
        next_unvisited(pending, visited, cursor) < pending.len() ==> !visited.contains(
            pending[next_unvisited(pending, visited, cursor)],
        ),
    decreases pending.len() - cursor,
{
    if cursor < pending.len() && visited.contains(pending[cursor]) {
        lemma_skipped(pending, visited, cursor + 1);
    }
}

/// The names that dependencies of releases speak of are among those of more releases.
proof fn lemma_release_dep_names(releases: Seq<ModReleaseView>, i: int, upto: int)
    requires
        0 <= i < upto <= releases.len(),
    ensures
        forall|x: Seq<char>|
            dependency_names(releases[i].dependencies).contains(x) ==> #[trigger] release_dep_names(
                releases,
                upto,
            ).contains(x),
    decreases upto,
{
    let all = release_dep_names(releases, upto);
    let rest = release_dep_names(releases, upto - 1);
    let last = dependency_names(releases[upto - 1].dependencies);
    if i < upto - 1 {
        lemma_release_dep_names(releases, i, upto - 1);
        assert forall|x: Seq<char>|
            dependency_names(releases[i].dependencies).contains(x) implies all.contains(x) by {
            assert(rest.contains(x));
            let j = choose|j: int| 0 <= j < rest.len() && rest[j] == x;
            assert(all[j] == x);
        }
    } else {
        assert forall|x: Seq<char>| last.contains(x) implies all.contains(x) by {
            let j = choose|j: int| 0 <= j < last.len() && last[j] == x;
            assert(all[rest.len() + j] == x);
        }
    }
}

/// The names that a load adds to the pending ones for releases are among those that the
/// dependencies of the releases speak of.
proof fn lemma_wanted(releases: Seq<ModReleaseView>, game_version: ReleaseVersion, upto: int)
    requires
        0 <= upto <= releases.len(),
    ensures
        forall|x: Seq<char>|
            wanted(releases, game_version, upto).contains(x) ==> #[trigger] release_dep_names(
                releases,
                releases.len() as int,
            ).contains(x),
    decreases upto,
{
    if upto > 0 {
        lemma_wanted(releases, game_version, upto - 1);
        lemma_release_dep_names(releases, upto - 1, releases.len() as int);
        let all = wanted(releases, game_version, upto);
        let rest = wanted(releases, game_version, upto - 1);
        let last = dependency_names(releases[upto - 1].dependencies);
        assert forall|x: Seq<char>| all.contains(x) implies #[trigger] release_dep_names(
            releases,
            releases.len() as int,
        ).contains(x) by {
            let j = choose|j: int| 0 <= j < all.len() && all[j] == x;
            if j < rest.len() {
                assert(rest[j] == x);
                assert(rest.contains(x));
            } else {
                assert(last.contains(x));
            }
        }
    }
}

/// The names that the dependencies of the releases of an entry speak of are among those
/// of more entries.
proof fn lemma_entry_dep_names(entries: Seq<(Seq<char>, Seq<ModReleaseView>)>, m: int, upto: int)
    requires
        0 <= m < upto <= entries.len(),
    ensures
        forall|x: Seq<char>|
            release_dep_names(entries[m].1, entries[m].1.len() as int).contains(x)
                ==> #[trigger] entry_dep_names(entries, upto).contains(x),
    decreases upto,
{
    let all = entry_dep_names(entries, upto);
    let rest = entry_dep_names(entries, upto - 1);
    let last = release_dep_names(entries[upto - 1].1, entries[upto - 1].1.len() as int);
    if m < upto - 1 {
        lemma_entry_dep_names(entries, m, upto - 1);
        assert forall|x: Seq<char>|
            release_dep_names(entries[m].1, entries[m].1.len() as int).contains(
                x,
            ) implies all.contains(x) by {
            assert(rest.contains(x));
            let j = choose|j: int| 0 <= j < rest.len() && rest[j] == x;
            assert(all[j] == x);
        }
    } else {
        assert forall|x: Seq<char>| last.contains(x) implies all.contains(x) by {
            let j = choose|j: int| 0 <= j < last.len() && last[j] == x;
            assert(all[rest.len() + j] == x);
        }
    }
}

/// Whether every pending name of `s` is among `names`.
pub open spec fn pending_within(s: ClosureState, names: Seq<Seq<char>>) -> bool {
    forall|i: int| 0 <= i < s.pending.len() ==> names.contains(#[trigger] s.pending[i])
}

/// Loads the closure for the game at `game_version` and the requirements `reqs` from the
/// catalogue: asks the catalogue for one pending name after the other until none is left
/// that it was not asked for. No name is asked for twice, so this comes to an end.
pub fn load_closure(catalogue: &Catalogue, game_version: ReleaseVersion, reqs: &Requirements) -> (r:
    Closure)
    ensures
        r.wf(),
        r.game_version() == game_version,
        state_of(r) == loaded(catalogue.entries(), game_version, reqs.pairs()),
        is_closure(state_of(r), catalogue.entries(), game_version, reqs.pairs()),
        next_unvisited(r.pending(), r.visited(), r.cursor()) == r.pending().len(),
{
    let ghost entries = catalogue.entries();
    let ghost names = universe(entries, reqs.pairs());
    let mut closure = Closure::new(game_version, reqs);
    proof {
        assert(state_of(closure).nodes =~= initial_state(game_version, reqs.pairs()).nodes);
        assert forall|i: int| 0 <= i < closure.pending().len() implies names.contains(
            #[trigger] closure.pending()[i],
        ) by {
            assert(names[i] == closure.pending()[i]);
        }
    }
    loop
        invariant
            closure.wf(),
            closure.game_version() == game_version,
            entries == catalogue.entries(),
            names == universe(entries, reqs.pairs()),
            pending_within(state_of(closure), names),
            load_from(state_of(closure), entries, game_version, names) == loaded(
                entries,
                game_version,
                reqs.pairs(),
            ),
        decreases unvisited(names, closure.visited(), names.len() as int),
    {
        let ghost before = state_of(closure);
        proof {
            lemma_skipped(before.pending, before.visited, before.cursor);
        }
        match closure.next_request() {
            None => {
                proof {
                    assert(state_of(closure) == (ClosureState {
                        cursor: before.pending.len() as int,
                        ..before
                    }));
                    lemma_loaded_is_closure(entries, game_version, reqs.pairs());
                }
                return closure;
            },
            Some(name) => {
                proof {
                    lemma_unvisited_shrinks(names, before.visited, name@, names.len() as int);
                    lemma_entry_of(entries, name@, 0);
                }
                let ghost asked = state_of(closure);
                let ghost nodes_before = closure.nodes();
                let response = catalogue.get(&name);
                let ghost found = entry_of(entries, name@, 0);
                let _ = closure.add_mod(response);
                proof {
                    match found {
                        Some(m) => {
                            let releases = entries[m].1;
                            let added = compatible(releases, game_version, releases.len() as int);
                            let after = closure.nodes();
                            assert(wholes_of(after) =~= wholes_of(nodes_before) + mods_of(added))
                                by {
                                assert forall|i: int| 0 <= i < after.len() implies wholes_of(
                                    after,
                                )[i] == (wholes_of(nodes_before) + mods_of(added))[i] by {
                                    if i < nodes_before.len() {
                                        assert(after.subrange(0, nodes_before.len() as int)[i]
                                            == after[i]);
                                    } else {
                                        let j = i - nodes_before.len();
                                        assert(after[nodes_before.len() + j] is Mod);
                                    }
                                }
                            }
                            lemma_wanted(releases, game_version, releases.len() as int);
                            lemma_entry_dep_names(entries, m, entries.len() as int);
                            assert forall|i: int|
                                0 <= i < closure.pending().len() implies names.contains(
                                #[trigger] closure.pending()[i],
                            ) by {
                                let x = closure.pending()[i];
                                if i >= asked.pending.len() {
                                    let deps = entry_dep_names(entries, entries.len() as int);
                                    assert(deps.contains(x));
                                    let j = choose|j: int| 0 <= j < deps.len() && deps[j] == x;
                                    assert(names[names_of(reqs.pairs()).len() + j] == x);
                                }
                            }
                        },
                        None => {},
                    }
                }
            },
        }
    }
}

/// The releases that the catalogue offers under `name`: those of the first entry of that
/// name, or none.
pub open spec fn offered(entries: Seq<(Seq<char>, Seq<ModReleaseView>)>, name: Seq<char>) -> Seq<
    ModReleaseView,
> {
    match entry_of(entries, name, 0) {
        Some(m) => entries[m].1,
        None => Seq::empty(),
    }
}

/// Whether the catalogue offers the release `r` under `name`, and `r` works with the game.
pub open spec fn offers(
    entries: Seq<(Seq<char>, Seq<ModReleaseView>)>,
    game_version: ReleaseVersion,
    name: Seq<char>,
    r: ModReleaseView,
) -> bool {
    r.factorio_version.matches_spec(game_version) && offered(entries, name).contains(r)
}

/// Whether the catalogue offers the release `r` under one of `names`, and `r` works with
/// the game.
pub open spec fn sourced(
    entries: Seq<(Seq<char>, Seq<ModReleaseView>)>,
    game_version: ReleaseVersion,
    names: Seq<Seq<char>>,
    r: ModReleaseView,
) -> bool {
    exists|n: int| 0 <= n < names.len() && offers(entries, game_version, #[trigger] names[n], r)
}

/// Whether `nodes` holds the release `r`.
pub open spec fn holds(nodes: Seq<InstallableWhole>, r: ModReleaseView) -> bool {
    nodes.contains(InstallableWhole::Mod(r))
}

/// Whether every name that a dependency of `r` speaks of is among `names`.
pub open spec fn deps_within(r: ModReleaseView, names: Seq<Seq<char>>) -> bool {
    forall|k: int| 0 <= k < r.dependencies.len() ==> names.contains(#[trigger] r.dependencies[k].name)
}

/// Whether the nodes of `s` are the game and releases that the catalogue offers, under
/// names that the catalogue was asked for, and that work with the game.
pub open spec fn nodes_sound(
    s: ClosureState,
    entries: Seq<(Seq<char>, Seq<ModReleaseView>)>,
    game_version: ReleaseVersion,
) -> bool {
    &&& s.nodes.len() >= 1
    &&& s.nodes[0] == InstallableWhole::Base(base_name(), game_version)
    &&& forall|i: int|
        1 <= i < s.nodes.len() ==> (#[trigger] s.nodes[i]) is Mod && sourced(
            entries,
            game_version,
            s.visited,
            s.nodes[i]->Mod_0,
        )
}

/// Whether the nodes of `s` hold every release that the catalogue offers under a name that
/// it was asked for, as far as the release works with the game.
pub open spec fn nodes_complete(
    s: ClosureState,
    entries: Seq<(Seq<char>, Seq<ModReleaseView>)>,
    game_version: ReleaseVersion,
) -> bool {
    forall|n: int, r: ModReleaseView|
        0 <= n < s.visited.len() && s.visited[n] != base_name() && #[trigger] offers(
            entries,
            game_version,
            s.visited[n],
            r,
        ) ==> holds(s.nodes, r)
}

/// Whether `s` is the closure of the requirements `reqs` over the catalogue: its nodes are
/// the game and exactly the releases that the catalogue offers, and that work with the
/// game, of the mods that it was asked for; and it was asked for every mod that is asked
/// for and for every mod that one of its nodes depends on.
pub open spec fn is_closure(
    s: ClosureState,
    entries: Seq<(Seq<char>, Seq<ModReleaseView>)>,
    game_version: ReleaseVersion,
    reqs: Seq<(Seq<char>, ModVersionReq)>,
) -> bool {
    &&& nodes_sound(s, entries, game_version)
    &&& nodes_complete(s, entries, game_version)
    &&& forall|i: int| 0 <= i < reqs.len() ==> s.visited.contains((#[trigger] reqs[i]).0)
    &&& forall|i: int|
        0 <= i < s.nodes.len() && (#[trigger] s.nodes[i]) is Mod ==> deps_within(
            s.nodes[i]->Mod_0,
            s.visited,
        )
}

/// Whether `s` is on the way to the closure: as a closure, but what is to be asked for may
/// still be pending.
pub open spec fn on_the_way(
    s: ClosureState,
    entries: Seq<(Seq<char>, Seq<ModReleaseView>)>,
    game_version: ReleaseVersion,
    reqs: Seq<(Seq<char>, ModVersionReq)>,
) -> bool {
    &&& nodes_sound(s, entries, game_version)
    &&& nodes_complete(s, entries, game_version)
    &&& 0 <= s.cursor <= s.pending.len()
    &&& forall|i: int| 0 <= i < s.cursor ==> s.visited.contains(#[trigger] s.pending[i])
    &&& forall|i: int| 0 <= i < reqs.len() ==> s.pending.contains((#[trigger] reqs[i]).0)
    &&& forall|i: int|
        0 <= i < s.nodes.len() && (#[trigger] s.nodes[i]) is Mod ==> deps_within(
            s.nodes[i]->Mod_0,
            s.pending,
        )
    &&& pending_within(s, universe(entries, reqs))
}

/// What is compatible among releases is among the releases and works with the game, and
/// every release that works with the game is among what is compatible.
proof fn lemma_compatible(releases: Seq<ModReleaseView>, game_version: ReleaseVersion, upto: int)
    requires
        0 <= upto <= releases.len(),
    ensures
        forall|j: int|
            0 <= j < compatible(releases, game_version, upto).len() ==> releases.contains(
                #[trigger] compatible(releases, game_version, upto)[j],
            ) && compatible(releases, game_version, upto)[j].factorio_version.matches_spec(
                game_version,
            ),
        forall|k: int|
            0 <= k < upto && (#[trigger] releases[k]).factorio_version.matches_spec(game_version)
                ==> compatible(releases, game_version, upto).contains(releases[k]),
    decreases upto,
{
    if upto > 0 {
        lemma_compatible(releases, game_version, upto - 1);
        let rest = compatible(releases, game_version, upto - 1);
        let all = compatible(releases, game_version, upto);
        assert forall|j: int| 0 <= j < all.len() implies releases.contains(#[trigger] all[j])
            && all[j].factorio_version.matches_spec(game_version) by {}
        assert forall|k: int|
            0 <= k < upto && (#[trigger] releases[k]).factorio_version.matches_spec(
                game_version,
            ) implies all.contains(releases[k]) by {
            if k < upto - 1 {
                let j = choose|j: int| 0 <= j < rest.len() && rest[j] == releases[k];
                assert(all[j] == releases[k]);
            } else {
                assert(all[all.len() - 1] == releases[k]);
            }
        }
    }
}

/// The names that the dependencies of a release that works with the game speak of are
/// among what a load adds to the pending names.
proof fn lemma_wanted_holds(releases: Seq<ModReleaseView>, game_version: ReleaseVersion, upto: int)
    requires
        0 <= upto <= releases.len(),
    ensures
        forall|k: int|
            0 <= k < upto && (#[trigger] releases[k]).factorio_version.matches_spec(game_version)
                ==> deps_within(releases[k], wanted(releases, game_version, upto)),
    decreases upto,
{
    if upto > 0 {
        lemma_wanted_holds(releases, game_version, upto - 1);
        let rest = wanted(releases, game_version, upto - 1);
        let all = wanted(releases, game_version, upto);
        assert forall|k: int|
            0 <= k < upto && (#[trigger] releases[k]).factorio_version.matches_spec(
                game_version,
            ) implies deps_within(releases[k], all) by {
            let r = releases[k];
            assert forall|d: int| 0 <= d < r.dependencies.len() implies all.contains(
                #[trigger] r.dependencies[d].name,
            ) by {
                let x = r.dependencies[d].name;
                if k < upto - 1 {
                    let j = choose|j: int| 0 <= j < rest.len() && rest[j] == x;
                    assert(all[j] == x);
                } else {
                    assert(all[rest.len() + d] == x);
                }
            }
        }
    }
}

/// One step of loading keeps the closure on its way.
proof fn lemma_step(
    s: ClosureState,
    entries: Seq<(Seq<char>, Seq<ModReleaseView>)>,
    game_version: ReleaseVersion,
    reqs: Seq<(Seq<char>, ModVersionReq)>,
)
    requires
        on_the_way(s, entries, game_version, reqs),
        next_unvisited(s.pending, s.visited, s.cursor) < s.pending.len(),
    ensures
        ({
            let k = next_unvisited(s.pending, s.visited, s.cursor);
            let asked = requested(s, k);
            let next = match entry_of(entries, s.pending[k], 0) {
                Some(m) => supplied(asked, entries[m].1, game_version),
                None => asked,
            };
            &&& on_the_way(next, entries, game_version, reqs)
            &&& unvisited(
                universe(entries, reqs),
                next.visited,
                universe(entries, reqs).len() as int,
            ) < unvisited(universe(entries, reqs), s.visited, universe(entries, reqs).len() as int)
        }),
{
    let names = universe(entries, reqs);
    let k = next_unvisited(s.pending, s.visited, s.cursor);
    lemma_skipped(s.pending, s.visited, s.cursor);
    let name = s.pending[k];
    let asked = requested(s, k);
    let releases = offered(entries, name);
    let next = match entry_of(entries, name, 0) {
        Some(m) => supplied(asked, entries[m].1, game_version),
        None => asked,
    };
    let added = compatible(releases, game_version, releases.len() as int);
    let more = wanted(releases, game_version, releases.len() as int);
    lemma_compatible(releases, game_version, releases.len() as int);
    lemma_wanted_holds(releases, game_version, releases.len() as int);
    lemma_entry_of(entries, name, 0);
    // The names of the catalogue that were asked for stay asked for.
    assert forall|n: int| 0 <= n < s.visited.len() implies next.visited[n] == s.visited[n] by {}
    assert(next.visited[s.visited.len() as int] == name);
    assert forall|x: Seq<char>| s.visited.contains(x) implies next.visited.contains(x) by {}
    assert forall|x: Seq<char>| s.pending.contains(x) implies next.pending.contains(x) by {
        let n = choose|n: int| 0 <= n < s.pending.len() && s.pending[n] == x;
        assert(next.pending[n] == x);
    }
    assert forall|r: ModReleaseView| holds(s.nodes, r) implies holds(next.nodes, r) by {
        let i = choose|i: int| 0 <= i < s.nodes.len() && s.nodes[i] == InstallableWhole::Mod(r);
        assert(next.nodes[i] == InstallableWhole::Mod(r));
    }
    // The nodes are sound.
    assert forall|i: int| 1 <= i < next.nodes.len() implies (#[trigger] next.nodes[i]) is Mod
        && sourced(entries, game_version, next.visited, next.nodes[i]->Mod_0) by {}
    // The nodes are complete.
    assert forall|n: int, r: ModReleaseView|
        0 <= n < next.visited.len() && next.visited[n] != base_name() && #[trigger] offers(
            entries,
            game_version,
            next.visited[n],
            r,
        ) implies holds(next.nodes, r) by {
        if n >= s.visited.len() {
            let j = choose|j: int| 0 <= j < added.len() && added[j] == r;
            assert(next.nodes[s.nodes.len() + j] == mods_of(added)[j]);
        }
    }
    // What lies before the cursor was asked for.
    assert forall|i: int| 0 <= i < next.cursor implies next.visited.contains(
        #[trigger] next.pending[i],
    ) by {}
    assert forall|i: int| 0 <= i < reqs.len() implies next.pending.contains(
        (#[trigger] reqs[i]).0,
    ) by {}
    // What the nodes depend on is pending.
    assert forall|i: int|
        0 <= i < next.nodes.len() && (#[trigger] next.nodes[i]) is Mod implies deps_within(
        next.nodes[i]->Mod_0,
        next.pending,
    ) by {
        let r = next.nodes[i]->Mod_0;
        if i < s.nodes.len() {
            assert forall|d: int| 0 <= d < r.dependencies.len() implies next.pending.contains(
                #[trigger] r.dependencies[d].name,
            ) by {}
        } else {
            assert forall|d: int| 0 <= d < r.dependencies.len() implies next.pending.contains(
                #[trigger] r.dependencies[d].name,
            ) by {
                let x = r.dependencies[d].name;
                let w = choose|w: int| 0 <= w < more.len() && more[w] == x;
                assert(next.pending[s.pending.len() + w] == x);
            }
        }
    }
    // What is pending is a name that loading can meet, so one name fewer is left.
    assert forall|i: int| 0 <= i < next.pending.len() implies names.contains(
        #[trigger] next.pending[i],
    ) by {
        let x = next.pending[i];
        if i >= s.pending.len() {
            match entry_of(entries, name, 0) {
                Some(m) => {
                    lemma_wanted(releases, game_version, releases.len() as int);
                    lemma_entry_dep_names(entries, m, entries.len() as int);
                    let deps = entry_dep_names(entries, entries.len() as int);
                    assert(deps.contains(x));
                    let j = choose|j: int| 0 <= j < deps.len() && deps[j] == x;
                    assert(names[names_of(reqs).len() + j] == x);
                },
                None => {},
            }
        }
    }
    lemma_unvisited_shrinks(names, s.visited, name, names.len() as int);
}

/// Loading from a closure on its way ends with the closure.
proof fn lemma_load_from(
    s: ClosureState,
    entries: Seq<(Seq<char>, Seq<ModReleaseView>)>,
    game_version: ReleaseVersion,
    reqs: Seq<(Seq<char>, ModVersionReq)>,
)
    requires
        on_the_way(s, entries, game_version, reqs),
    ensures
        is_closure(
            load_from(s, entries, game_version, universe(entries, reqs)),
            entries,
            game_version,
            reqs,
        ),
    decreases unvisited(universe(entries, reqs), s.visited, universe(entries, reqs).len() as int),
{
    let k = next_unvisited(s.pending, s.visited, s.cursor);
    lemma_skipped(s.pending, s.visited, s.cursor);
    if k >= s.pending.len() {
        let done = ClosureState { cursor: s.pending.len() as int, ..s };
        assert forall|x: Seq<char>| s.pending.contains(x) implies s.visited.contains(x) by {}
        assert forall|i: int|
            0 <= i < done.nodes.len() && (#[trigger] done.nodes[i]) is Mod implies deps_within(
            done.nodes[i]->Mod_0,
            done.visited,
        ) by {
            let r = done.nodes[i]->Mod_0;
            assert forall|d: int| 0 <= d < r.dependencies.len() implies done.visited.contains(
                #[trigger] r.dependencies[d].name,
            ) by {}
        }
        assert forall|i: int| 0 <= i < reqs.len() implies done.visited.contains(
            (#[trigger] reqs[i]).0,
        ) by {}
    } else {
        lemma_step(s, entries, game_version, reqs);
        let asked = requested(s, k);
        let next = match entry_of(entries, s.pending[k], 0) {
            Some(m) => supplied(asked, entries[m].1, game_version),
            None => asked,
        };
        lemma_load_from(next, entries, game_version, reqs);
    }
}

/// What is loaded from a catalogue is the closure of the requirements over it: the game,
/// and exactly the releases that work with the game of the mods that are asked for and of
/// the mods that one of those releases depends on.
pub proof fn lemma_loaded_is_closure(
    entries: Seq<(Seq<char>, Seq<ModReleaseView>)>,
    game_version: ReleaseVersion,
    reqs: Seq<(Seq<char>, ModVersionReq)>,
)
    ensures
        is_closure(loaded(entries, game_version, reqs), entries, game_version, reqs),
{
    let s = initial_state(game_version, reqs);
    let names = universe(entries, reqs);
    assert forall|i: int| 0 <= i < reqs.len() implies s.pending.contains((#[trigger] reqs[i]).0) by {
        assert(s.pending[i] == reqs[i].0);
    }
    assert forall|i: int| 0 <= i < s.pending.len() implies names.contains(#[trigger] s.pending[i]) by {
        assert(names[i] == s.pending[i]);
    }
    lemma_load_from(s, entries, game_version, reqs);
}

} // verus!
