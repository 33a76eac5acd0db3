//! Resolution: from the installables of a closure and the requirements to one release per
//! mod, or to the reason why there is none.

use vstd::prelude::*;
use crate::answer::{
    complete_answer,
    lemma_complete_answer,
    lemma_sound_answer,
    lemma_taken_from,
    picked,
    release_views,
    releases_in,
    sound_answer,
    taken_from,
};
use crate::candidates::{best_pick, find_best, group, picks_within, possibilities};
use crate::catalogue::{load_closure, loaded, sourced, state_of, Catalogue};
use crate::closure::Closure;
use crate::error::ErrorKind;
use crate::permute::{first_state, sizes_of};
use crate::picks::lemma_search;
use crate::prune::{build_graph, prune_nodes};
use crate::release::{
    items_in,
    items_of,
    wholes_of,
    Installable,
    InstallableView,
    InstallableWhole,
    ModRelease,
    ModReleaseView,
};
use crate::requirements::Requirements;
use crate::rules::{all_marked, lemma_prune_stable, prune};
use crate::types::ModName;
use crate::version::{ModVersionReq, ReleaseVersion};

verus! {

/// What resolution gives for the installables `items` and the requirements `reqs`: the
/// best pick among what pruning leaves; or, as the reason why there is none, the mod asked
/// for of which pruning left nothing, or no reason if no pick makes a valid assignment.
pub open spec fn resolve(items: Seq<InstallableView>, reqs: Seq<(Seq<char>, ModVersionReq)>)
    -> Result<Seq<Option<usize>>, Option<Seq<char>>> {
    match prune(items, reqs, all_marked(items.len())) {
        Err(name) => Err(Some(name)),
        Ok(left) => match best_pick(items, possibilities(items, reqs, left)) {
            Some(pick) => Ok(pick),
            None => Err(None),
        },
    }
}

/// Copies out the releases that `pick` chooses among `nodes`, each under the name of its
/// mod. The game itself is left out.
pub fn project(nodes: &Vec<Installable>, pick: &Vec<Option<usize>>) -> (r: Vec<
    (ModName, ModRelease),
>)
    requires
        picks_within(pick@, nodes.len() as nat),
    ensures
        release_views(r@) == releases_in(wholes_of(nodes@), pick@, pick.len() as int),
        forall|e: int| 0 <= e < r.len() ==> (#[trigger] r[e]).0@ == r[e].1@.name,
{
    let mut out: Vec<(ModName, ModRelease)> = Vec::new();
    let mut i: usize = 0;
    while i < pick.len()
        invariant
            i <= pick.len(),
            picks_within(pick@, nodes.len() as nat),
            release_views(out@) == releases_in(wholes_of(nodes@), pick@, i as int),
            forall|e: int| 0 <= e < out.len() ==> (#[trigger] out[e]).0@ == out[e].1@.name,
        decreases pick.len() - i,
    {
        match pick[i] {
            Some(p) => {
                match &nodes[p] {
                    Installable::Mod(release) => {
                        let copy = release.clone();
                        out.push((release.name.clone(), copy));
                        proof {
                            assert forall|e: int| 0 <= e < out.len() implies (#[trigger] out[e]).0@
                                == out[e].1@.name by {}
                        }
                    },
                    Installable::Base(_, _) => {},
                }
            },
            None => {},
        }
        i += 1;
    }
    out
}

/// What resolution gives for the installables `wholes` and the requirements `reqs`: the
/// releases that the best pick among what pruning leaves chooses; or, as the reason why
/// there is none, the mod asked for of which pruning left nothing, or no reason if no pick
/// makes a valid assignment.
pub open spec fn resolution(wholes: Seq<InstallableWhole>, reqs: Seq<(Seq<char>, ModVersionReq)>)
    -> Result<Seq<ModReleaseView>, Option<Seq<char>>> {
    match resolve(items_in(wholes), reqs) {
        Ok(pick) => Ok(releases_in(wholes, pick, pick.len() as int)),
        Err(reason) => Err(reason),
    }
}

/// The installables of a closure are seen the same whether they are looked at directly or
/// as plain values.
proof fn lemma_items_in(nodes: Seq<Installable>)
    ensures
        items_of(nodes) == items_in(wholes_of(nodes)),
{
    assert forall|i: int| 0 <= i < nodes.len() implies nodes[i]@ == wholes_of(nodes)[i].seen() by {}
}

/// The text in an optional name.
pub open spec fn optional_name(name: Option<String>) -> Option<Seq<char>> {
    match name {
        Some(t) => Some(t@),
        None => None,
    }
}

/// Resolves the requirements `reqs` over the installables of `closure`: builds the graph of
/// dependencies, prunes what cannot be part of a solution, and searches what is left for
/// the best valid assignment. Hands out the releases of that assignment, each under the
/// name of its mod.
///
/// Fails with `NoSolution` and the name of a mod asked for if pruning leaves no release of
/// it, and with `NoSolution` and no name if no assignment is valid.
pub fn solve(closure: &Closure, reqs: &Requirements) -> (r: Result<
    Vec<(ModName, ModRelease)>,
    ErrorKind,
>)
    requires
        closure.wf(),
    ensures
        match r {
            Ok(solution) => {
                &&& resolution(wholes_of(closure.nodes()), reqs.pairs()) == Ok::<
                    Seq<ModReleaseView>,
                    Option<Seq<char>>,
                >(release_views(solution@))
                &&& forall|e: int|
                    0 <= e < solution.len() ==> (#[trigger] solution[e]).0@ == solution[e].1@.name
                &&& sound_answer(release_views(solution@), reqs.pairs(), closure.game_version())
                &&& complete_answer(release_views(solution@), reqs.pairs())
                &&& taken_from(release_views(solution@), wholes_of(closure.nodes()))
            },
            Err(ErrorKind::NoSolution(name)) => resolution(
                wholes_of(closure.nodes()),
                reqs.pairs(),
            ) == Err::<Seq<ModReleaseView>, Option<Seq<char>>>(optional_name(name)),
            Err(_) => false,
        },
{
    let nodes = closure.installables();
    let ghost items = items_of(nodes@);
    proof {
        lemma_items_in(nodes@);
    }
    let graph = build_graph(nodes);
    let left = match prune_nodes(nodes, &graph, reqs) {
        Ok(left) => left,
        Err(name) => {
            return Err(ErrorKind::NoSolution(Some(name.to_string())));
        },
    };
    proof {
        lemma_prune_stable(items, reqs.pairs(), all_marked(nodes.len() as nat));
    }
    let lists = group(nodes, reqs, &left);
    let ghost ls = possibilities(items, reqs.pairs(), left@);
    match find_best(nodes, lists) {
        None => Err(ErrorKind::NoSolution(None)),
        Some(pick) => {
            proof {
                assert forall|i: int| 0 <= i < ls.len() implies (#[trigger] ls[i]).len()
                    <= usize::MAX by {}
                let start = first_state(ls.len());
                assert forall|i: int| 0 <= i < start.len() implies (#[trigger] start[i])
                    < sizes_of(ls)[i] by {}
                lemma_search(items, ls, start, None, false);
                lemma_sound_answer(
                    wholes_of(nodes@),
                    reqs.pairs(),
                    closure.game_version(),
                    left@,
                    pick@,
                );
                lemma_complete_answer(
                    wholes_of(nodes@),
                    reqs.pairs(),
                    closure.game_version(),
                    left@,
                    pick@,
                );
            }
            proof {
                assert forall|s: int| 0 <= s < pick@.len() && pick@[s].is_some() implies 0
                    <= #[trigger] picked(pick@, s) < wholes_of(nodes@).len() by {}
                lemma_taken_from(wholes_of(nodes@), pick@);
            }
            Ok(project(nodes, &pick))
        },
    }
}

/// Whether the catalogue offers each of `releases` under one of `names`, and each works
/// with the game.
pub open spec fn offered_by(
    releases: Seq<ModReleaseView>,
    entries: Seq<(Seq<char>, Seq<ModReleaseView>)>,
    game_version: ReleaseVersion,
    names: Seq<Seq<char>>,
) -> bool {
    forall|e: int|
        0 <= e < releases.len() ==> sourced(entries, game_version, names, #[trigger] releases[e])
}

/// Resolves the requirements `reqs` for the game at `game_version` over the catalogue: loads
/// the closure of the requirements from the catalogue and resolves over it.
pub fn resolve_catalogue(catalogue: &Catalogue, game_version: ReleaseVersion, reqs: &Requirements)
    -> (r: Result<Vec<(ModName, ModRelease)>, ErrorKind>)
    ensures
        match r {
            Ok(solution) => {
                &&& resolution(
                    loaded(catalogue.entries(), game_version, reqs.pairs()).nodes,
                    reqs.pairs(),
                ) == Ok::<Seq<ModReleaseView>, Option<Seq<char>>>(release_views(solution@))
                &&& forall|e: int|
                    0 <= e < solution.len() ==> (#[trigger] solution[e]).0@ == solution[e].1@.name
                &&& sound_answer(release_views(solution@), reqs.pairs(), game_version)
                &&& complete_answer(release_views(solution@), reqs.pairs())
                &&& offered_by(
                    release_views(solution@),
                    catalogue.entries(),
                    game_version,
                    loaded(catalogue.entries(), game_version, reqs.pairs()).visited,
                )
            },
            Err(ErrorKind::NoSolution(name)) => resolution(
                loaded(catalogue.entries(), game_version, reqs.pairs()).nodes,
                reqs.pairs(),
            ) == Err::<Seq<ModReleaseView>, Option<Seq<char>>>(optional_name(name)),
            Err(_) => false,
        },
{
    let closure = load_closure(catalogue, game_version, reqs);
    let r = solve(&closure, reqs);
    proof {
        if r is Ok {
            let releases = release_views(r->Ok_0@);
            let state = state_of(closure);
            assert forall|e: int| 0 <= e < releases.len() implies sourced(
                catalogue.entries(),
                game_version,
                state.visited,
                #[trigger] releases[e],
            ) by {
                let node = InstallableWhole::Mod(releases[e]);
                assert(state.nodes.contains(node));
                let i = choose|i: int| 0 <= i < state.nodes.len() && state.nodes[i] == node;
                assert(state.nodes[i] is Mod);
            }
        }
    }
    r
}

/// Resolution is repeatable: the same catalogue, the same version of the game and the same
/// requirements give the same releases, or the same reason why there are none.
pub proof fn lemma_resolution_repeatable(
    first: Seq<(Seq<char>, Seq<ModReleaseView>)>,
    second: Seq<(Seq<char>, Seq<ModReleaseView>)>,
    game_version: ReleaseVersion,
    reqs: Seq<(Seq<char>, ModVersionReq)>,
)
    requires
        first == second,
    ensures
        resolution(loaded(first, game_version, reqs).nodes, reqs) == resolution(
            loaded(second, game_version, reqs).nodes,
            reqs,
        ),
{
}

} // verus!
