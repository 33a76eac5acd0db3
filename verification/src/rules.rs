//! The rules of resolution, stated over installables as plain values: which installable
//! depends on which, which installables cannot be part of a solution, and what is left of
//! a set of installables when those are removed again and again.

use vstd::prelude::*;
use crate::dependency::DependencyView;
use crate::release::{base_name, InstallableView};
use crate::requirements::lookup_from;
use crate::version::{ModVersionReq, ReleaseVersion};

verus! {

/// The place of the last of the first `upto` dependencies in `deps` that an installable of
/// the given name and version satisfies.
pub open spec fn last_match(
    deps: Seq<DependencyView>,
    name: Seq<char>,
    version: ReleaseVersion,
    upto: int,
) -> Option<int>
    decreases upto,
{
    if upto <= 0 {
        None
    } else if deps[upto - 1].satisfied_by(name, version) {
        Some(upto - 1)
    } else {
        last_match(deps, name, version, upto - 1)
    }
}

/// What `last_match` finds is a dependency that is satisfied, and it finds one if there is
/// one.
pub proof fn lemma_last_match(
    deps: Seq<DependencyView>,
    name: Seq<char>,
    version: ReleaseVersion,
    upto: int,
)
    requires
        0 <= upto <= deps.len(),
    ensures
        match last_match(deps, name, version, upto) {
            Some(k) => 0 <= k < upto && deps[k].satisfied_by(name, version),
            None => forall|k: int| 0 <= k < upto ==> !(#[trigger] deps[k]).satisfied_by(name, version),
        },
    decreases upto,
{
    if upto > 0 && !deps[upto - 1].satisfied_by(name, version) {
        lemma_last_match(deps, name, version, upto - 1);
    }
}

/// The edge from the installable at `u` to the one at `v`, as far as the first `upto`
/// dependencies of `u` tell: there is one if `v` is another installable and satisfies one
/// of those dependencies, and it says whether the last such dependency is required.
pub open spec fn edge_upto(items: Seq<InstallableView>, u: int, v: int, upto: int) -> Option<bool> {
    if u == v {
        None
    } else {
        match last_match(items[u].deps, items[v].name, items[v].version, upto) {
            Some(k) => Some(items[u].deps[k].required),
            None => None,
        }
    }
}

/// The edge from the installable at `u` to the one at `v`, if there is one, and whether it
/// is required.
pub open spec fn edge(items: Seq<InstallableView>, u: int, v: int) -> Option<bool> {
    if 0 <= u < items.len() && 0 <= v < items.len() {
        edge_upto(items, u, v, items[u].deps.len() as int)
    } else {
        None
    }
}

/// Every edge stands for a dependency: the installable at its start has a dependency that
/// the installable at its end satisfies, and the edge says whether that one is required.
pub proof fn lemma_edge(items: Seq<InstallableView>, u: int, v: int)
    ensures
        edge(items, u, v) matches Some(required) ==> 0 <= u < items.len() && 0 <= v < items.len()
            && u != v && exists|k: int|
            0 <= k < items[u].deps.len() && (#[trigger] items[u].deps[k]).satisfied_by(
                items[v].name,
                items[v].version,
            ) && items[u].deps[k].required == required,
        edge(items, u, v).is_none() && 0 <= u < items.len() && 0 <= v < items.len() && u != v
            ==> forall|k: int|
            0 <= k < items[u].deps.len() ==> !(#[trigger] items[u].deps[k]).satisfied_by(
                items[v].name,
                items[v].version,
            ),
{
    if 0 <= u < items.len() && 0 <= v < items.len() && u != v {
        lemma_last_match(items[u].deps, items[v].name, items[v].version, items[u].deps.len() as int);
    }
}

/// Whether one of the installables that `alive` marks satisfies `dep`.
pub open spec fn satisfiable(items: Seq<InstallableView>, alive: Seq<bool>, dep: DependencyView)
    -> bool {
    exists|v: int|
        0 <= v < items.len() && alive[v] && dep.satisfied_by(
            (#[trigger] items[v]).name,
            items[v].version,
        )
}

/// Whether the installable at `u` has a required dependency that none of the installables
/// that `alive` marks satisfies.
pub open spec fn unsatisfied(items: Seq<InstallableView>, alive: Seq<bool>, u: int) -> bool {
    exists|k: int|
        0 <= k < items[u].deps.len() && (#[trigger] items[u].deps[k]).required && !satisfiable(
            items,
            alive,
            items[u].deps[k],
        )
}

/// Whether the installable `item` is of a mod that is asked for, at a version that is not.
pub open spec fn violates(reqs: Seq<(Seq<char>, ModVersionReq)>, item: InstallableView) -> bool {
    lookup_from(reqs, item.name, 0) matches Some(q) && !q.matches_spec(item.version)
}

/// Whether one of the installables that `alive` marks requires the installable at `u`.
pub open spec fn anchored(items: Seq<InstallableView>, alive: Seq<bool>, u: int) -> bool {
    exists|w: int| 0 <= w < items.len() && alive[w] && #[trigger] edge(items, w, u) == Some(true)
}

/// Whether an installable of the given name may be left out of a solution: it is neither
/// the game nor asked for.
pub open spec fn optional(reqs: Seq<(Seq<char>, ModVersionReq)>, name: Seq<char>) -> bool {
    name != base_name() && lookup_from(reqs, name, 0).is_none()
}

/// Whether the installable at `u` may be left out and none of the installables that
/// `alive` marks requires it.
pub open spec fn orphaned(
    items: Seq<InstallableView>,
    reqs: Seq<(Seq<char>, ModVersionReq)>,
    alive: Seq<bool>,
    u: int,
) -> bool {
    optional(reqs, items[u].name) && !anchored(items, alive, u)
}

/// Whether the installables at `u` and at `v` have edges to the same of the installables
/// that `alive` marks.
pub open spec fn same_neighbors(items: Seq<InstallableView>, alive: Seq<bool>, u: int, v: int)
    -> bool {
    forall|t: int|
        0 <= t < items.len() && alive[t] ==> ((#[trigger] edge(items, u, t)).is_some() <==> edge(
            items,
            v,
            t,
        ).is_some())
}

/// Whether the installable at `v` makes the one at `u` superfluous: `v` is marked by
/// `alive`, has the same name and the same neighbours, and is newer; of two such
/// installables of one version the first stays.
pub open spec fn dominated_by(items: Seq<InstallableView>, alive: Seq<bool>, u: int, v: int)
    -> bool {
    &&& 0 <= v < items.len()
    &&& alive[v]
    &&& v != u
    &&& items[v].name == items[u].name
    &&& same_neighbors(items, alive, u, v)
    &&& ((u < v && items[u].version.lt_spec(items[v].version)) || (v < u
        && !items[v].version.lt_spec(items[u].version)))
}

/// Whether some installable makes the one at `u` superfluous.
pub open spec fn dominated(items: Seq<InstallableView>, alive: Seq<bool>, u: int) -> bool {
    exists|v: int| #[trigger] dominated_by(items, alive, u, v)
}

/// Whether the installable at `u` is to be removed: it has an unsatisfied required
/// dependency, violates a requirement, is an orphan or is superfluous.
pub open spec fn doomed(
    items: Seq<InstallableView>,
    reqs: Seq<(Seq<char>, ModVersionReq)>,
    alive: Seq<bool>,
    u: int,
) -> bool {
    ||| unsatisfied(items, alive, u)
    ||| violates(reqs, items[u])
    ||| orphaned(items, reqs, alive, u)
    ||| dominated(items, alive, u)
}

/// The installables that are left of those that `alive` marks after one pass of removals.
pub open spec fn pass(
    items: Seq<InstallableView>,
    reqs: Seq<(Seq<char>, ModVersionReq)>,
    alive: Seq<bool>,
) -> Seq<bool> {
    Seq::new(items.len(), |u: int| alive[u] && !doomed(items, reqs, alive, u))
}

/// Whether one of the installables that `alive` marks has the given name.
pub open spec fn present(items: Seq<InstallableView>, alive: Seq<bool>, name: Seq<char>) -> bool {
    exists|v: int| 0 <= v < items.len() && alive[v] && (#[trigger] items[v]).name == name
}

/// The first mod asked for, from place `from` of `reqs` on, of which `alive` marks no
/// installable.
pub open spec fn missing_from(
    items: Seq<InstallableView>,
    reqs: Seq<(Seq<char>, ModVersionReq)>,
    alive: Seq<bool>,
    from: int,
) -> Option<Seq<char>>
    decreases reqs.len() - from,
{
    if from < 0 || from >= reqs.len() {
        None
    } else if !present(items, alive, reqs[from].0) {
        Some(reqs[from].0)
    } else {
        missing_from(items, reqs, alive, from + 1)
    }
}

/// How many of the first `upto` places `alive` marks.
pub open spec fn count(alive: Seq<bool>, upto: int) -> nat
    decreases upto,
{
    if upto <= 0 {
        0
    } else if alive[upto - 1] {
        count(alive, upto - 1) + 1
    } else {
        count(alive, upto - 1)
    }
}

/// What is left of the installables that `alive` marks when passes of removals are made
/// until a pass removes nothing; or the first mod asked for of which, before some pass, no
/// installable was left.
pub open spec fn prune(
    items: Seq<InstallableView>,
    reqs: Seq<(Seq<char>, ModVersionReq)>,
    alive: Seq<bool>,
) -> Result<Seq<bool>, Seq<char>>
    decreases count(alive, alive.len() as int),
{
    match missing_from(items, reqs, alive, 0) {
        Some(name) => Err(name),
        None => {
            let next = pass(items, reqs, alive);
            if next == alive {
                Ok(alive)
            } else if count(next, next.len() as int) < count(alive, alive.len() as int) {
                prune(items, reqs, next)
            } else {
                Ok(alive)
            }
        },
    }
}

/// Marks fewer places than `alive` does whatever marks only places that `alive` marks, and
/// not all of them.
pub proof fn lemma_count_shrinks(alive: Seq<bool>, next: Seq<bool>, upto: int)
    requires
        alive.len() == next.len(),
        0 <= upto <= alive.len(),
        forall|i: int| 0 <= i < upto ==> (#[trigger] next[i] ==> alive[i]),
    ensures
        count(next, upto) <= count(alive, upto),
        (exists|i: int| 0 <= i < upto && alive[i] && !#[trigger] next[i]) ==> count(next, upto)
            < count(alive, upto),
    decreases upto,
{
    if upto > 0 {
        lemma_count_shrinks(alive, next, upto - 1);
    }
}

/// Marks on each of `n` places.
pub open spec fn all_marked(n: nat) -> Seq<bool> {
    Seq::new(n, |i: int| true)
}

/// A pass that changes something leaves fewer installables.
pub proof fn lemma_pass_shrinks(
    items: Seq<InstallableView>,
    reqs: Seq<(Seq<char>, ModVersionReq)>,
    alive: Seq<bool>,
)
    requires
        alive.len() == items.len(),
    ensures
        pass(items, reqs, alive) != alive ==> count(
            pass(items, reqs, alive),
            items.len() as int,
        ) < count(alive, alive.len() as int),
{
    let next = pass(items, reqs, alive);
    if next != alive {
        if forall|i: int| 0 <= i < alive.len() ==> next[i] == alive[i] {
            assert(next =~= alive);
        }
        lemma_count_shrinks(alive, next, alive.len() as int);
    }
}

/// What pruning leaves is stable: another pass removes nothing from it, every mod asked for
/// has an installable in it, and it is part of what pruning started from.
pub proof fn lemma_prune_stable(
    items: Seq<InstallableView>,
    reqs: Seq<(Seq<char>, ModVersionReq)>,
    alive: Seq<bool>,
)
    requires
        alive.len() == items.len(),
    ensures
        prune(items, reqs, alive) matches Ok(left) ==> {
            &&& left.len() == items.len()
            &&& pass(items, reqs, left) == left
            &&& missing_from(items, reqs, left, 0).is_none()
            &&& forall|i: int| 0 <= i < items.len() ==> (#[trigger] left[i] ==> alive[i])
        },
    decreases count(alive, alive.len() as int),
{
    if missing_from(items, reqs, alive, 0).is_none() {
        let next = pass(items, reqs, alive);
        lemma_pass_shrinks(items, reqs, alive);
        if next != alive {
            lemma_prune_stable(items, reqs, next);
        }
    }
}

} // verus!
