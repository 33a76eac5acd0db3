//! What holds of the releases that a resolution hands out: that they are sound and
//! complete for the requirements, and that no later candidate dominates them.

use vstd::prelude::*;
use crate::candidates::{
    assignment,
    best_pick,
    chosen,
    lemma_members,
    lemma_slot_names,
    members,
    possibilities,
    slot_names,
};
use crate::dependency::DependencyView;
use crate::permute::{in_range, lemma_states_left_bound, picks, sizes_of};
use crate::picks::{
    candidate_valid,
    drawn_from,
    left_of,
    lemma_best_pick_tops,
    lemma_best_pick_unbeaten,
    lists_ok,
    state_of,
    taken_at,
};
use crate::release::{
    base_name,
    items_in,
    InstallableView,
    InstallableWhole,
    ModRelease,
    ModReleaseView,
};
use crate::requirements::lookup_from;
use crate::rules::{all_marked, lemma_prune_stable, missing_from, optional, present, prune};
use crate::solution::{at_least, distinct_names, lemma_newer_is_preferred, somewhere_newer, valid};
use crate::types::ModName;
use crate::version::{ModVersionReq, ReleaseVersion};

verus! {

/// The releases among the installables that the first `upto` picks of `pick` choose.
pub open spec fn releases_in(wholes: Seq<InstallableWhole>, pick: Seq<Option<usize>>, upto: int)
    -> Seq<ModReleaseView>
    decreases upto,
{
    if upto <= 0 {
        Seq::empty()
    } else {
        let rest = releases_in(wholes, pick, upto - 1);
        match pick[upto - 1] {
            Some(p) => match wholes[p as int] {
                InstallableWhole::Mod(release) => rest.push(release),
                InstallableWhole::Base(_, _) => rest,
            },
            None => rest,
        }
    }
}

/// The releases in `solution` as plain values.
pub open spec fn release_views(solution: Seq<(ModName, ModRelease)>) -> Seq<ModReleaseView> {
    Seq::new(solution.len(), |i: int| solution[i].1@)
}

/// Whether `releases` and the game at `game_version` meet the dependency `dep`: it is
/// optional, or one of the releases satisfies it, or the game does.
pub open spec fn dep_met(
    releases: Seq<ModReleaseView>,
    game_version: ReleaseVersion,
    dep: DependencyView,
) -> bool {
    ||| !dep.required
    ||| exists|e: int|
        0 <= e < releases.len() && dep.satisfied_by((#[trigger] releases[e]).name, releases[e].version)
    ||| dep.satisfied_by(base_name(), game_version)
}

/// Whether `releases` respect the dependency `dep`: each of them that is of the mod that
/// `dep` speaks of is of a version that satisfies it.
pub open spec fn dep_respected(releases: Seq<ModReleaseView>, dep: DependencyView) -> bool {
    forall|e: int|
        0 <= e < releases.len() && (#[trigger] releases[e]).name == dep.name
            ==> dep.version.matches_spec(releases[e].version)
}

/// Whether the pick `pick` is one that resolution can hand out for the wholes `wholes`, of
/// which `left` marks what pruning leaves: each of its places holds what a solution can
/// hold under the name of that place, and its assignment is valid.
pub open spec fn sound_pick(
    items: Seq<InstallableView>,
    reqs: Seq<(Seq<char>, ModVersionReq)>,
    left: Seq<bool>,
    pick: Seq<Option<usize>>,
) -> bool {
    &&& drawn_from(pick, possibilities(items, reqs, left))
    &&& valid(assignment(items, pick))
}

/// What a sound pick holds at a place is nothing, where the name of the place may be left
/// out, or a node of that name that pruning left.
proof fn lemma_drawn(
    items: Seq<InstallableView>,
    reqs: Seq<(Seq<char>, ModVersionReq)>,
    left: Seq<bool>,
    pick: Seq<Option<usize>>,
    s: int,
)
    requires
        items.len() <= usize::MAX,
        left.len() == items.len(),
        drawn_from(pick, possibilities(items, reqs, left)),
        0 <= s < pick.len(),
    ensures
        match pick[s] {
            Some(p) => p < items.len() && left[p as int] && items[p as int].name == slot_names(
                items,
                left,
                items.len() as int,
            )[s],
            None => optional(reqs, slot_names(items, left, items.len() as int)[s]),
        },
{
    let names = slot_names(items, left, items.len() as int);
    let lists = possibilities(items, reqs, left);
    assert(lists[s].contains(pick[s]));
    lemma_members(items, left, names[s], items.len() as int);
}

/// The place that `pick` holds at `s`.
pub open spec fn picked(pick: Seq<Option<usize>>, s: int) -> int {
    pick[s].unwrap() as int
}

/// Whether one of the first `upto` places of `pick` holds the place of `x` among `items`.
pub open spec fn picks_item(
    items: Seq<InstallableView>,
    pick: Seq<Option<usize>>,
    upto: int,
    x: InstallableView,
) -> bool {
    exists|s: int| 0 <= s < upto && pick[s].is_some() && items[#[trigger] picked(pick, s)] == x
}

/// Whether one of the first `upto` places of `pick` holds the place of the release `x`
/// among `wholes`.
pub open spec fn picks_release(
    wholes: Seq<InstallableWhole>,
    pick: Seq<Option<usize>>,
    upto: int,
    x: ModReleaseView,
) -> bool {
    exists|s: int|
        0 <= s < upto && pick[s].is_some() && wholes[#[trigger] picked(pick, s)] is Mod
            && wholes[picked(pick, s)]->Mod_0 == x
}

/// The installables that a pick chooses are those at the places that it holds.
proof fn lemma_chosen(items: Seq<InstallableView>, pick: Seq<Option<usize>>, upto: int)
    requires
        0 <= upto <= pick.len(),
    ensures
        forall|j: int|
            0 <= j < chosen(items, pick, upto).len() ==> picks_item(
                items,
                pick,
                upto,
                #[trigger] chosen(items, pick, upto)[j],
            ),
        forall|s: int|
            0 <= s < upto && pick[s].is_some() ==> chosen(items, pick, upto).contains(
                items[#[trigger] picked(pick, s)],
            ),
    decreases upto,
{
    if upto > 0 {
        lemma_chosen(items, pick, upto - 1);
        let rest = chosen(items, pick, upto - 1);
        let all = chosen(items, pick, upto);
        assert forall|j: int| 0 <= j < all.len() implies picks_item(
            items,
            pick,
            upto,
            #[trigger] all[j],
        ) by {
            if j >= rest.len() {
                assert(pick[upto - 1].is_some() && items[picked(pick, upto - 1)] == all[j]);
            }
        }
        assert forall|s: int| 0 <= s < upto && pick[s].is_some() implies all.contains(
            items[#[trigger] picked(pick, s)],
        ) by {
            let x = items[picked(pick, s)];
            if s < upto - 1 {
                let j = choose|j: int| 0 <= j < rest.len() && rest[j] == x;
                assert(all[j] == x);
            } else {
                assert(all[all.len() - 1] == x);
            }
        }
    }
}

/// The releases that a pick chooses are the releases at the places that it holds.
proof fn lemma_releases_in(wholes: Seq<InstallableWhole>, pick: Seq<Option<usize>>, upto: int)
    requires
        0 <= upto <= pick.len(),
    ensures
        forall|e: int|
            0 <= e < releases_in(wholes, pick, upto).len() ==> picks_release(
                wholes,
                pick,
                upto,
                #[trigger] releases_in(wholes, pick, upto)[e],
            ),
        forall|s: int|
            0 <= s < upto && pick[s].is_some() && wholes[#[trigger] picked(pick, s)] is Mod
                ==> releases_in(wholes, pick, upto).contains(wholes[picked(pick, s)]->Mod_0),
    decreases upto,
{
    if upto > 0 {
        lemma_releases_in(wholes, pick, upto - 1);
        let rest = releases_in(wholes, pick, upto - 1);
        let all = releases_in(wholes, pick, upto);
        assert forall|e: int| 0 <= e < all.len() implies picks_release(
            wholes,
            pick,
            upto,
            #[trigger] all[e],
        ) by {
            if e < rest.len() {
                let s = choose|s: int|
                    0 <= s < upto - 1 && pick[s].is_some() && wholes[#[trigger] picked(pick, s)] is Mod
                        && wholes[picked(pick, s)]->Mod_0 == rest[e];
                assert(pick[s].is_some() && wholes[picked(pick, s)] is Mod && wholes[picked(
                    pick,
                    s,
                )]->Mod_0 == all[e]);
            } else {
                let s = upto - 1;
                assert(pick[s].is_some() && wholes[picked(pick, s)] is Mod && wholes[picked(
                    pick,
                    s,
                )]->Mod_0 == all[e]);
            }
        }
        assert forall|s: int|
            0 <= s < upto && pick[s].is_some() && wholes[#[trigger] picked(pick, s)] is Mod implies all.contains(
            wholes[picked(pick, s)]->Mod_0,
        ) by {
            let x = wholes[picked(pick, s)]->Mod_0;
            if s < upto - 1 {
                let j = choose|j: int| 0 <= j < rest.len() && rest[j] == x;
                assert(all[j] == x);
            } else {
                assert(all[all.len() - 1] == x);
            }
        }
    }
}

/// Whether the release `release` is of a version that is asked for, if its mod is asked
/// for at all.
pub open spec fn meets_requirement(reqs: Seq<(Seq<char>, ModVersionReq)>, release: ModReleaseView)
    -> bool {
    match lookup_from(reqs, release.name, 0) {
        Some(q) => q.matches_spec(release.version),
        None => true,
    }
}

/// Whether the wholes are those of a closure for the game at `game_version`: the first is the
/// game, the others are releases that work with it.
pub open spec fn closure_nodes(wholes: Seq<InstallableWhole>, game_version: ReleaseVersion) -> bool {
    &&& wholes.len() >= 1
    &&& wholes[0] is Base
    &&& wholes[0].seen().name == base_name()
    &&& wholes[0].seen().version == game_version
    &&& forall|i: int|
        1 <= i < wholes.len() ==> (#[trigger] wholes[i]) is Mod
            && wholes[i]->Mod_0.factorio_version.matches_spec(game_version)
}

/// Whether the releases `releases` are a sound answer to the requirements `reqs` for the
/// game at `game_version`: each is of a version that is asked for, works with the game,
/// and has each of its dependencies met by the releases or by the game and respected by
/// the releases.
pub open spec fn sound_answer(
    releases: Seq<ModReleaseView>,
    reqs: Seq<(Seq<char>, ModVersionReq)>,
    game_version: ReleaseVersion,
) -> bool {
    forall|e: int|
        0 <= e < releases.len() ==> {
            &&& meets_requirement(reqs, #[trigger] releases[e])
            &&& releases[e].factorio_version.matches_spec(game_version)
            &&& forall|k: int|
                0 <= k < releases[e].dependencies.len() ==> dep_met(
                    releases,
                    game_version,
                    #[trigger] releases[e].dependencies[k],
                ) && dep_respected(releases, releases[e].dependencies[k])
        }
}

/// The releases of a sound pick from what pruning left of a closure are a sound answer.
pub proof fn lemma_sound_answer(
    wholes: Seq<InstallableWhole>,
    reqs: Seq<(Seq<char>, ModVersionReq)>,
    game_version: ReleaseVersion,
    left: Seq<bool>,
    pick: Seq<Option<usize>>,
)
    requires
        wholes.len() <= usize::MAX,
        closure_nodes(wholes, game_version),
        prune(items_in(wholes), reqs, all_marked(wholes.len())) == Ok::<Seq<bool>, Seq<char>>(left),
        sound_pick(items_in(wholes), reqs, left, pick),
    ensures
        sound_answer(releases_in(wholes, pick, pick.len() as int), reqs, game_version),
{
    let items = items_in(wholes);
    let len = pick.len() as int;
    let releases = releases_in(wholes, pick, len);
    lemma_prune_stable(items, reqs, all_marked(wholes.len()));
    lemma_releases_in(wholes, pick, len);
    lemma_chosen(items, pick, len);
    let picked_items = assignment(items, pick);
    assert forall|e: int| 0 <= e < releases.len() implies {
        &&& meets_requirement(reqs, #[trigger] releases[e])
        &&& releases[e].factorio_version.matches_spec(game_version)
        &&& forall|k: int|
            0 <= k < releases[e].dependencies.len() ==> dep_met(
                releases,
                game_version,
                #[trigger] releases[e].dependencies[k],
            ) && dep_respected(releases, releases[e].dependencies[k])
    } by {
        let x = releases[e];
        let s = choose|s: int|
            0 <= s < len && pick[s].is_some() && wholes[#[trigger] picked(pick, s)] is Mod
                && wholes[picked(pick, s)]->Mod_0 == x;
        lemma_drawn(items, reqs, left, pick, s);
        // The node was left by a pass that removes nothing, so it violates no requirement.
        assert forall|k: int| 0 <= k < x.dependencies.len() implies dep_met(
            releases,
            game_version,
            #[trigger] x.dependencies[k],
        ) && dep_respected(releases, x.dependencies[k]) by {
            let dep = x.dependencies[k];
            assert forall|e3: int|
                0 <= e3 < releases.len() && (#[trigger] releases[e3]).name
                    == dep.name implies dep.version.matches_spec(releases[e3].version) by {
                let y = releases[e3];
                let s3 = choose|s3: int|
                    0 <= s3 < len && pick[s3].is_some() && wholes[#[trigger] picked(pick, s3)] is Mod
                        && wholes[picked(pick, s3)]->Mod_0 == y;
                let p3 = picked(pick, s3);
                lemma_drawn(items, reqs, left, pick, s3);
                let j3 = choose|j3: int| 0 <= j3 < picked_items.len() && picked_items[j3] == items[p3];
                assert(dep.version.matches_spec(picked_items[j3].version));
            }
            if dep.required {
                let j2 = choose|j2: int|
                    0 <= j2 < picked_items.len() && (#[trigger] picked_items[j2]).name == dep.name;
                let s2 = choose|s2: int|
                    0 <= s2 < len && pick[s2].is_some() && items[#[trigger] picked(pick, s2)]
                        == picked_items[j2];
                let p2 = picked(pick, s2);
                lemma_drawn(items, reqs, left, pick, s2);
                assert(items[p2] == wholes[p2].seen());
            }
        }
    }
}

/// The members of a name are no more than the installables looked at.
proof fn lemma_members_len(
    items: Seq<InstallableView>,
    alive: Seq<bool>,
    name: Seq<char>,
    upto: int,
)
    requires
        0 <= upto,
    ensures
        members(items, alive, name, upto).len() <= upto,
    decreases upto,
{
    if upto > 0 {
        lemma_members_len(items, alive, name, upto - 1);
    }
}

/// Under every name among what is left there is something that a solution can hold.
pub proof fn lemma_possibilities_ok(
    items: Seq<InstallableView>,
    reqs: Seq<(Seq<char>, ModVersionReq)>,
    left: Seq<bool>,
)
    requires
        items.len() < usize::MAX,
        left.len() == items.len(),
    ensures
        lists_ok(possibilities(items, reqs, left)),
{
    let n = items.len() as int;
    let names = slot_names(items, left, n);
    let lists = possibilities(items, reqs, left);
    lemma_slot_names(items, left, n);
    assert forall|i: int| 0 <= i < lists.len() implies 0 < (#[trigger] lists[i]).len()
        <= usize::MAX by {
        lemma_members(items, left, names[i], n);
        lemma_members_len(items, left, names[i], n);
    }
}

/// The installables that the first `upto` places of a pick choose have the names of places
/// among those, and no two have the same name.
proof fn lemma_chosen_names(
    items: Seq<InstallableView>,
    names: Seq<Seq<char>>,
    pick: Seq<Option<usize>>,
    upto: int,
)
    requires
        0 <= upto <= pick.len(),
        pick.len() == names.len(),
        forall|s: int, t: int| 0 <= s < t < names.len() ==> names[s] != names[t],
        forall|s: int|
            0 <= s < pick.len() && pick[s].is_some() ==> 0 <= #[trigger] picked(pick, s)
                < items.len() && items[picked(pick, s)].name == names[s],
    ensures
        forall|e: int|
            0 <= e < chosen(items, pick, upto).len() ==> exists|s: int|
                0 <= s < upto && #[trigger] names[s] == (#[trigger] chosen(items, pick, upto)[e]).name,
        distinct_names(chosen(items, pick, upto)),
    decreases upto,
{
    if upto > 0 {
        lemma_chosen_names(items, names, pick, upto - 1);
        let rest = chosen(items, pick, upto - 1);
        let all = chosen(items, pick, upto);
        let last = upto - 1;
        if pick[last].is_some() {
            assert(items[picked(pick, last)].name == names[last]);
        }
        assert forall|e: int| 0 <= e < all.len() implies exists|s: int|
            0 <= s < upto && #[trigger] names[s] == (#[trigger] all[e]).name by {
            if e < rest.len() {
                let s = choose|s: int| 0 <= s < upto - 1 && #[trigger] names[s] == rest[e].name;
                assert(names[s] == all[e].name);
            }
        }
        assert forall|e: int, f: int|
            0 <= e < all.len() && 0 <= f < all.len() && all[e].name == all[f].name implies e
            == f by {}
    }
}

/// The assignment of a pick from what is left holds no name twice.
pub proof fn lemma_assignment_distinct(
    items: Seq<InstallableView>,
    reqs: Seq<(Seq<char>, ModVersionReq)>,
    left: Seq<bool>,
    pick: Seq<Option<usize>>,
)
    requires
        items.len() <= usize::MAX,
        left.len() == items.len(),
        drawn_from(pick, possibilities(items, reqs, left)),
    ensures
        distinct_names(assignment(items, pick)),
{
    let names = slot_names(items, left, items.len() as int);
    lemma_slot_names(items, left, items.len() as int);
    assert forall|s: int| 0 <= s < pick.len() && pick[s].is_some() implies 0 <= #[trigger] picked(
        pick,
        s,
    ) < items.len() && items[picked(pick, s)].name == names[s] by {
        lemma_drawn(items, reqs, left, pick, s);
    }
    lemma_chosen_names(items, names, pick, pick.len() as int);
}

/// Whether the assignment `b` dominates the assignment `a`: it holds every name that the
/// two share at the same or a newer version, and one of them at a newer version.
pub open spec fn dominates(b: Seq<InstallableView>, a: Seq<InstallableView>) -> bool {
    at_least(a, b) && somewhere_newer(a, b)
}

/// Whether none of the valid picks that the search through `lists` looks at after the pick
/// of the state `t` dominates that pick.
pub open spec fn undominated_after(
    items: Seq<InstallableView>,
    lists: Seq<Seq<Option<usize>>>,
    t: Seq<usize>,
) -> bool {
    forall|later: Seq<usize>|
        in_range(later, sizes_of(lists)) && left_of(lists, later) < left_of(lists, t)
            && #[trigger] candidate_valid(items, lists, later) ==> !dominates(
            assignment(items, picks(lists, later)),
            assignment(items, picks(lists, t)),
        )
}

/// The pick that resolution hands out is not dominated by a valid pick that the search
/// looks at after it: of two valid assignments of which the later one holds the shared
/// names at newer versions, the earlier is never handed out.
pub proof fn lemma_resolved_pick_undominated(
    items: Seq<InstallableView>,
    reqs: Seq<(Seq<char>, ModVersionReq)>,
    left: Seq<bool>,
)
    requires
        items.len() < usize::MAX,
        left.len() == items.len(),
    ensures
        best_pick(items, possibilities(items, reqs, left)) matches Some(r) ==> exists|
            t: Seq<usize>,
        | #[trigger]
            taken_at(items, possibilities(items, reqs, left), r, t) && undominated_after(
                items,
                possibilities(items, reqs, left),
                t,
            ),
{
    let lists = possibilities(items, reqs, left);
    lemma_possibilities_ok(items, reqs, left);
    lemma_best_pick_unbeaten(items, lists);
    if best_pick(items, lists).is_some() {
        let r = best_pick(items, lists).unwrap();
        let t = choose|t: Seq<usize>| #[trigger] taken_at(items, lists, r, t);
        let sizes = sizes_of(lists);
        assert(drawn_from(r, lists)) by {
            assert forall|s: int| 0 <= s < r.len() implies (#[trigger] lists[s]).contains(r[s]) by {}
        }
        lemma_assignment_distinct(items, reqs, left, r);
        assert forall|later: Seq<usize>|
            in_range(later, sizes) && left_of(lists, later) < left_of(lists, t)
                && #[trigger] candidate_valid(items, lists, later) implies !dominates(
            assignment(items, picks(lists, later)),
            assignment(items, picks(lists, t)),
        ) by {
            let c = picks(lists, later);
            assert(drawn_from(c, lists)) by {
                assert forall|s: int| 0 <= s < c.len() implies (#[trigger] lists[s]).contains(
                    c[s],
                ) by {}
            }
            lemma_assignment_distinct(items, reqs, left, c);
            if dominates(assignment(items, c), assignment(items, r)) {
                lemma_newer_is_preferred(assignment(items, r), assignment(items, c));
            }
        }
    }
}

/// Whether none of the names among what is left may be left out of a solution: each is
/// asked for, or is the name of the game.
pub open spec fn all_required(
    items: Seq<InstallableView>,
    reqs: Seq<(Seq<char>, ModVersionReq)>,
    left: Seq<bool>,
) -> bool {
    forall|s: int|
        0 <= s < slot_names(items, left, items.len() as int).len() ==> !optional(
            reqs,
            #[trigger] slot_names(items, left, items.len() as int)[s],
        )
}

/// Where no name may be left out, the pick that resolution hands out is not dominated by
/// any valid pick: of two valid assignments of which one holds the shared names at newer
/// versions, the other is never handed out.
pub proof fn lemma_resolved_pick_newest(
    items: Seq<InstallableView>,
    reqs: Seq<(Seq<char>, ModVersionReq)>,
    left: Seq<bool>,
)
    requires
        items.len() < usize::MAX,
        left.len() == items.len(),
        all_required(items, reqs, left),
    ensures
        best_pick(items, possibilities(items, reqs, left)) matches Some(r) ==> forall|
            pick: Seq<Option<usize>>,
        | #[trigger]
            drawn_from(pick, possibilities(items, reqs, left)) && valid(assignment(items, pick))
                ==> !dominates(assignment(items, pick), assignment(items, r)),
{
    let lists = possibilities(items, reqs, left);
    let names = slot_names(items, left, items.len() as int);
    let sizes = sizes_of(lists);
    if best_pick(items, lists).is_some() {
        let r = best_pick(items, lists).unwrap();
        lemma_possibilities_ok(items, reqs, left);
        lemma_slot_names(items, left, items.len() as int);
        assert forall|s: int, i: int|
            0 <= s < lists.len() && 0 <= i < lists[s].len() implies (#[trigger] lists[s][i]).is_some()
            && lists[s][i].unwrap() < items.len() && items[lists[s][i].unwrap() as int].name
            == names[s] by {
            lemma_members(items, left, names[s], items.len() as int);
        }
        lemma_best_pick_tops(items, lists, names);
        assert(drawn_from(r, lists)) by {
            assert forall|s: int| 0 <= s < r.len() implies (#[trigger] lists[s]).contains(r[s]) by {}
        }
        lemma_assignment_distinct(items, reqs, left, r);
        assert forall|pick: Seq<Option<usize>>| #[trigger]
            drawn_from(pick, lists) && valid(assignment(items, pick)) implies !dominates(
            assignment(items, pick),
            assignment(items, r),
        ) by {
            let t = state_of(lists, pick);
            assert forall|s: int| 0 <= s < t.len() implies (#[trigger] t[s]) < sizes[s] && lists[s][t[s] as int]
                == pick[s] by {}
            assert(picks(lists, t) =~= pick);
            lemma_states_left_bound(t, sizes, t.len() as int);
            assert(candidate_valid(items, lists, t));
            lemma_assignment_distinct(items, reqs, left, pick);
            if dominates(assignment(items, pick), assignment(items, r)) {
                lemma_newer_is_preferred(assignment(items, r), assignment(items, pick));
            }
        }
    }
}

/// Whether the releases `releases` answer all of the requirements `reqs`: no two are of the
/// same mod, and every mod asked for, but for the game itself, has a release among them.
pub open spec fn complete_answer(
    releases: Seq<ModReleaseView>,
    reqs: Seq<(Seq<char>, ModVersionReq)>,
) -> bool {
    &&& forall|e: int, f: int|
        0 <= e < releases.len() && 0 <= f < releases.len() && (#[trigger] releases[e]).name == (
        #[trigger] releases[f]).name ==> e == f
    &&& forall|i: int|
        0 <= i < reqs.len() && (#[trigger] reqs[i]).0 != base_name() ==> exists|e: int|
            0 <= e < releases.len() && (#[trigger] releases[e]).name == reqs[i].0
}

/// Every mod asked for from place `from` on is present if none is missing.
proof fn lemma_missing_from(
    items: Seq<InstallableView>,
    reqs: Seq<(Seq<char>, ModVersionReq)>,
    alive: Seq<bool>,
    from: int,
)
    requires
        0 <= from,
        missing_from(items, reqs, alive, from).is_none(),
    ensures
        forall|i: int| from <= i < reqs.len() ==> present(items, alive, (#[trigger] reqs[i]).0),
    decreases reqs.len() - from,
{
    if from < reqs.len() {
        lemma_missing_from(items, reqs, alive, from + 1);
    }
}

/// The releases that a pick chooses from the first `upto` places have the names of places
/// among those, and no two have the same name.
proof fn lemma_release_names(
    wholes: Seq<InstallableWhole>,
    names: Seq<Seq<char>>,
    pick: Seq<Option<usize>>,
    upto: int,
)
    requires
        0 <= upto <= pick.len(),
        pick.len() == names.len(),
        forall|s: int, t: int| 0 <= s < t < names.len() ==> names[s] != names[t],
        forall|s: int|
            0 <= s < pick.len() && pick[s].is_some() ==> 0 <= #[trigger] picked(pick, s)
                < wholes.len() && wholes[picked(pick, s)].seen().name == names[s],
    ensures
        forall|e: int|
            0 <= e < releases_in(wholes, pick, upto).len() ==> exists|s: int|
                0 <= s < upto && #[trigger] names[s] == (#[trigger] releases_in(
                    wholes,
                    pick,
                    upto,
                )[e]).name,
        forall|e: int, f: int|
            0 <= e < releases_in(wholes, pick, upto).len() && 0 <= f < releases_in(
                wholes,
                pick,
                upto,
            ).len() && (#[trigger] releases_in(wholes, pick, upto)[e]).name == (
            #[trigger] releases_in(wholes, pick, upto)[f]).name ==> e == f,
    decreases upto,
{
    if upto > 0 {
        lemma_release_names(wholes, names, pick, upto - 1);
        let rest = releases_in(wholes, pick, upto - 1);
        let all = releases_in(wholes, pick, upto);
        let last = upto - 1;
        if pick[last].is_some() {
            assert(wholes[picked(pick, last)].seen().name == names[last]);
        }
        assert forall|e: int| 0 <= e < all.len() implies exists|s: int|
            0 <= s < upto && #[trigger] names[s] == (#[trigger] all[e]).name by {
            if e < rest.len() {
                assert(all[e] == rest[e]);
            }
        }
        assert forall|e: int, f: int|
            0 <= e < all.len() && 0 <= f < all.len() && (#[trigger] all[e]).name == (
            #[trigger] all[f]).name implies e == f by {}
    }
}

/// Whether each of `releases` is one of the installables `wholes`.
pub open spec fn taken_from(releases: Seq<ModReleaseView>, wholes: Seq<InstallableWhole>) -> bool {
    forall|e: int|
        0 <= e < releases.len() ==> wholes.contains(InstallableWhole::Mod(#[trigger] releases[e]))
}

/// The releases of a pick that holds places among the installables are installables.
pub proof fn lemma_taken_from(wholes: Seq<InstallableWhole>, pick: Seq<Option<usize>>)
    requires
        forall|s: int|
            0 <= s < pick.len() && pick[s].is_some() ==> 0 <= #[trigger] picked(pick, s)
                < wholes.len(),
    ensures
        taken_from(releases_in(wholes, pick, pick.len() as int), wholes),
{
    let len = pick.len() as int;
    let releases = releases_in(wholes, pick, len);
    lemma_releases_in(wholes, pick, len);
    assert forall|e: int| 0 <= e < releases.len() implies wholes.contains(
        InstallableWhole::Mod(#[trigger] releases[e]),
    ) by {
        assert(picks_release(wholes, pick, len, releases[e]));
        let s = choose|s: int|
            0 <= s < len && pick[s].is_some() && wholes[#[trigger] picked(pick, s)] is Mod
                && wholes[picked(pick, s)]->Mod_0 == releases[e];
        assert(wholes[picked(pick, s)] == InstallableWhole::Mod(releases[e]));
    }
}

/// The releases of a sound pick from what pruning left of a closure answer all of the
/// requirements.
pub proof fn lemma_complete_answer(
    wholes: Seq<InstallableWhole>,
    reqs: Seq<(Seq<char>, ModVersionReq)>,
    game_version: ReleaseVersion,
    left: Seq<bool>,
    pick: Seq<Option<usize>>,
)
    requires
        wholes.len() <= usize::MAX,
        closure_nodes(wholes, game_version),
        prune(items_in(wholes), reqs, all_marked(wholes.len())) == Ok::<Seq<bool>, Seq<char>>(left),
        sound_pick(items_in(wholes), reqs, left, pick),
    ensures
        complete_answer(releases_in(wholes, pick, pick.len() as int), reqs),
{
    let items = items_in(wholes);
    let len = pick.len() as int;
    let releases = releases_in(wholes, pick, len);
    let names = slot_names(items, left, items.len() as int);
    lemma_prune_stable(items, reqs, all_marked(wholes.len()));
    lemma_slot_names(items, left, items.len() as int);
    lemma_releases_in(wholes, pick, len);
    lemma_missing_from(items, reqs, left, 0);
    assert forall|s: int| 0 <= s < pick.len() && pick[s].is_some() implies 0 <= #[trigger] picked(
        pick,
        s,
    ) < wholes.len() && wholes[picked(pick, s)].seen().name == names[s] by {
        lemma_drawn(items, reqs, left, pick, s);
    }
    lemma_release_names(wholes, names, pick, len);
    assert forall|i: int| 0 <= i < reqs.len() && (#[trigger] reqs[i]).0 != base_name() implies exists|
        e: int,
    | 0 <= e < releases.len() && (#[trigger] releases[e]).name == reqs[i].0 by {
        let name = reqs[i].0;
        let s = choose|s: int| 0 <= s < names.len() && names[s] == name;
        lemma_drawn(items, reqs, left, pick, s);
        crate::requirements::lemma_lookup_from(reqs, name, 0);
        let p = picked(pick, s);
        assert(wholes[p] is Mod);
    }
}

} // verus!
