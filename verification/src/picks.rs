//! The laws of the search through the picks: that it looks at every pick, and that what
//! it ends with is not bettered by what it looks at afterwards.

use vstd::prelude::*;
use crate::candidates::{assignment, best_pick, better_of, chosen, search};
use crate::permute::{
    first_state,
    in_range,
    lemma_first_state_leaves_most,
    lemma_states_left_bound,
    lemma_states_left_injective,
    lemma_successor,
    picks,
    sizes_of,
    states_left,
    successor,
};
use crate::release::InstallableView;
use crate::solution::{lemma_position_from, position, prefer, prefer_from, valid, Preference};

verus! {

/// Whether a pick takes each of its options from the list of its place.
pub open spec fn drawn_from(pick: Seq<Option<usize>>, lists: Seq<Seq<Option<usize>>>) -> bool {
    &&& pick.len() == lists.len()
    &&& forall|s: int| 0 <= s < pick.len() ==> (#[trigger] lists[s]).contains(pick[s])
}

/// The search hands out the best pick so far or a pick that takes each option from the
/// list of its place and makes a valid assignment.
pub proof fn lemma_search(
    items: Seq<InstallableView>,
    lists: Seq<Seq<Option<usize>>>,
    state: Seq<usize>,
    best: Option<Seq<Option<usize>>>,
    examined: bool,
)
    requires
        in_range(state, sizes_of(lists)),
        forall|i: int| 0 <= i < lists.len() ==> (#[trigger] lists[i]).len() <= usize::MAX,
        best matches Some(b) ==> drawn_from(b, lists) && valid(assignment(items, b)),
    ensures
        search(items, lists, state, best, examined) matches Some(r) ==> drawn_from(r, lists)
            && valid(assignment(items, r)),
    decreases states_left(state, sizes_of(lists), state.len() as int), (if examined {
        0int
    } else {
        1int
    }),
{
    let sizes = sizes_of(lists);
    if !examined {
        if states_left(state, sizes, state.len() as int) >= 0 {
            let candidate = picks(lists, state);
            assert forall|s: int| 0 <= s < candidate.len() implies (#[trigger] lists[s]).contains(
                candidate[s],
            ) by {}
            lemma_search(items, lists, state, better_of(items, best, candidate), true);
        }
    } else {
        match successor(state, sizes, 0) {
            Some(next) => {
                assert forall|i: int| 0 <= i < sizes.len() implies sizes[i] <= usize::MAX by {}
                lemma_successor(state, state, sizes, 0);
                if 0 <= states_left(next, sizes, next.len() as int) < states_left(
                    state,
                    sizes,
                    state.len() as int,
                ) {
                    lemma_search(items, lists, next, best, false);
                }
            },
            None => {},
        }
    }
}

/// Whether no list is empty or longer than can be counted.
pub open spec fn lists_ok(lists: Seq<Seq<Option<usize>>>) -> bool {
    forall|i: int| 0 <= i < lists.len() ==> 0 < (#[trigger] lists[i]).len() <= usize::MAX
}

/// How many states the search has before it after `state`.
pub open spec fn left_of(lists: Seq<Seq<Option<usize>>>, state: Seq<usize>) -> int {
    states_left(state, sizes_of(lists), state.len() as int)
}

/// Whether the pick of `state` makes a valid assignment.
pub open spec fn candidate_valid(
    items: Seq<InstallableView>,
    lists: Seq<Seq<Option<usize>>>,
    state: Seq<usize>,
) -> bool {
    valid(assignment(items, picks(lists, state)))
}

/// A search that starts with a best pick ends with one.
proof fn lemma_search_keeps(
    items: Seq<InstallableView>,
    lists: Seq<Seq<Option<usize>>>,
    state: Seq<usize>,
    best: Option<Seq<Option<usize>>>,
    examined: bool,
)
    requires
        best.is_some(),
    ensures
        search(items, lists, state, best, examined).is_some(),
    decreases states_left(state, sizes_of(lists), state.len() as int), (if examined {
        0int
    } else {
        1int
    }),
{
    let sizes = sizes_of(lists);
    if !examined {
        if states_left(state, sizes, state.len() as int) >= 0 {
            lemma_search_keeps(items, lists, state, better_of(items, best, picks(lists, state)), true);
        }
    } else {
        match successor(state, sizes, 0) {
            Some(next) => {
                if 0 <= states_left(next, sizes, next.len() as int) < states_left(
                    state,
                    sizes,
                    state.len() as int,
                ) {
                    lemma_search_keeps(items, lists, next, best, false);
                }
            },
            None => {},
        }
    }
}

/// A search ends with a best pick if a state that it has before it makes a valid
/// assignment.
proof fn lemma_search_covers(
    items: Seq<InstallableView>,
    lists: Seq<Seq<Option<usize>>>,
    state: Seq<usize>,
    best: Option<Seq<Option<usize>>>,
    examined: bool,
    t: Seq<usize>,
)
    requires
        lists_ok(lists),
        in_range(state, sizes_of(lists)),
        in_range(t, sizes_of(lists)),
        candidate_valid(items, lists, t),
        left_of(lists, t) < left_of(lists, state) + (if examined {
            0int
        } else {
            1int
        }),
    ensures
        search(items, lists, state, best, examined).is_some(),
    decreases states_left(state, sizes_of(lists), state.len() as int), (if examined {
        0int
    } else {
        1int
    }),
{
    let sizes = sizes_of(lists);
    lemma_states_left_bound(t, sizes, t.len() as int);
    if !examined {
        let next_best = better_of(items, best, picks(lists, state));
        if left_of(lists, t) == left_of(lists, state) {
            lemma_states_left_injective(state, t, sizes, state.len() as int);
            assert(state =~= t);
            lemma_search_keeps(items, lists, state, next_best, true);
        } else {
            lemma_search_covers(items, lists, state, next_best, true, t);
        }
    } else {
        lemma_successor(state, state, sizes, 0);
        match successor(state, sizes, 0) {
            Some(next) => {
                lemma_search_covers(items, lists, next, best, false, t);
            },
            None => {},
        }
    }
}

/// The state that picks `pick` from `lists`.
pub open spec fn state_of(lists: Seq<Seq<Option<usize>>>, pick: Seq<Option<usize>>) -> Seq<usize> {
    Seq::new(
        lists.len(),
        |s: int| (choose|i: int| 0 <= i < lists[s].len() && lists[s][i] == pick[s]) as usize,
    )
}

/// The search is exhaustive: it finds no pick exactly if no pick that takes each option
/// from the list of its place makes a valid assignment.
pub proof fn lemma_search_exhaustive(items: Seq<InstallableView>, lists: Seq<Seq<Option<usize>>>)
    requires
        lists.len() > 0,
        lists_ok(lists),
    ensures
        best_pick(items, lists).is_none() <==> forall|pick: Seq<Option<usize>>| #[trigger]
            drawn_from(pick, lists) ==> !valid(assignment(items, pick)),
{
    let sizes = sizes_of(lists);
    let first = first_state(lists.len());
    assert forall|i: int| 0 <= i < first.len() implies (#[trigger] first[i]) < sizes[i] by {}
    lemma_search(items, lists, first, None, false);
    if exists|pick: Seq<Option<usize>>| #[trigger]
        drawn_from(pick, lists) && valid(assignment(items, pick)) {
        let pick = choose|pick: Seq<Option<usize>>| #[trigger]
            drawn_from(pick, lists) && valid(assignment(items, pick));
        let t = state_of(lists, pick);
        assert forall|s: int| 0 <= s < t.len() implies (#[trigger] t[s]) < sizes[s] && lists[s][t[s] as int]
            == pick[s] by {}
        assert(picks(lists, t) =~= pick);
        lemma_first_state_leaves_most(t, sizes);
        lemma_search_covers(items, lists, first, None, false, t);
    }
}

/// Whether no valid pick that the search looks at while fewer than `bound` states are left
/// is preferred to the pick `r`.
pub open spec fn unbeaten_after(
    items: Seq<InstallableView>,
    lists: Seq<Seq<Option<usize>>>,
    r: Seq<Option<usize>>,
    bound: int,
) -> bool {
    forall|t: Seq<usize>|
        in_range(t, sizes_of(lists)) && left_of(lists, t) < bound && #[trigger] candidate_valid(
            items,
            lists,
            t,
        ) ==> prefer(assignment(items, r), assignment(items, picks(lists, t))) != Preference::Worse
}

/// Whether `r` is the pick of the state `t`, makes a valid assignment, and no valid pick
/// that the search looks at after it is preferred to it.
pub open spec fn taken_at(
    items: Seq<InstallableView>,
    lists: Seq<Seq<Option<usize>>>,
    r: Seq<Option<usize>>,
    t: Seq<usize>,
) -> bool {
    &&& in_range(t, sizes_of(lists))
    &&& r == picks(lists, t)
    &&& candidate_valid(items, lists, t)
    &&& unbeaten_after(items, lists, r, left_of(lists, t))
}

/// What a search ends with is the best pick that it started with, if no valid pick that
/// it looked at is preferred to that, or else a pick that it looked at and after which it
/// looked at no valid pick that is preferred.
proof fn lemma_search_unbeaten(
    items: Seq<InstallableView>,
    lists: Seq<Seq<Option<usize>>>,
    state: Seq<usize>,
    best: Option<Seq<Option<usize>>>,
    examined: bool,
)
    requires
        lists_ok(lists),
        in_range(state, sizes_of(lists)),
    ensures
        search(items, lists, state, best, examined) matches Some(r) ==> {
            let bound = left_of(lists, state) + (if examined {
                0int
            } else {
                1int
            });
            ||| (best == Some(r) && unbeaten_after(items, lists, r, bound))
            ||| exists|t: Seq<usize>|
                left_of(lists, t) < bound && #[trigger] taken_at(items, lists, r, t)
        },
    decreases states_left(state, sizes_of(lists), state.len() as int), (if examined {
        0int
    } else {
        1int
    }),
{
    let sizes = sizes_of(lists);
    lemma_states_left_bound(state, sizes, state.len() as int);
    let result = search(items, lists, state, best, examined);
    if result.is_some() {
        let r = result.unwrap();
        if !examined {
            let candidate = picks(lists, state);
            let next_best = better_of(items, best, candidate);
            lemma_search_unbeaten(items, lists, state, next_best, true);
            let bound = left_of(lists, state);
            if next_best == Some(r) && unbeaten_after(items, lists, r, bound) {
                let replaced = valid(assignment(items, candidate)) && (match best {
                    None => true,
                    Some(b) => prefer(assignment(items, b), assignment(items, candidate))
                        == Preference::Worse,
                });
                if !replaced {
                    assert forall|t: Seq<usize>|
                        in_range(t, sizes) && left_of(lists, t) < bound + 1
                            && #[trigger] candidate_valid(items, lists, t) implies prefer(
                        assignment(items, r),
                        assignment(items, picks(lists, t)),
                    ) != Preference::Worse by {
                        if left_of(lists, t) == bound {
                            lemma_states_left_injective(state, t, sizes, state.len() as int);
                            assert(state =~= t);
                        }
                    }
                } else {
                    assert(taken_at(items, lists, r, state));
                }
            }
        } else {
            lemma_successor(state, state, sizes, 0);
            match successor(state, sizes, 0) {
                Some(next) => {
                    lemma_states_left_bound(next, sizes, next.len() as int);
                    lemma_search_unbeaten(items, lists, next, best, false);
                },
                None => {
                    assert forall|t: Seq<usize>|
                        in_range(t, sizes) && left_of(lists, t) < 0 && #[trigger] candidate_valid(
                            items,
                            lists,
                            t,
                        ) implies prefer(assignment(items, r), assignment(items, picks(lists, t)))
                        != Preference::Worse by {
                        lemma_states_left_bound(t, sizes, t.len() as int);
                    }
                },
            }
        }
    }
}

/// The pick that the search finds is one that it looked at, makes a valid assignment, and
/// no valid pick that the search looked at after it is preferred to it.
pub proof fn lemma_best_pick_unbeaten(items: Seq<InstallableView>, lists: Seq<Seq<Option<usize>>>)
    requires
        lists_ok(lists),
    ensures
        best_pick(items, lists) matches Some(r) ==> exists|t: Seq<usize>| #[trigger]
            taken_at(items, lists, r, t),
{
    if lists.len() > 0 {
        let sizes = sizes_of(lists);
        let first = first_state(lists.len());
        assert forall|i: int| 0 <= i < first.len() implies (#[trigger] first[i]) < sizes[i] by {}
        lemma_search_unbeaten(items, lists, first, None, false);
    }
}

/// Whether every list offers installables only, all of the name of its place in `names`, and
/// no two places have the same name: so every pick assigns the same names.
pub open spec fn settled(
    items: Seq<InstallableView>,
    lists: Seq<Seq<Option<usize>>>,
    names: Seq<Seq<char>>,
) -> bool {
    &&& lists.len() == names.len()
    &&& forall|s: int, t: int| 0 <= s < t < names.len() ==> names[s] != names[t]
    &&& forall|s: int, i: int|
        0 <= s < lists.len() && 0 <= i < lists[s].len() ==> (#[trigger] lists[s][i]).is_some()
            && lists[s][i].unwrap() < items.len() && items[lists[s][i].unwrap() as int].name
            == names[s]
}

/// Whether the assignment `a` holds, place by place, installables of the names `names`.
pub open spec fn aligned(a: Seq<InstallableView>, names: Seq<Seq<char>>) -> bool {
    &&& a.len() == names.len()
    &&& forall|j: int| 0 <= j < a.len() ==> (#[trigger] a[j]).name == names[j]
}

/// Whether no two of `names` are the same.
pub open spec fn distinct(names: Seq<Seq<char>>) -> bool {
    forall|s: int, t: int| 0 <= s < t < names.len() ==> names[s] != names[t]
}

/// The installables that a pick without gaps chooses stand at the places of the pick.
proof fn lemma_chosen_aligned(
    items: Seq<InstallableView>,
    names: Seq<Seq<char>>,
    pick: Seq<Option<usize>>,
    upto: int,
)
    requires
        0 <= upto <= pick.len(),
        pick.len() == names.len(),
        forall|s: int|
            0 <= s < pick.len() ==> (#[trigger] pick[s]).is_some() && pick[s].unwrap()
                < items.len() && items[pick[s].unwrap() as int].name == names[s],
    ensures
        chosen(items, pick, upto).len() == upto,
        forall|j: int| 0 <= j < upto ==> (#[trigger] chosen(items, pick, upto)[j]).name == names[j],
    decreases upto,
{
    if upto > 0 {
        lemma_chosen_aligned(items, names, pick, upto - 1);
    }
}

/// The pick of a state from settled lists makes an aligned assignment.
proof fn lemma_pick_aligned(
    items: Seq<InstallableView>,
    lists: Seq<Seq<Option<usize>>>,
    names: Seq<Seq<char>>,
    t: Seq<usize>,
)
    requires
        settled(items, lists, names),
        in_range(t, sizes_of(lists)),
    ensures
        aligned(assignment(items, picks(lists, t)), names),
{
    let pick = picks(lists, t);
    assert forall|s: int| 0 <= s < pick.len() implies (#[trigger] pick[s]).is_some()
        && pick[s].unwrap() < items.len() && items[pick[s].unwrap() as int].name == names[s] by {}
    lemma_chosen_aligned(items, names, pick, pick.len() as int);
}

/// In an aligned assignment each name is found at its place.
proof fn lemma_position_aligned(b: Seq<InstallableView>, names: Seq<Seq<char>>, i: int)
    requires
        aligned(b, names),
        distinct(names),
        0 <= i < b.len(),
    ensures
        position(b, names[i]) == Some(i),
{
    lemma_position_from(b, names[i], 0);
    match position(b, names[i]) {
        Some(j) => {},
        None => {
            assert(b[i].name == names[i]);
        },
    }
}

/// An aligned assignment is neither preferred to itself nor the other way round.
proof fn lemma_prefer_same(a: Seq<InstallableView>, names: Seq<Seq<char>>, from: int)
    requires
        aligned(a, names),
        distinct(names),
        0 <= from <= a.len(),
    ensures
        prefer_from(a, a, from) == Preference::Same,
    decreases a.len() - from,
{
    if from < a.len() {
        lemma_position_aligned(a, names, from);
        lemma_prefer_same(a, names, from + 1);
    }
}

/// Of two aligned assignments, the one to which the other is preferred is not preferred to
/// the other.
proof fn lemma_prefer_turned(
    a: Seq<InstallableView>,
    b: Seq<InstallableView>,
    names: Seq<Seq<char>>,
    from: int,
)
    requires
        aligned(a, names),
        aligned(b, names),
        distinct(names),
        0 <= from <= a.len(),
        prefer_from(a, b, from) == Preference::Worse,
    ensures
        prefer_from(b, a, from) == Preference::Better,
    decreases a.len() - from,
{
    if from < a.len() {
        lemma_position_aligned(a, names, from);
        lemma_position_aligned(b, names, from);
        if !a[from].version.lt_spec(b[from].version) && !b[from].version.lt_spec(a[from].version) {
            lemma_prefer_turned(a, b, names, from + 1);
        }
    }
}

/// Among aligned assignments, not being worse carries over: if `a` is not worse than `b`
/// and `b` is not worse than `c`, then `a` is not worse than `c`.
proof fn lemma_prefer_carries(
    a: Seq<InstallableView>,
    b: Seq<InstallableView>,
    c: Seq<InstallableView>,
    names: Seq<Seq<char>>,
    from: int,
)
    requires
        aligned(a, names),
        aligned(b, names),
        aligned(c, names),
        distinct(names),
        0 <= from <= a.len(),
        prefer_from(a, b, from) != Preference::Worse,
        prefer_from(b, c, from) != Preference::Worse,
    ensures
        prefer_from(a, c, from) != Preference::Worse,
    decreases a.len() - from,
{
    if from < a.len() {
        lemma_position_aligned(b, names, from);
        lemma_position_aligned(c, names, from);
        let (va, vb, vc) = (a[from].version, b[from].version, c[from].version);
        if va == vb && vb == vc {
            lemma_prefer_carries(a, b, c, names, from + 1);
        }
    }
}

/// Whether the pick `r` is not worse than any valid pick that the search looks at while at
/// least `bound` states are left.
pub open spec fn tops(
    items: Seq<InstallableView>,
    lists: Seq<Seq<Option<usize>>>,
    r: Seq<Option<usize>>,
    bound: int,
) -> bool {
    forall|t: Seq<usize>|
        in_range(t, sizes_of(lists)) && left_of(lists, t) >= bound && #[trigger] candidate_valid(
            items,
            lists,
            t,
        ) ==> prefer(assignment(items, r), assignment(items, picks(lists, t))) != Preference::Worse
}

/// Whether no pick that the search looks at while at least `bound` states are left is
/// valid.
pub open spec fn none_valid(
    items: Seq<InstallableView>,
    lists: Seq<Seq<Option<usize>>>,
    bound: int,
) -> bool {
    forall|t: Seq<usize>|
        in_range(t, sizes_of(lists)) && left_of(lists, t) >= bound ==> !#[trigger] candidate_valid(
            items,
            lists,
            t,
        )
}

/// Whether `best` is what a search through settled lists holds when the picks that it has
/// looked at are those with at least `bound` states left: nothing if none of them is valid,
/// and else one of them that is not worse than any valid one of them.
pub open spec fn best_so_far(
    items: Seq<InstallableView>,
    lists: Seq<Seq<Option<usize>>>,
    best: Option<Seq<Option<usize>>>,
    bound: int,
) -> bool {
    match best {
        Some(b) => tops(items, lists, b, bound) && exists|t: Seq<usize>|
            in_range(t, sizes_of(lists)) && b == #[trigger] picks(lists, t),
        None => none_valid(items, lists, bound),
    }
}

/// A search through settled lists ends with a pick that is not worse than any valid pick,
/// or with nothing if no pick is valid.
proof fn lemma_search_tops(
    items: Seq<InstallableView>,
    lists: Seq<Seq<Option<usize>>>,
    names: Seq<Seq<char>>,
    state: Seq<usize>,
    best: Option<Seq<Option<usize>>>,
    examined: bool,
)
    requires
        lists_ok(lists),
        settled(items, lists, names),
        in_range(state, sizes_of(lists)),
        best_so_far(items, lists, best, left_of(lists, state) + (if examined {
            0int
        } else {
            1int
        })),
    ensures
        best_so_far(items, lists, search(items, lists, state, best, examined), 0),
    decreases states_left(state, sizes_of(lists), state.len() as int), (if examined {
        0int
    } else {
        1int
    }),
{
    let sizes = sizes_of(lists);
    let here = left_of(lists, state);
    if !examined {
        let candidate = picks(lists, state);
        let next_best = better_of(items, best, candidate);
        let ac = assignment(items, candidate);
        lemma_pick_aligned(items, lists, names, state);
        let replaced = valid(ac) && (match best {
            None => true,
            Some(b) => prefer(assignment(items, b), ac) == Preference::Worse,
        });
        if replaced {
            assert forall|t: Seq<usize>|
                in_range(t, sizes) && left_of(lists, t) >= here && #[trigger] candidate_valid(
                    items,
                    lists,
                    t,
                ) implies prefer(ac, assignment(items, picks(lists, t))) != Preference::Worse by {
                if left_of(lists, t) == here {
                    lemma_states_left_injective(state, t, sizes, state.len() as int);
                    assert(state =~= t);
                    lemma_prefer_same(ac, names, 0);
                } else {
                    let b = best.unwrap();
                    let tb = choose|tb: Seq<usize>|
                        in_range(tb, sizes) && b == #[trigger] picks(lists, tb);
                    lemma_pick_aligned(items, lists, names, tb);
                    lemma_pick_aligned(items, lists, names, t);
                    let ab = assignment(items, b);
                    let at = assignment(items, picks(lists, t));
                    lemma_prefer_turned(ab, ac, names, 0);
                    lemma_prefer_carries(ac, ab, at, names, 0);
                }
            }
        } else {
            match best {
                Some(b) => {
                    assert forall|t: Seq<usize>|
                        in_range(t, sizes) && left_of(lists, t) >= here
                            && #[trigger] candidate_valid(items, lists, t) implies prefer(
                        assignment(items, b),
                        assignment(items, picks(lists, t)),
                    ) != Preference::Worse by {
                        if left_of(lists, t) == here {
                            lemma_states_left_injective(state, t, sizes, state.len() as int);
                            assert(state =~= t);
                        }
                    }
                },
                None => {
                    assert forall|t: Seq<usize>|
                        in_range(t, sizes) && left_of(lists, t)
                            >= here implies !#[trigger] candidate_valid(items, lists, t) by {
                        if left_of(lists, t) == here {
                            lemma_states_left_injective(state, t, sizes, state.len() as int);
                            assert(state =~= t);
                        }
                    }
                },
            }
        }
        lemma_search_tops(items, lists, names, state, next_best, true);
    } else {
        lemma_successor(state, state, sizes, 0);
        match successor(state, sizes, 0) {
            Some(next) => {
                lemma_states_left_bound(next, sizes, next.len() as int);
                lemma_search_tops(items, lists, names, next, best, false);
            },
            None => {},
        }
    }
}

/// Where every pick assigns the same names, the pick that the search finds is not worse
/// than any valid pick, and the search finds none only if no pick is valid.
pub proof fn lemma_best_pick_tops(
    items: Seq<InstallableView>,
    lists: Seq<Seq<Option<usize>>>,
    names: Seq<Seq<char>>,
)
    requires
        lists.len() > 0,
        lists_ok(lists),
        settled(items, lists, names),
    ensures
        best_so_far(items, lists, best_pick(items, lists), 0),
{
    let sizes = sizes_of(lists);
    let first = first_state(lists.len());
    assert forall|i: int| 0 <= i < first.len() implies (#[trigger] first[i]) < sizes[i] by {}
    assert forall|t: Seq<usize>|
        in_range(t, sizes) && left_of(lists, t) >= left_of(lists, first)
            + 1 implies !#[trigger] candidate_valid(items, lists, t) by {
        lemma_first_state_leaves_most(t, sizes);
    }
    lemma_search_tops(items, lists, names, first, None, false);
}

} // verus!
