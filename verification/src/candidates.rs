//! The candidates for a solution: for each name the installables that are left under it,
//! and the search through every way of picking one per name.

use vstd::prelude::*;
use crate::permute::{first_state, lists_of, picks, sizes_of, states_left, successor, Permutater};
use crate::release::{items_of, items_of_refs, Installable, InstallableView};
use crate::requirements::Requirements;
use crate::rules::optional;
use crate::solution::{is_valid, prefer, preference, valid, Preference};
use crate::version::ModVersionReq;

verus! {

/// The names of the installables that `alive` marks among the first `upto`, each once, in
/// the order in which they first occur.
pub open spec fn slot_names(items: Seq<InstallableView>, alive: Seq<bool>, upto: int) -> Seq<
    Seq<char>,
>
    decreases upto,
{
    if upto <= 0 {
        Seq::empty()
    } else {
        let rest = slot_names(items, alive, upto - 1);
        if alive[upto - 1] && !rest.contains(items[upto - 1].name) {
            rest.push(items[upto - 1].name)
        } else {
            rest
        }
    }
}

/// The places of the installables of the given name that `alive` marks among the first
/// `upto`, in order.
pub open spec fn members(items: Seq<InstallableView>, alive: Seq<bool>, name: Seq<char>, upto: int)
    -> Seq<Option<usize>>
    decreases upto,
{
    if upto <= 0 {
        Seq::empty()
    } else {
        let rest = members(items, alive, name, upto - 1);
        if alive[upto - 1] && items[upto - 1].name == name {
            rest.push(Some((upto - 1) as usize))
        } else {
            rest
        }
    }
}

/// What a solution can hold under `name`: one of the installables of that name that
/// `alive` marks, or, before them, nothing if the name may be left out.
pub open spec fn options(
    items: Seq<InstallableView>,
    reqs: Seq<(Seq<char>, ModVersionReq)>,
    alive: Seq<bool>,
    name: Seq<char>,
) -> Seq<Option<usize>> {
    if optional(reqs, name) {
        seq![None] + members(items, alive, name, items.len() as int)
    } else {
        members(items, alive, name, items.len() as int)
    }
}

/// For each name among the installables that `alive` marks, what a solution can hold
/// under it.
pub open spec fn possibilities(
    items: Seq<InstallableView>,
    reqs: Seq<(Seq<char>, ModVersionReq)>,
    alive: Seq<bool>,
) -> Seq<Seq<Option<usize>>> {
    let names = slot_names(items, alive, items.len() as int);
    Seq::new(names.len(), |s: int| options(items, reqs, alive, names[s]))
}

/// Whether every pick in `list` is nothing or a place among `n`.
pub open spec fn picks_within(list: Seq<Option<usize>>, n: nat) -> bool {
    forall|i: int| 0 <= i < list.len() ==> (#[trigger] list[i] matches Some(p) ==> p < n)
}

/// The members of a name are places of installables that `alive` marks under that name.
pub proof fn lemma_members(items: Seq<InstallableView>, alive: Seq<bool>, name: Seq<char>, upto: int)
    requires
        0 <= upto <= items.len(),
        items.len() <= usize::MAX,
    ensures
        forall|i: int|
            0 <= i < members(items, alive, name, upto).len() ==> (#[trigger] members(
                items,
                alive,
                name,
                upto,
            )[i] matches Some(p) && p < upto && alive[p as int] && items[p as int].name == name),
        forall|p: int|
            0 <= p < upto && alive[p] && items[p].name == name ==> members(
                items,
                alive,
                name,
                upto,
            ).contains(Some(p as usize)),
    decreases upto,
{
    if upto > 0 {
        lemma_members(items, alive, name, upto - 1);
        let rest = members(items, alive, name, upto - 1);
        let all = members(items, alive, name, upto);
        assert forall|p: int| 0 <= p < upto && alive[p] && items[p].name == name implies all.contains(
            Some(p as usize),
        ) by {
            if p < upto - 1 {
                let i = choose|i: int| 0 <= i < rest.len() && rest[i] == Some(p as usize);
                assert(all[i] == Some(p as usize));
            } else {
                assert(all[all.len() - 1] == Some(p as usize));
            }
        }
    }
}

/// Every name among the slots is the name of an installable that `alive` marks.
pub proof fn lemma_slot_names(items: Seq<InstallableView>, alive: Seq<bool>, upto: int)
    requires
        0 <= upto <= items.len(),
    ensures
        forall|s: int|
            0 <= s < slot_names(items, alive, upto).len() ==> exists|p: int|
                0 <= p < upto && alive[p] && (#[trigger] items[p]).name == #[trigger] slot_names(
                    items,
                    alive,
                    upto,
                )[s],
        forall|p: int|
            0 <= p < upto && alive[p] ==> slot_names(items, alive, upto).contains(
                (#[trigger] items[p]).name,
            ),
        forall|s: int, t: int|
            0 <= s < t < slot_names(items, alive, upto).len() ==> slot_names(items, alive, upto)[s]
                != slot_names(items, alive, upto)[t],
    decreases upto,
{
    if upto > 0 {
        lemma_slot_names(items, alive, upto - 1);
        let rest = slot_names(items, alive, upto - 1);
        let all = slot_names(items, alive, upto);
        assert forall|s: int| 0 <= s < all.len() implies exists|p: int|
            0 <= p < upto && alive[p] && (#[trigger] items[p]).name == #[trigger] all[s] by {}
        assert forall|p: int| 0 <= p < upto && alive[p] implies all.contains(
            (#[trigger] items[p]).name,
        ) by {
            if p < upto - 1 {
                let i = choose|i: int| 0 <= i < rest.len() && rest[i] == items[p].name;
                assert(all[i] == items[p].name);
            } else if rest.contains(items[p].name) {
            } else {
                assert(all[all.len() - 1] == items[p].name);
            }
        }
    }
}

/// Groups the nodes that `alive` marks by name and lists, for each name, what a solution
/// can hold under it.
pub fn group(nodes: &Vec<Installable>, reqs: &Requirements, alive: &Vec<bool>) -> (r: Vec<
    Vec<Option<usize>>,
>)
    requires
        alive.len() == nodes.len(),
    ensures
        lists_of(r@) == possibilities(items_of(nodes@), reqs.pairs(), alive@),
        forall|s: int| 0 <= s < r.len() ==> (#[trigger] r[s]).len() > 0,
        forall|s: int| 0 <= s < r.len() ==> picks_within((#[trigger] r[s])@, nodes.len() as nat),
{
    let ghost items = items_of(nodes@);
    let n = nodes.len();
    // The node that brought each name.
    let mut firsts: Vec<usize> = Vec::new();
    let mut i: usize = 0;
    while i < n
        invariant
            i <= n,
            n == nodes.len(),
            alive.len() == n,
            items == items_of(nodes@),
            firsts.len() == slot_names(items, alive@, i as int).len(),
            forall|s: int|
                0 <= s < firsts.len() ==> (#[trigger] firsts[s]) < i && alive[firsts[s] as int]
                    && items[firsts[s] as int].name == slot_names(items, alive@, i as int)[s],
        decreases n - i,
    {
        let ghost rest = slot_names(items, alive@, i as int);
        if alive[i] {
            let mut known = false;
            let mut s: usize = 0;
            while s < firsts.len()
                invariant_except_break
                    !known,
                    forall|t: int| 0 <= t < s ==> rest[t] != items[i as int].name,
                invariant
                    s <= firsts.len(),
                    i < n,
                    n == nodes.len(),
                    items == items_of(nodes@),
                    rest == slot_names(items, alive@, i as int),
                    firsts.len() == rest.len(),
                    forall|t: int|
                        0 <= t < firsts.len() ==> (#[trigger] firsts[t]) < i
                            && items[firsts[t] as int].name == rest[t],
                ensures
                    known == rest.contains(items[i as int].name),
                decreases firsts.len() - s,
            {
                let first = firsts[s];
                if nodes[first].name() == nodes[i].name() {
                    known = true;
                    break ;
                }
                s += 1;
            }
            if !known {
                firsts.push(i);
            }
        }
        i += 1;
    }
    let ghost names = slot_names(items, alive@, n as int);
    let mut lists: Vec<Vec<Option<usize>>> = Vec::new();
    let mut s: usize = 0;
    while s < firsts.len()
        invariant
            s <= firsts.len(),
            n == nodes.len(),
            alive.len() == n,
            items == items_of(nodes@),
            names == slot_names(items, alive@, n as int),
            firsts.len() == names.len(),
            forall|t: int|
                0 <= t < firsts.len() ==> (#[trigger] firsts[t]) < n && alive[firsts[t] as int]
                    && items[firsts[t] as int].name == names[t],
            lists.len() == s,
            forall|t: int|
                0 <= t < s ==> (#[trigger] lists[t])@ == options(items, reqs.pairs(), alive@, names[t]),
            forall|t: int| 0 <= t < s ==> (#[trigger] lists[t]).len() > 0,
            forall|t: int| 0 <= t < s ==> picks_within((#[trigger] lists[t])@, n as nat),
        decreases firsts.len() - s,
    {
        let first = firsts[s];
        let name = nodes[first].name();
        let mut list: Vec<Option<usize>> = Vec::new();
        let may_be_left_out = !crate::prune::is_base_name(name) && !reqs.contains_key(name);
        if may_be_left_out {
            list.push(None);
        }
        let ghost lead = list@;
        let mut v: usize = 0;
        while v < n
            invariant
                v <= n,
                n == nodes.len(),
                alive.len() == n,
                items == items_of(nodes@),
                list@ == lead + members(items, alive@, name@, v as int),
            decreases n - v,
        {
            if alive[v] && nodes[v].name() == name {
                list.push(Some(v));
            }
            v += 1;
        }
        proof {
            lemma_members(items, alive@, name@, n as int);
            assert forall|i: int| 0 <= i < list@.len() implies (#[trigger] list@[i] matches Some(p)
                ==> p < n) by {}
        }
        lists.push(list);
        s += 1;
    }
    lists
}

/// The installables that the first `upto` picks of `pick` choose, in order.
pub open spec fn chosen(items: Seq<InstallableView>, pick: Seq<Option<usize>>, upto: int) -> Seq<
    InstallableView,
>
    decreases upto,
{
    if upto <= 0 {
        Seq::empty()
    } else {
        let rest = chosen(items, pick, upto - 1);
        match pick[upto - 1] {
            Some(p) => rest.push(items[p as int]),
            None => rest,
        }
    }
}

/// The assignment that `pick` makes: the installables that it chooses.
pub open spec fn assignment(items: Seq<InstallableView>, pick: Seq<Option<usize>>) -> Seq<
    InstallableView,
> {
    chosen(items, pick, pick.len() as int)
}

/// Collects the nodes that `values` picks.
pub fn select<'a>(nodes: &'a Vec<Installable>, values: &Vec<Option<usize>>) -> (r: Vec<
    &'a Installable,
>)
    requires
        picks_within(values@, nodes.len() as nat),
    ensures
        items_of_refs(r@) == assignment(items_of(nodes@), values@),
{
    let ghost items = items_of(nodes@);
    let mut out: Vec<&'a Installable> = Vec::new();
    let mut i: usize = 0;
    while i < values.len()
        invariant
            i <= values.len(),
            picks_within(values@, nodes.len() as nat),
            items == items_of(nodes@),
            items_of_refs(out@) == chosen(items, values@, i as int),
        decreases values.len() - i,
    {
        match values[i] {
            Some(p) => {
                out.push(&nodes[p]);
            },
            None => {},
        }
        i += 1;
    }
    out
}

/// The better of the best pick so far and the pick `candidate`: a pick whose assignment is
/// not valid is passed over, and a valid one takes the place of the best so far if there is
/// none yet or if the best so far is worse.
pub open spec fn better_of(
    items: Seq<InstallableView>,
    best: Option<Seq<Option<usize>>>,
    candidate: Seq<Option<usize>>,
) -> Option<Seq<Option<usize>>> {
    if valid(assignment(items, candidate)) {
        match best {
            None => Some(candidate),
            Some(b) => if prefer(assignment(items, b), assignment(items, candidate))
                == Preference::Worse {
                Some(candidate)
            } else {
                Some(b)
            },
        }
    } else {
        best
    }
}

/// The best pick after the search has gone from `state` through every later state, given
/// the best pick before. `examined` says whether the pick of `state` itself was looked at
/// already.
pub open spec fn search(
    items: Seq<InstallableView>,
    lists: Seq<Seq<Option<usize>>>,
    state: Seq<usize>,
    best: Option<Seq<Option<usize>>>,
    examined: bool,
) -> Option<Seq<Option<usize>>>
    decreases states_left(state, sizes_of(lists), state.len() as int), (if examined {
        0int
    } else {
        1int
    }),
{
    if !examined {
        if states_left(state, sizes_of(lists), state.len() as int) >= 0 {
            search(items, lists, state, better_of(items, best, picks(lists, state)), true)
        } else {
            best
        }
    } else {
        match successor(state, sizes_of(lists), 0) {
            Some(next) => if 0 <= states_left(next, sizes_of(lists), next.len() as int)
                < states_left(state, sizes_of(lists), state.len() as int) {
                search(items, lists, next, best, false)
            } else {
                best
            },
            None => best,
        }
    }
}

/// The best pick among all ways of picking one option from each of `lists`, the first list
/// changing fastest; none if no pick makes a valid assignment.
pub open spec fn best_pick(items: Seq<InstallableView>, lists: Seq<Seq<Option<usize>>>) -> Option<
    Seq<Option<usize>>,
> {
    if lists.len() == 0 {
        None
    } else {
        search(items, lists, first_state(lists.len()), None, false)
    }
}

/// The picks in an optional vector as a plain value.
pub open spec fn pick_view(pick: Option<Vec<Option<usize>>>) -> Option<Seq<Option<usize>>> {
    match pick {
        Some(p) => Some(p@),
        None => None,
    }
}

/// A copy of `values`.
pub fn copy_picks(values: &Vec<Option<usize>>) -> (r: Vec<Option<usize>>)
    ensures
        r@ == values@,
{
    let mut out: Vec<Option<usize>> = Vec::new();
    let mut i: usize = 0;
    while i < values.len()
        invariant
            i <= values.len(),
            out@ == values@.subrange(0, i as int),
        decreases values.len() - i,
    {
        out.push(values[i]);
        i += 1;
    }
    out
}

/// Searches every way of picking one option from each of `lists` for the best pick whose
/// assignment is valid.
pub fn find_best(nodes: &Vec<Installable>, lists: Vec<Vec<Option<usize>>>) -> (r: Option<
    Vec<Option<usize>>,
>)
    requires
        forall|s: int| 0 <= s < lists.len() ==> (#[trigger] lists[s]).len() > 0,
        forall|s: int|
            0 <= s < lists.len() ==> picks_within((#[trigger] lists[s])@, nodes.len() as nat),
    ensures
        pick_view(r) == best_pick(items_of(nodes@), lists_of(lists@)),
        r matches Some(p) ==> p.len() == lists.len() && picks_within(p@, nodes.len() as nat),
{
    let ghost items = items_of(nodes@);
    let ghost ls = lists_of(lists@);
    let len = lists.len();
    if len == 0 {
        return None;
    }
    proof {
        assert forall|s: int| 0 <= s < ls.len() implies picks_within(
            #[trigger] ls[s],
            nodes.len() as nat,
        ) by {}
    }
    let mut values: Vec<Option<usize>> = Vec::new();
    let mut i: usize = 0;
    while i < len
        invariant
            i <= len,
            values.len() == i,
        decreases len - i,
    {
        values.push(None);
        i += 1;
    }
    let mut permutater = Permutater::new(lists);
    let mut best: Option<Vec<Option<usize>>> = None;
    loop
        invariant_except_break
            !permutater.run_once() ==> permutater.state() == first_state(len as nat) && best
                is None,
            best_pick(items, ls) == search(
                items,
                ls,
                permutater.state(),
                pick_view(best),
                permutater.run_once(),
            ),
        invariant
            len > 0,
            ls.len() == len,
            items == items_of(nodes@),
            permutater.wf(),
            permutater.possibilities() == ls,
            values.len() == len,
            forall|s: int| 0 <= s < ls.len() ==> picks_within(#[trigger] ls[s], nodes.len() as nat),
            best matches Some(b) ==> b.len() == len && picks_within(b@, nodes.len() as nat),
        ensures
            best_pick(items, ls) == pick_view(best),
        decreases permutater.picks_left(),
    {
        let ghost before = pick_view(best);
        let ghost state_before = permutater.state();
        let ghost examined_before = permutater.run_once();
        if !permutater.next(&mut values) {
            break ;
        }
        proof {
            let state = permutater.state();
            assert forall|s: int| 0 <= s < values.len() implies (#[trigger] values@[s] matches Some(
                p,
            ) ==> p < nodes.len()) by {}
            assert(search(items, ls, state_before, before, examined_before) == search(
                items,
                ls,
                state,
                before,
                false,
            ));
        }
        let candidate = select(nodes, &values);
        if is_valid(&candidate) {
            let replace = match &best {
                None => true,
                Some(b) => {
                    let current = select(nodes, b);
                    match preference(&current, &candidate) {
                        Preference::Worse => true,
                        _ => false,
                    }
                },
            };
            if replace {
                best = Some(copy_picks(&values));
            }
        }
    }
    best
}

} // verus!
