//! Walking through every way of picking one option from each of several lists.

use vstd::prelude::*;

verus! {

/// The state after `state`, counting from place `index` upwards with the place `index` as
/// the fastest: the first place from `index` on that is not at its last option moves on, and
/// the places before it start over. `None` if every place from `index` on is at its last
/// option.
pub open spec fn successor(state: Seq<usize>, sizes: Seq<nat>, index: int) -> Option<Seq<usize>>
    decreases state.len() - index,
{
    if index < 0 || index >= state.len() {
        None
    } else if state[index] + 1 < sizes[index] {
        Some(state.update(index, (state[index] + 1) as usize))
    } else {
        successor(state.update(index, 0), sizes, index + 1)
    }
}

/// The state in which every place is at its first option.
pub open spec fn first_state(len: nat) -> Seq<usize> {
    Seq::new(len, |i: int| 0usize)
}

/// Whether every place of `state` is at an option that its list has.
pub open spec fn in_range(state: Seq<usize>, sizes: Seq<nat>) -> bool {
    &&& state.len() == sizes.len()
    &&& forall|i: int| 0 <= i < state.len() ==> (#[trigger] state[i]) < sizes[i]
}

/// The number of ways of picking one option from each of the first `n` lists.
pub open spec fn combinations(sizes: Seq<nat>, n: int) -> nat
    decreases n,
{
    if n <= 0 {
        1
    } else {
        combinations(sizes, n - 1) * sizes[n - 1]
    }
}

/// The number of states that follow `state`, as far as the first `n` places tell.
pub open spec fn states_left(state: Seq<usize>, sizes: Seq<nat>, n: int) -> int
    decreases n,
{
    if n <= 0 {
        0
    } else {
        states_left(state, sizes, n - 1) + (sizes[n - 1] - 1 - state[n - 1]) * combinations(
            sizes,
            n - 1,
        )
    }
}

proof fn lemma_combinations_positive(sizes: Seq<nat>, n: int)
    requires
        0 <= n <= sizes.len(),
        forall|i: int| 0 <= i < sizes.len() ==> sizes[i] > 0,
    ensures
        combinations(sizes, n) >= 1,
    decreases n,
{
    if n > 0 {
        lemma_combinations_positive(sizes, n - 1);
        let c = combinations(sizes, n - 1);
        let s = sizes[n - 1];
        assert(c * s >= 1) by (nonlinear_arith)
            requires
                c >= 1,
                s >= 1,
        ;
    }
}

proof fn lemma_states_left_nonnegative(state: Seq<usize>, sizes: Seq<nat>, n: int)
    requires
        in_range(state, sizes),
        0 <= n <= state.len(),
    ensures
        states_left(state, sizes, n) >= 0,
    decreases n,
{
    if n > 0 {
        lemma_states_left_nonnegative(state, sizes, n - 1);
        let c = combinations(sizes, n - 1);
        let d = sizes[n - 1] - 1 - state[n - 1];
        assert(d * c >= 0) by (nonlinear_arith)
            requires
                d >= 0,
                c >= 0,
        ;
    }
}

/// Places that hold their last option add nothing to the states left.
proof fn lemma_left_at_end(state: Seq<usize>, sizes: Seq<nat>, n: int)
    requires
        0 <= n <= state.len(),
        state.len() == sizes.len(),
        forall|i: int| 0 <= i < n ==> state[i] + 1 == sizes[i],
    ensures
        states_left(state, sizes, n) == 0,
    decreases n,
{
    if n > 0 {
        lemma_left_at_end(state, sizes, n - 1);
        let c = combinations(sizes, n - 1);
        let d = sizes[n - 1] - 1 - state[n - 1];
        assert(d * c == 0) by (nonlinear_arith)
            requires
                d == 0,
        ;
    }
}

/// Places that hold their first option leave all other combinations of them.
proof fn lemma_left_at_start(state: Seq<usize>, sizes: Seq<nat>, n: int)
    requires
        0 <= n <= state.len(),
        state.len() == sizes.len(),
        forall|i: int| 0 <= i < sizes.len() ==> sizes[i] > 0,
        forall|i: int| 0 <= i < n ==> state[i] == 0,
    ensures
        states_left(state, sizes, n) == combinations(sizes, n) - 1,
    decreases n,
{
    if n > 0 {
        lemma_left_at_start(state, sizes, n - 1);
        let c = combinations(sizes, n - 1);
        let s = sizes[n - 1];
        assert((s - 1 - 0) * c == c * s - c) by (nonlinear_arith);
    }
}

/// States that agree from place `k` on differ in the states left as their first `k`
/// places do.
proof fn lemma_left_agree(s: Seq<usize>, t: Seq<usize>, sizes: Seq<nat>, k: int, n: int)
    requires
        0 <= k <= n <= s.len(),
        s.len() == t.len(),
        forall|i: int| k <= i < n ==> s[i] == t[i],
    ensures
        states_left(s, sizes, n) - states_left(t, sizes, n) == states_left(s, sizes, k)
            - states_left(t, sizes, k),
    decreases n - k,
{
    if n > k {
        lemma_left_agree(s, t, sizes, k, n - 1);
    }
}

/// Each step to the successor leaves one state less, and the successor is in range.
pub proof fn lemma_successor(origin: Seq<usize>, state: Seq<usize>, sizes: Seq<nat>, index: int)
    requires
        in_range(origin, sizes),
        in_range(state, sizes),
        0 <= index <= state.len(),
        forall|i: int| 0 <= i < index ==> state[i] == 0 && origin[i] + 1 == sizes[i],
        forall|i: int| index <= i < state.len() ==> state[i] == origin[i],
        forall|i: int| 0 <= i < sizes.len() ==> sizes[i] <= usize::MAX,
    ensures
        match successor(state, sizes, index) {
            Some(next) => in_range(next, sizes) && states_left(next, sizes, next.len() as int)
                == states_left(origin, sizes, origin.len() as int) - 1,
            None => states_left(origin, sizes, origin.len() as int) == 0,
        },
    decreases state.len() - index,
{
    let n = state.len() as int;
    assert forall|i: int| 0 <= i < sizes.len() implies sizes[i] > 0 by {
        assert(state[i] < sizes[i]);
    }
    if index >= n {
        lemma_left_at_end(origin, sizes, n);
    } else if state[index] + 1 < sizes[index] {
        let next = state.update(index, (state[index] + 1) as usize);
        lemma_left_agree(next, origin, sizes, index + 1, n);
        lemma_left_at_start(next, sizes, index);
        lemma_left_at_end(origin, sizes, index);
        let c = combinations(sizes, index);
        let s = sizes[index] as int;
        let d = origin[index] as int;
        assert((s - 1 - (d + 1)) * c == (s - 1 - d) * c - c) by (nonlinear_arith);
    } else {
        lemma_successor(origin, state.update(index, 0), sizes, index + 1);
    }
}

/// No more states follow a state than there are other combinations.
pub proof fn lemma_states_left_bound(state: Seq<usize>, sizes: Seq<nat>, n: int)
    requires
        in_range(state, sizes),
        0 <= n <= state.len(),
    ensures
        0 <= states_left(state, sizes, n) <= combinations(sizes, n) - 1,
    decreases n,
{
    if n > 0 {
        lemma_states_left_bound(state, sizes, n - 1);
        let c = combinations(sizes, n - 1) as int;
        let s = sizes[n - 1] as int;
        let d = s - 1 - state[n - 1];
        assert(0 <= d * c <= (s - 1) * c) by (nonlinear_arith)
            requires
                0 <= d <= s - 1,
                c >= 0,
        ;
        assert((s - 1) * c + c == c * s) by (nonlinear_arith);
    }
}

/// States that leave the same number of states are the same.
pub proof fn lemma_states_left_injective(s: Seq<usize>, t: Seq<usize>, sizes: Seq<nat>, n: int)
    requires
        in_range(s, sizes),
        in_range(t, sizes),
        0 <= n <= s.len(),
        states_left(s, sizes, n) == states_left(t, sizes, n),
    ensures
        forall|i: int| 0 <= i < n ==> s[i] == t[i],
    decreases n,
{
    if n > 0 {
        lemma_states_left_bound(s, sizes, n - 1);
        lemma_states_left_bound(t, sizes, n - 1);
        let c = combinations(sizes, n - 1) as int;
        let ds = sizes[n - 1] - 1 - s[n - 1];
        let dt = sizes[n - 1] - 1 - t[n - 1];
        let ls = states_left(s, sizes, n - 1);
        let lt = states_left(t, sizes, n - 1);
        assert(ds == dt) by (nonlinear_arith)
            requires
                ls + ds * c == lt + dt * c,
                0 <= ls <= c - 1,
                0 <= lt <= c - 1,
        ;
        lemma_states_left_injective(s, t, sizes, n - 1);
    }
}

/// No state leaves more states than the first.
pub proof fn lemma_first_state_leaves_most(state: Seq<usize>, sizes: Seq<nat>)
    requires
        in_range(state, sizes),
    ensures
        in_range(first_state(sizes.len()), sizes),
        states_left(state, sizes, state.len() as int) <= states_left(
            first_state(sizes.len()),
            sizes,
            sizes.len() as int,
        ),
{
    let first = first_state(sizes.len());
    assert forall|i: int| 0 <= i < sizes.len() implies sizes[i] > 0 by {
        assert(state[i] < sizes[i]);
    }
    assert forall|i: int| 0 <= i < first.len() implies (#[trigger] first[i]) < sizes[i] by {}
    lemma_states_left_bound(state, sizes, state.len() as int);
    lemma_left_at_start(first, sizes, sizes.len() as int);
}

/// Walks through every way of picking one option from each of several lists, the first
/// list changing fastest.
pub struct Permutater<T> {
    state: Vec<usize>,
    possibilities: Vec<Vec<T>>,
    run_once: bool,
}

/// The lengths of the lists.
pub open spec fn sizes_of<T>(possibilities: Seq<Seq<T>>) -> Seq<nat> {
    Seq::new(possibilities.len(), |i: int| possibilities[i].len())
}

/// The options that `state` picks from the lists.
pub open spec fn picks<T>(possibilities: Seq<Seq<T>>, state: Seq<usize>) -> Seq<T> {
    Seq::new(possibilities.len(), |i: int| possibilities[i][state[i] as int])
}

/// The lists in `possibilities` as plain values.
pub open spec fn lists_of<T>(possibilities: Seq<Vec<T>>) -> Seq<Seq<T>> {
    Seq::new(possibilities.len(), |i: int| possibilities[i]@)
}

impl<T: Copy> Permutater<T> {
    /// The lists that the options are picked from.
    pub closed spec fn possibilities(&self) -> Seq<Seq<T>> {
        lists_of(self.possibilities@)
    }

    /// The place of the pick in each list.
    pub closed spec fn state(&self) -> Seq<usize> {
        self.state@
    }

    /// Whether the first pick was handed out.
    pub closed spec fn run_once(&self) -> bool {
        self.run_once
    }

    /// The lengths of the lists.
    pub open spec fn sizes(&self) -> Seq<nat> {
        sizes_of(self.possibilities())
    }

    /// Whether the walk is in order: no list is empty and every place is within its list.
    pub open spec fn wf(&self) -> bool {
        &&& in_range(self.state(), self.sizes())
        &&& forall|i: int| 0 <= i < self.sizes().len() ==> #[trigger] self.sizes()[i] > 0
    }

    /// The number of picks that are still to come.
    pub open spec fn picks_left(&self) -> int {
        if self.possibilities().len() == 0 {
            0
        } else if self.run_once() {
            states_left(self.state(), self.sizes(), self.state().len() as int)
        } else {
            states_left(self.state(), self.sizes(), self.state().len() as int) + 1
        }
    }

    /// Starts a walk through the picks from `possibilities`, none of which may be empty.
    pub fn new(possibilities: Vec<Vec<T>>) -> (r: Self)
        requires
            forall|i: int| 0 <= i < possibilities.len() ==> (#[trigger] possibilities[i]).len() > 0,
        ensures
            r.wf(),
            r.possibilities() == lists_of(possibilities@),
            r.state() == first_state(possibilities.len() as nat),
            !r.run_once(),
    {
        let mut state: Vec<usize> = Vec::new();
        let mut i: usize = 0;
        while i < possibilities.len()
            invariant
                i <= possibilities.len(),
                state@ == first_state(i as nat),
            decreases possibilities.len() - i,
        {
            state.push(0);
            i += 1;
        }
        let r = Permutater { state, possibilities, run_once: false };
        proof {
            assert forall|i: int| 0 <= i < r.sizes().len() implies #[trigger] r.sizes()[i] > 0 by {}
        }
        r
    }

    /// Hands out the next pick in `values`, which has one place per list, and says whether
    /// there was one. The first call hands out the first option of every list; after the
    /// last pick every place stands at its first option again, and the walk starts over.
    pub fn next(&mut self, values: &mut Vec<T>) -> (r: bool)
        requires
            old(self).wf(),
            old(values).len() == old(self).possibilities().len(),
        ensures
            final(self).wf(),
            final(self).possibilities() == old(self).possibilities(),
            final(values).len() == old(values).len(),
            r == (old(self).picks_left() > 0),
            r ==> final(self).picks_left() == old(self).picks_left() - 1,
            r ==> final(self).run_once(),
            r ==> final(values)@ == picks(final(self).possibilities(), final(self).state()),
            r && !old(self).run_once() ==> final(self).state() == old(self).state(),
            r && old(self).run_once() ==> successor(old(self).state(), old(self).sizes(), 0)
                == Some(final(self).state()),
            !r && old(self).run_once() ==> successor(
                old(self).state(),
                old(self).sizes(),
                0,
            ).is_none(),
            !r ==> final(self).run_once() == old(self).run_once(),
            !r ==> final(values)@ == old(values)@,
            !r ==> final(self).state() == first_state(old(self).state().len()),
    {
        if self.advance(values, 0) {
            let mut i: usize = 0;
            while i < self.state.len()
                invariant
                    i <= self.state.len(),
                    self.wf(),
                    values.len() == self.possibilities.len(),
                    forall|k: int|
                        0 <= k < i ==> values[k] == self.possibilities[k][self.state[k] as int],
                decreases self.state.len() - i,
            {
                let element = self.possibilities[i][self.state[i]];
                values.set(i, element);
                i += 1;
            }
            proof {
                assert forall|k: int| 0 <= k < values.len() implies values@[k] == picks(
                    self.possibilities(),
                    self.state(),
                )[k] by {}
            }
            true
        } else {
            proof {
                assert(self.state() =~= first_state(old(self).state().len()));
            }
            false
        }
    }

    /// Moves on to the next pick, counting from the list at `index` upwards, and says
    /// whether there was one. The first call of a walk moves nothing. Where there was none,
    /// every place from `index` on stands at its first option and the places before it are
    /// untouched.
    pub fn advance(&mut self, values: &Vec<T>, index: usize) -> (r: bool)
        requires
            old(self).wf(),
            values.len() == old(self).possibilities().len(),
        ensures
            final(self).wf(),
            final(self).possibilities() == old(self).possibilities(),
            index >= values.len() ==> !r && final(self).state() == old(self).state(),
            index >= values.len() ==> final(self).run_once() == old(self).run_once(),
            index < values.len() && !old(self).run_once() ==> r && final(self).run_once(),
            index < values.len() && !old(self).run_once() ==> final(self).state() == old(
                self,
            ).state(),
            index < values.len() && old(self).run_once() ==> final(self).run_once(),
            index < values.len() && old(self).run_once() ==> r == successor(
                old(self).state(),
                old(self).sizes(),
                index as int,
            ).is_some(),
            index < values.len() && old(self).run_once() && r ==> Some(final(self).state())
                == successor(old(self).state(), old(self).sizes(), index as int),
            !r ==> forall|j: int|
                index <= j < final(self).state().len() ==> (#[trigger] final(self).state()[j]) == 0,
            !r ==> forall|j: int|
                0 <= j < index && j < final(self).state().len() ==> (
                #[trigger] final(self).state()[j]) == old(self).state()[j],
            index == 0 ==> r == (old(self).picks_left() > 0),
            index == 0 && r ==> final(self).picks_left() == old(self).picks_left() - 1,
        decreases values.len() - index,
    {
        if index >= values.len() {
            return false;
        }
        proof {
            if index == 0 {
                assert forall|i: int| 0 <= i < self.sizes().len() implies self.sizes()[i]
                    <= usize::MAX by {
                    assert(self.possibilities@[i].len() <= usize::MAX);
                }
                lemma_successor(self.state(), self.state(), self.sizes(), 0);
                lemma_states_left_nonnegative(
                    self.state(),
                    self.sizes(),
                    self.state().len() as int,
                );
                match successor(self.state(), self.sizes(), 0) {
                    Some(next) => lemma_states_left_nonnegative(
                        next,
                        self.sizes(),
                        next.len() as int,
                    ),
                    None => {},
                }
            }
        }
        if self.run_once {
            if self.state[index] < self.possibilities[index].len() - 1 {
                let moved = self.state[index] + 1;
                self.state.set(index, moved);
                proof {
                    assert forall|i: int| 0 <= i < self.state().len() implies (
                    #[trigger] self.state()[i]) < self.sizes()[i] by {}
                }
                true
            } else {
                self.state.set(index, 0);
                proof {
                    assert forall|i: int| 0 <= i < self.state().len() implies (
                    #[trigger] self.state()[i]) < self.sizes()[i] by {}
                }
                self.advance(values, index + 1)
            }
        } else {
            self.run_once = true;
            true
        }
    }
}

} // verus!
