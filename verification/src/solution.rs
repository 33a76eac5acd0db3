//! Assignments of installables to names: when one is valid, and which of two is preferred.

use vstd::prelude::*;
use std::cmp::Ordering;
use crate::dependency::{Dependency, DependencyView};
use crate::release::{dependency_views, items_of_refs, Installable, InstallableView};
use crate::types::ModName;

verus! {

/// The place of the first item of the given name among `items`, from place `from` on.
pub open spec fn position_from(items: Seq<InstallableView>, name: Seq<char>, from: int) -> Option<
    int,
>
    decreases items.len() - from,
{
    if from < 0 || from >= items.len() {
        None
    } else if items[from].name == name {
        Some(from)
    } else {
        position_from(items, name, from + 1)
    }
}

/// The place of the first item of the given name among `items`.
pub open spec fn position(items: Seq<InstallableView>, name: Seq<char>) -> Option<int> {
    position_from(items, name, 0)
}

/// What `position_from` finds is the first item of that name at or after `from`.
pub proof fn lemma_position_from(items: Seq<InstallableView>, name: Seq<char>, from: int)
    requires
        0 <= from,
    ensures
        match position_from(items, name, from) {
            Some(j) => from <= j < items.len() && items[j].name == name && forall|k: int|
                from <= k < j ==> items[k].name != name,
            None => forall|k: int| from <= k < items.len() ==> items[k].name != name,
        },
    decreases items.len() - from,
{
    if from < items.len() && items[from].name != name {
        lemma_position_from(items, name, from + 1);
    }
}

/// Whether no two of `items` have the same name.
pub open spec fn distinct_names(items: Seq<InstallableView>) -> bool {
    forall|i: int, j: int|
        0 <= i < items.len() && 0 <= j < items.len() && items[i].name == items[j].name ==> i == j
}

/// Whether `items` honour the dependency `dep`: every item of the name that `dep` speaks of
/// has a version that satisfies it, and if `dep` is required there is such an item.
pub open spec fn dep_honoured(items: Seq<InstallableView>, dep: DependencyView) -> bool {
    &&& forall|j: int|
        0 <= j < items.len() && items[j].name == dep.name ==> dep.version.matches_spec(
            #[trigger] items[j].version,
        )
    &&& dep.required ==> exists|j: int| 0 <= j < items.len() && #[trigger] items[j].name == dep.name
}

/// Whether the assignment `items` is valid: it honours every dependency of every item in it.
pub open spec fn valid(items: Seq<InstallableView>) -> bool {
    forall|i: int, k: int|
        0 <= i < items.len() && 0 <= k < items[i].deps.len() ==> dep_honoured(
            items,
            #[trigger] items[i].deps[k],
        )
}

/// Tests whether `solution` honours the dependency `dep`.
pub fn honours(solution: &Vec<&Installable>, dep: &Dependency) -> (r: bool)
    ensures
        r == dep_honoured(items_of_refs(solution@), dep@),
{
    let ghost items = items_of_refs(solution@);
    let mut found = false;
    let mut j: usize = 0;
    while j < solution.len()
        invariant
            j <= solution.len(),
            items == items_of_refs(solution@),
            found == exists|m: int| 0 <= m < j && #[trigger] items[m].name == dep@.name,
            forall|m: int|
                0 <= m < j && items[m].name == dep@.name ==> dep@.version.matches_spec(
                    #[trigger] items[m].version,
                ),
        decreases solution.len() - j,
    {
        let other: &Installable = solution[j];
        assert(items[j as int] == other@);
        if other.name() == dep.name() {
            if !dep.version().matches(other.version()) {
                return false;
            }
            found = true;
        }
        j += 1;
    }
    found || !dep.required()
}

/// Tests whether an assignment is valid: for every dependency of every installable in it,
/// the installable of that name, if the assignment has one, satisfies the dependency, and
/// if it has none the dependency is optional.
pub fn is_valid(solution: &Vec<&Installable>) -> (r: bool)
    ensures
        r == valid(items_of_refs(solution@)),
{
    let ghost items = items_of_refs(solution@);
    let mut i: usize = 0;
    while i < solution.len()
        invariant
            i <= solution.len(),
            items == items_of_refs(solution@),
            forall|a: int, k: int|
                0 <= a < i && 0 <= k < items[a].deps.len() ==> dep_honoured(
                    items,
                    #[trigger] items[a].deps[k],
                ),
        decreases solution.len() - i,
    {
        let installable: &Installable = solution[i];
        let deps = installable.dependencies();
        let mut k: usize = 0;
        while k < deps.len()
            invariant
                k <= deps.len(),
                i < solution.len(),
                items == items_of_refs(solution@),
                dependency_views(deps@) == items[i as int].deps,
                forall|m: int|
                    0 <= m < k ==> dep_honoured(items, #[trigger] items[i as int].deps[m]),
            decreases deps.len() - k,
        {
            assert(dependency_views(deps@)[k as int] == deps[k as int]@);
            if !honours(solution, &deps[k]) {
                return false;
            }
            k += 1;
        }
        assert(deps.len() == items[i as int].deps.len());
        i += 1;
    }
    true
}

/// How one assignment stands to another.
#[derive(Clone, Copy, Debug, PartialEq, Eq, Structural)]
pub enum Preference {
    /// The other is preferred.
    Worse,
    /// Neither is preferred.
    Same,
    /// This one is preferred.
    Better,
}

/// How the sizes of two assignments decide between them: the larger one is preferred.
pub open spec fn prefer_by_size(a: Seq<InstallableView>, b: Seq<InstallableView>) -> Preference {
    if a.len() < b.len() {
        Preference::Worse
    } else if a.len() > b.len() {
        Preference::Better
    } else {
        Preference::Same
    }
}

/// How `a` stands to `b`, decided from the item of `a` at place `from` on: the first item
/// of `a` whose name `b` holds at another version decides, the newer version being
/// preferred; if there is none, the sizes decide.
pub open spec fn prefer_from(a: Seq<InstallableView>, b: Seq<InstallableView>, from: int)
    -> Preference
    decreases a.len() - from,
{
    if from < 0 || from >= a.len() {
        prefer_by_size(a, b)
    } else {
        match position(b, a[from].name) {
            Some(j) => if a[from].version.lt_spec(b[j].version) {
                Preference::Worse
            } else if b[j].version.lt_spec(a[from].version) {
                Preference::Better
            } else {
                prefer_from(a, b, from + 1)
            },
            None => prefer_from(a, b, from + 1),
        }
    }
}

/// How the assignment `a` stands to the assignment `b`.
pub open spec fn prefer(a: Seq<InstallableView>, b: Seq<InstallableView>) -> Preference {
    prefer_from(a, b, 0)
}

/// Finds the first installable of the given name in `solution`.
pub fn find(solution: &Vec<&Installable>, name: &ModName) -> (r: Option<usize>)
    ensures
        match r {
            Some(j) => j < solution.len() && position(items_of_refs(solution@), name@) == Some(
                j as int,
            ),
            None => position(items_of_refs(solution@), name@).is_none(),
        },
{
    let ghost items = items_of_refs(solution@);
    let mut j: usize = 0;
    while j < solution.len()
        invariant
            j <= solution.len(),
            items == items_of_refs(solution@),
            position(items, name@) == position_from(items, name@, j as int),
        decreases solution.len() - j,
    {
        let other: &Installable = solution[j];
        if other.name() == name {
            return Some(j);
        }
        j += 1;
    }
    None
}

/// Says how the assignment `one` stands to the assignment `other`. The names of `one` are walked
/// in order; the first that `other` holds at another version decides, the newer version being
/// preferred. If none does, the assignment with more installables is preferred.
pub fn preference(one: &Vec<&Installable>, other: &Vec<&Installable>) -> (r: Preference)
    ensures
        r == prefer(items_of_refs(one@), items_of_refs(other@)),
{
    let ghost a = items_of_refs(one@);
    let ghost b = items_of_refs(other@);
    let mut i: usize = 0;
    while i < one.len()
        invariant
            i <= one.len(),
            a == items_of_refs(one@),
            b == items_of_refs(other@),
            prefer(a, b) == prefer_from(a, b, i as int),
        decreases one.len() - i,
    {
        let mine: &Installable = one[i];
        match find(other, mine.name()) {
            Some(j) => {
                let theirs: &Installable = other[j];
                if mine.version().lt(theirs.version()) {
                    return Preference::Worse;
                }
                if theirs.version().lt(mine.version()) {
                    return Preference::Better;
                }
            },
            None => {},
        }
        i += 1;
    }
    if one.len() < other.len() {
        Preference::Worse
    } else if one.len() > other.len() {
        Preference::Better
    } else {
        Preference::Same
    }
}

/// Whether `b` holds every name that it shares with `a` at the same or a newer version.
pub open spec fn at_least(a: Seq<InstallableView>, b: Seq<InstallableView>) -> bool {
    forall|i: int, j: int|
        0 <= i < a.len() && 0 <= j < b.len() && a[i].name == b[j].name ==> (
        #[trigger] a[i].version).le_spec(#[trigger] b[j].version)
}

/// Whether `b` holds some name that it shares with `a` at a newer version.
pub open spec fn somewhere_newer(a: Seq<InstallableView>, b: Seq<InstallableView>) -> bool {
    exists|i: int, j: int|
        0 <= i < a.len() && 0 <= j < b.len() && a[i].name == b[j].name && (
        #[trigger] a[i].version).lt_spec(#[trigger] b[j].version)
}

/// Of two assignments that differ on a shared name, and where one is never older than the
/// other on a shared name, that one is preferred, from whichever side the two are compared.
pub proof fn lemma_newer_is_preferred(a: Seq<InstallableView>, b: Seq<InstallableView>)
    requires
        distinct_names(a),
        distinct_names(b),
        at_least(a, b),
        somewhere_newer(a, b),
    ensures
        prefer(a, b) == Preference::Worse,
        prefer(b, a) == Preference::Better,
{
    let (i, j) = choose|i: int, j: int|
        0 <= i < a.len() && 0 <= j < b.len() && a[i].name == b[j].name && (
        #[trigger] a[i].version).lt_spec(#[trigger] b[j].version);
    lemma_prefer_worse(a, b, 0, i, j);
    lemma_prefer_better(b, a, 0, j, i);
}

/// The walk over `a` ends at the latest at place `i`, where `b` is newer.
proof fn lemma_prefer_worse(
    a: Seq<InstallableView>,
    b: Seq<InstallableView>,
    from: int,
    i: int,
    j: int,
)
    requires
        distinct_names(b),
        at_least(a, b),
        0 <= from <= i < a.len(),
        0 <= j < b.len(),
        a[i].name == b[j].name,
        a[i].version.lt_spec(b[j].version),
    ensures
        prefer_from(a, b, from) == Preference::Worse,
    decreases i - from,
{
    lemma_position_from(b, a[from].name, 0);
    match position(b, a[from].name) {
        Some(m) => {
            if from == i {
            } else if !a[from].version.lt_spec(b[m].version) {
                lemma_prefer_worse(a, b, from + 1, i, j);
            }
        },
        None => {
            if from != i {
                lemma_prefer_worse(a, b, from + 1, i, j);
            }
        },
    }
}

/// The walk over `b` ends at the latest at place `j`, where `b` is newer.
proof fn lemma_prefer_better(
    b: Seq<InstallableView>,
    a: Seq<InstallableView>,
    from: int,
    j: int,
    i: int,
)
    requires
        distinct_names(a),
        at_least(a, b),
        0 <= from <= j < b.len(),
        0 <= i < a.len(),
        a[i].name == b[j].name,
        a[i].version.lt_spec(b[j].version),
    ensures
        prefer_from(b, a, from) == Preference::Better,
    decreases j - from,
{
    lemma_position_from(a, b[from].name, 0);
    match position(a, b[from].name) {
        Some(m) => {
            if from == j {
            } else if !a[m].version.lt_spec(b[from].version) {
                lemma_prefer_better(b, a, from + 1, j, i);
            }
        },
        None => {
            if from != j {
                lemma_prefer_better(b, a, from + 1, j, i);
            }
        },
    }
}

/// The ordering that stands for a preference: `Less` for the worse assignment.
pub open spec fn ordering_of(p: Preference) -> Ordering {
    match p {
        Preference::Worse => Ordering::Less,
        Preference::Same => Ordering::Equal,
        Preference::Better => Ordering::Greater,
    }
}

/// Compares two assignments: `Less` says that `other` is preferred, `Greater` that `one` is.
pub fn compare(one: &Vec<&Installable>, other: &Vec<&Installable>) -> (r: Ordering)
    ensures
        r == ordering_of(prefer(items_of_refs(one@), items_of_refs(other@))),
{
    match preference(one, other) {
        Preference::Worse => Ordering::Less,
        Preference::Same => Ordering::Equal,
        Preference::Better => Ordering::Greater,
    }
}

} // verus!
