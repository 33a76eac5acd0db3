//! What has to change in an installation so that it holds a solution: which installed mods
//! stay, which go, and which releases come.

use vstd::prelude::*;
use crate::release::ModRelease;
use crate::text::chars_of;
use crate::types::ModName;
use crate::version::ReleaseVersion;

verus! {

/// How an installed mod lies in the mods directory.
#[derive(Clone, Copy, Debug, PartialEq, Eq, Structural)]
pub enum InstalledModType {
    /// As an archive.
    Zipped,
    /// As a directory.
    Unpacked,
}

/// A mod in the mods directory.
#[derive(Debug)]
pub struct InstalledMod {
    /// The name of the mod.
    pub name: ModName,
    /// The version that is installed.
    pub version: ReleaseVersion,
    /// Where it lies.
    pub path: String,
    /// Whether it lies there as an archive or as a directory.
    pub mod_type: InstalledModType,
}

/// Whether the text `a` comes before the text `b` in the order of dictionaries, the
/// characters ordered by their code points.
pub open spec fn text_lt(a: Seq<char>, b: Seq<char>) -> bool
    decreases a.len(),
{
    if b.len() == 0 {
        false
    } else if a.len() == 0 {
        true
    } else if a[0] != b[0] {
        a[0] < b[0]
    } else {
        text_lt(a.drop_first(), b.drop_first())
    }
}

/// No text comes before itself, and of two different texts one comes before the other.
pub proof fn lemma_text_order(a: Seq<char>, b: Seq<char>)
    ensures
        !(text_lt(a, b) && text_lt(b, a)),
        a == b ==> !text_lt(a, b),
        a != b ==> text_lt(a, b) || text_lt(b, a),
    decreases a.len(),
{
    if a.len() > 0 && b.len() > 0 {
        lemma_text_order(a.drop_first(), b.drop_first());
        if a[0] == b[0] && a.drop_first() == b.drop_first() {
            assert(a =~= seq![a[0]] + a.drop_first());
            assert(b =~= seq![b[0]] + b.drop_first());
        }
    } else if a.len() == 0 && b.len() == 0 {
        assert(a =~= b);
    }
}

/// What comes before a text that comes before a third comes before the third.
pub proof fn lemma_text_lt_transitive(a: Seq<char>, b: Seq<char>, c: Seq<char>)
    requires
        text_lt(a, b),
        text_lt(b, c),
    ensures
        text_lt(a, c),
    decreases a.len(),
{
    if a.len() > 0 && a[0] == b[0] && b[0] == c[0] {
        lemma_text_lt_transitive(a.drop_first(), b.drop_first(), c.drop_first());
    }
}

/// Tests whether the name `a` comes before the name `b`.
pub fn name_lt(a: &ModName, b: &ModName) -> (r: bool)
    ensures
        r == text_lt(a@, b@),
{
    let x = chars_of(a.as_str());
    let y = chars_of(b.as_str());
    let mut i: usize = 0;
    proof {
        assert(x@.subrange(0, x.len() as int) =~= x@);
        assert(y@.subrange(0, y.len() as int) =~= y@);
    }
    while i < x.len() && i < y.len()
        invariant
            i <= x.len(),
            i <= y.len(),
            x@ == a@,
            y@ == b@,
            text_lt(a@, b@) == text_lt(
                x@.subrange(i as int, x.len() as int),
                y@.subrange(i as int, y.len() as int),
            ),
        decreases x.len() - i,
    {
        let ghost p = x@.subrange(i as int, x.len() as int);
        let ghost q = y@.subrange(i as int, y.len() as int);
        proof {
            assert(p.drop_first() =~= x@.subrange(i + 1, x.len() as int));
            assert(q.drop_first() =~= y@.subrange(i + 1, y.len() as int));
        }
        if x[i] != y[i] {
            return x[i] < y[i];
        }
        i += 1;
    }
    i < y.len()
}

/// What a mod is sorted by: its name and its version.
pub struct Key {
    pub name: Seq<char>,
    pub version: ReleaseVersion,
}

/// Whether the key `a` comes before the key `b`: by name, and of two of one name by
/// version.
pub open spec fn key_lt(a: Key, b: Key) -> bool {
    text_lt(a.name, b.name) || (a.name == b.name && a.version.lt_spec(b.version))
}

/// What comes before a key that comes before a third comes before the third.
pub proof fn lemma_key_lt_transitive(a: Key, b: Key, c: Key)
    requires
        key_lt(a, b),
        key_lt(b, c),
    ensures
        key_lt(a, c),
{
    if text_lt(a.name, b.name) && text_lt(b.name, c.name) {
        lemma_text_lt_transitive(a.name, b.name, c.name);
    }
}

/// Whether the places `places` follow each other in the order of their keys.
pub open spec fn sorted_by(places: Seq<usize>, keys: Seq<Key>) -> bool {
    forall|a: int, b: int|
        0 <= a < b < places.len() ==> !key_lt(
            keys[(#[trigger] places[b]) as int],
            keys[(#[trigger] places[a]) as int],
        )
}

/// Whether no place occurs twice in `places`.
pub open spec fn no_repeats(places: Seq<usize>) -> bool {
    forall|a: int, b: int|
        0 <= a < places.len() && 0 <= b < places.len() && (#[trigger] places[a]) == (
        #[trigger] places[b]) ==> a == b
}

/// The keys of the installed mods.
pub open spec fn installed_keys(installed: Seq<InstalledMod>) -> Seq<Key> {
    Seq::new(installed.len(), |i: int| Key { name: installed[i].name@, version: installed[i].version })
}

/// The keys of the releases of a solution.
pub open spec fn solution_keys(solution: Seq<(ModName, ModRelease)>) -> Seq<Key> {
    Seq::new(solution.len(), |e: int| Key { name: solution[e].1@.name, version: solution[e].1@.version })
}

/// The place of the first release in `solution`, from place `from` on, that stands under
/// the name `name`.
pub open spec fn release_for(solution: Seq<(ModName, ModRelease)>, name: Seq<char>, from: int)
    -> Option<int>
    decreases solution.len() - from,
{
    if from < 0 || from >= solution.len() {
        None
    } else if solution[from].0@ == name {
        Some(from)
    } else {
        release_for(solution, name, from + 1)
    }
}

/// Whether the installed mod at place `i` stays: the solution holds its mod at the version
/// that is installed.
pub open spec fn stays(solution: Seq<(ModName, ModRelease)>, installed: Seq<InstalledMod>, i: int)
    -> bool {
    match release_for(solution, installed[i].name@, 0) {
        Some(e) => installed[i].version == solution[e].1@.version,
        None => false,
    }
}

/// Whether the installed mod at place `i` gives way to the release at place `e` of the
/// solution: that release stands under its name and is of another version.
pub open spec fn upgrades(
    solution: Seq<(ModName, ModRelease)>,
    installed: Seq<InstalledMod>,
    i: int,
    e: int,
) -> bool {
    release_for(solution, installed[i].name@, 0) == Some(e) && installed[i].version
        != solution[e].1@.version
}

/// Whether the release at place `e` of the solution is installed already: under the name
/// that it stands under a mod of its version is installed.
pub open spec fn present(solution: Seq<(ModName, ModRelease)>, installed: Seq<InstalledMod>, e: int)
    -> bool {
    exists|i: int|
        0 <= i < installed.len() && (#[trigger] installed[i]).name@ == solution[e].0@
            && installed[i].version == solution[e].1@.version
}

/// What has to change in an installation. The installed mods are named by their places
/// among the installed, the releases by their places in the solution.
#[derive(Debug)]
pub struct Diff {
    /// The installed mods that stay.
    pub to_keep: Vec<usize>,
    /// The installed mods that go, by name and version.
    pub to_uninstall: Vec<usize>,
    /// The releases that come, by name and version.
    pub to_install: Vec<usize>,
    /// The installed mods that give way to a release of another version, each once and with
    /// that release, by name and version of the installed mod.
    pub to_upgrade: Vec<(usize, usize)>,
}

/// Finds the release that stands under `name` in `solution`.
pub fn find_release(solution: &Vec<(ModName, ModRelease)>, name: &ModName) -> (r: Option<usize>)
    ensures
        match r {
            Some(e) => e < solution.len() && release_for(solution@, name@, 0) == Some(e as int),
            None => release_for(solution@, name@, 0).is_none(),
        },
{
    let mut e: usize = 0;
    while e < solution.len()
        invariant
            e <= solution.len(),
            release_for(solution@, name@, 0) == release_for(solution@, name@, e as int),
        decreases solution.len() - e,
    {
        if &solution[e].0 == name {
            return Some(e);
        }
        e += 1;
    }
    None
}

/// Puts `place` into `places` where its key belongs.
fn insert_sorted(places: &mut Vec<usize>, place: usize, names: &Vec<&ModName>, versions: &Vec<
    ReleaseVersion,
>)
    requires
        names.len() == versions.len(),
        place < names.len(),
        forall|a: int| 0 <= a < old(places).len() ==> (#[trigger] old(places)[a]) < names.len(),
        sorted_by(old(places)@, keys_of(names@, versions@)),
        no_repeats(old(places)@),
        !old(places)@.contains(place),
    ensures
        sorted_by(final(places)@, keys_of(names@, versions@)),
        no_repeats(final(places)@),
        forall|x: usize| #[trigger]
            final(places)@.contains(x) <==> (x == place || old(places)@.contains(x)),
        forall|a: int| 0 <= a < final(places).len() ==> (#[trigger] final(places)[a]) < names.len(),
{
    let ghost keys = keys_of(names@, versions@);
    let ghost before = places@;
    let mut at: usize = 0;
    while at < places.len() && !key_before(names, versions, place, places[at])
        invariant
            at <= places.len(),
            places@ == before,
            keys == keys_of(names@, versions@),
            names.len() == versions.len(),
            place < names.len(),
            forall|a: int| 0 <= a < before.len() ==> (#[trigger] before[a]) < names.len(),
            forall|a: int| 0 <= a < at ==> !key_lt(keys[place as int], keys[(#[trigger] before[a]) as int]),
        decreases places.len() - at,
    {
        at += 1;
    }
    places.insert(at, place);
    proof {
        let after = places@;
        assert forall|a: int, b: int| 0 <= a < b < after.len() implies !key_lt(
            keys[(#[trigger] after[b]) as int],
            keys[(#[trigger] after[a]) as int],
        ) by {
            if b == at {
            } else if a == at {
                let first = before[at as int];
                if key_lt(keys[after[b] as int], keys[place as int]) {
                    lemma_key_lt_transitive(
                        keys[after[b] as int],
                        keys[place as int],
                        keys[first as int],
                    );
                    if b - 1 <= at {
                        lemma_text_order(keys[first as int].name, keys[first as int].name);
                    }
                }
            }
        }
        assert forall|a: int, b: int|
            0 <= a < after.len() && 0 <= b < after.len() && (#[trigger] after[a]) == (
            #[trigger] after[b]) implies a == b by {}
        assert forall|x: usize| #[trigger]
            after.contains(x) <==> (x == place || before.contains(x)) by {
            if after.contains(x) {
                let a = choose|a: int| 0 <= a < after.len() && after[a] == x;
                assert(a == at || before.contains(x));
            }
            if x == place {
                assert(after[at as int] == place);
            }
            if before.contains(x) {
                let a = choose|a: int| 0 <= a < before.len() && before[a] == x;
                let a1 = if a < at {
                    a
                } else {
                    a + 1
                };
                assert(after[a1] == x);
            }
        }
        assert forall|a: int| 0 <= a < after.len() implies (#[trigger] after[a]) < names.len() by {}
    }
}

/// The keys made of `names` and `versions`.
pub open spec fn keys_of(names: Seq<&ModName>, versions: Seq<ReleaseVersion>) -> Seq<Key> {
    Seq::new(names.len(), |i: int| Key { name: names[i]@, version: versions[i] })
}

/// Tests whether the key at place `a` comes before the key at place `b`.
fn key_before(names: &Vec<&ModName>, versions: &Vec<ReleaseVersion>, a: usize, b: usize) -> (r:
    bool)
    requires
        names.len() == versions.len(),
        a < names.len(),
        b < names.len(),
    ensures
        r == key_lt(keys_of(names@, versions@)[a as int], keys_of(names@, versions@)[b as int]),
{
    if name_lt(names[a], names[b]) {
        true
    } else if names[a] == names[b] {
        versions[a].lt(&versions[b])
    } else {
        false
    }
}

/// Computes what has to change so that the installation holds the solution.
///
/// An installed mod stays if the solution holds its mod at the installed version, and goes
/// otherwise; if the solution holds its mod at another version, it gives way to that
/// release. A release of the solution comes unless its mod is installed at its version.
/// What goes and what comes is sorted by name and version.
pub fn compute_diff(solution: &Vec<(ModName, ModRelease)>, installed: &Vec<InstalledMod>) -> (r:
    Diff)
    ensures
        forall|i: usize| #[trigger]
            r.to_keep@.contains(i) <==> (i < installed.len() && stays(
                solution@,
                installed@,
                i as int,
            )),
        forall|i: usize| #[trigger]
            r.to_uninstall@.contains(i) <==> (i < installed.len() && !stays(
                solution@,
                installed@,
                i as int,
            )),
        forall|e: usize| #[trigger]
            r.to_install@.contains(e) <==> (e < solution.len() && !present(
                solution@,
                installed@,
                e as int,
            )),
        forall|i: usize, e: usize| #[trigger]
            r.to_upgrade@.contains((i, e)) <==> (i < installed.len() && e < solution.len()
                && upgrades(solution@, installed@, i as int, e as int)),
        forall|a: int, b: int| 0 <= a < b < r.to_keep.len() ==> r.to_keep[a] < r.to_keep[b],
        no_repeats(r.to_uninstall@),
        no_repeats(r.to_install@),
        forall|a: int, b: int|
            0 <= a < b < r.to_upgrade.len() ==> (#[trigger] r.to_upgrade[a]).0 != (
            #[trigger] r.to_upgrade[b]).0,
        sorted_by(r.to_uninstall@, installed_keys(installed@)),
        sorted_by(r.to_install@, solution_keys(solution@)),
        sorted_by(
            Seq::new(r.to_upgrade@.len(), |k: int| r.to_upgrade@[k].0),
            installed_keys(installed@),
        ),
{
    let mut installed_names: Vec<&ModName> = Vec::new();
    let mut installed_versions: Vec<ReleaseVersion> = Vec::new();
    let mut i: usize = 0;
    while i < installed.len()
        invariant
            i <= installed.len(),
            installed_names.len() == i,
            installed_versions.len() == i,
            forall|k: int| 0 <= k < i ==> installed_names[k]@ == installed[k].name@,
            forall|k: int| 0 <= k < i ==> installed_versions[k] == installed[k].version,
        decreases installed.len() - i,
    {
        installed_names.push(&installed[i].name);
        installed_versions.push(installed[i].version);
        i += 1;
    }
    let ghost ikeys = installed_keys(installed@);
    let mut solution_names: Vec<&ModName> = Vec::new();
    let mut solution_versions: Vec<ReleaseVersion> = Vec::new();
    let mut e: usize = 0;
    while e < solution.len()
        invariant
            e <= solution.len(),
            solution_names.len() == e,
            solution_versions.len() == e,
            forall|k: int| 0 <= k < e ==> solution_names[k]@ == solution[k].1@.name,
            forall|k: int| 0 <= k < e ==> solution_versions[k] == solution[k].1@.version,
        decreases solution.len() - e,
    {
        solution_names.push(&solution[e].1.name);
        solution_versions.push(solution[e].1.version);
        e += 1;
    }
    let ghost skeys = solution_keys(solution@);
    let mut to_keep: Vec<usize> = Vec::new();
    let mut to_uninstall: Vec<usize> = Vec::new();
    let mut i: usize = 0;
    while i < installed.len()
        invariant
            i <= installed.len(),
            installed_names.len() == installed.len(),
            installed_versions.len() == installed.len(),
            keys_of(installed_names@, installed_versions@) == ikeys,
            forall|x: usize| #[trigger]
                to_keep@.contains(x) <==> (x < i && stays(solution@, installed@, x as int)),
            forall|x: usize| #[trigger]
                to_uninstall@.contains(x) <==> (x < i && !stays(solution@, installed@, x as int)),
            forall|a: int| 0 <= a < to_uninstall.len() ==> (#[trigger] to_uninstall[a])
                < installed.len(),
            forall|a: int, b: int| 0 <= a < b < to_keep.len() ==> to_keep[a] < to_keep[b],
            no_repeats(to_uninstall@),
            sorted_by(to_uninstall@, ikeys),
        decreases installed.len() - i,
    {
        let stay = match find_release(solution, &installed[i].name) {
            Some(e) => installed[i].version.same(&solution[e].1.version),
            None => false,
        };
        if stay {
            let ghost before = to_keep@;
            to_keep.push(i);
            proof {
                let after = to_keep@;
                assert forall|x: usize| #[trigger]
                    after.contains(x) <==> (x < i + 1 && stays(solution@, installed@, x as int)) by {
                    if x == i {
                        assert(after[before.len() as int] == x);
                    }
                    if before.contains(x) {
                        let a = choose|a: int| 0 <= a < before.len() && before[a] == x;
                        assert(after[a] == x);
                    }
                }
                assert forall|a: int, b: int| 0 <= a < b < after.len() implies after[a]
                    < after[b] by {
                    assert(before.contains(before[a]));
                }
            }
        } else {
            insert_sorted(&mut to_uninstall, i, &installed_names, &installed_versions);
        }
        i += 1;
    }
    // What gives way to a release: the mods that go and whose mod the solution holds, in
    // the order in which they go.
    let mut to_upgrade: Vec<(usize, usize)> = Vec::new();
    // Where among the mods that go each of those that give way stands.
    let ghost mut sources: Seq<int> = Seq::empty();
    let mut k: usize = 0;
    while k < to_uninstall.len()
        invariant
            k <= to_uninstall.len(),
            forall|x: usize| #[trigger]
                to_uninstall@.contains(x) <==> (x < installed.len() && !stays(
                    solution@,
                    installed@,
                    x as int,
                )),
            sources.len() == to_upgrade.len(),
            forall|a: int| 0 <= a < sources.len() ==> 0 <= #[trigger] sources[a] < k,
            forall|a: int, b: int| 0 <= a < b < sources.len() ==> sources[a] < sources[b],
            forall|a: int|
                0 <= a < sources.len() ==> (#[trigger] to_upgrade[a]).0
                    == to_uninstall[sources[a]] && to_upgrade[a].1 < solution.len() && upgrades(
                    solution@,
                    installed@,
                    to_upgrade[a].0 as int,
                    to_upgrade[a].1 as int,
                ),
            forall|b: int, e: int|
                0 <= b < k && #[trigger] upgrades(solution@, installed@, to_uninstall[b] as int, e)
                    ==> to_upgrade@.contains((to_uninstall[b], e as usize)),
        decreases to_uninstall.len() - k,
    {
        let i = to_uninstall[k];
        assert(to_uninstall@.contains(i));
        let ghost before = to_upgrade@;
        match find_release(solution, &installed[i].name) {
            Some(e) => {
                to_upgrade.push((i, e));
                proof {
                    sources = sources.push(k as int);
                    assert(to_upgrade@[before.len() as int] == (i, e));
                }
            },
            None => {},
        }
        proof {
            let after = to_upgrade@;
            assert forall|b: int, e: int|
                0 <= b < k + 1 && #[trigger] upgrades(
                    solution@,
                    installed@,
                    to_uninstall[b] as int,
                    e,
                ) implies after.contains((to_uninstall[b], e as usize)) by {
                if b < k {
                    let a = choose|a: int|
                        0 <= a < before.len() && before[a] == (to_uninstall[b], e as usize);
                    assert(after[a] == before[a]);
                }
            }
        }
        k += 1;
    }
    let mut to_install: Vec<usize> = Vec::new();
    let mut e: usize = 0;
    while e < solution.len()
        invariant
            e <= solution.len(),
            solution_names.len() == solution.len(),
            solution_versions.len() == solution.len(),
            keys_of(solution_names@, solution_versions@) == skeys,
            forall|x: usize| #[trigger]
                to_install@.contains(x) <==> (x < e && !present(solution@, installed@, x as int)),
            forall|a: int| 0 <= a < to_install.len() ==> (#[trigger] to_install[a])
                < solution.len(),
            no_repeats(to_install@),
            sorted_by(to_install@, skeys),
        decreases solution.len() - e,
    {
        let mut found = false;
        let mut i: usize = 0;
        while i < installed.len()
            invariant
                i <= installed.len(),
                e < solution.len(),
                found == exists|m: int|
                    0 <= m < i && (#[trigger] installed[m]).name@ == solution[e as int].0@
                        && installed[m].version == solution[e as int].1@.version,
            decreases installed.len() - i,
        {
            if installed[i].name == solution[e].0 && installed[i].version.same(
                &solution[e].1.version,
            ) {
                found = true;
            }
            i += 1;
        }
        if !found {
            insert_sorted(&mut to_install, e, &solution_names, &solution_versions);
        }
        e += 1;
    }
    proof {
        assert forall|a: int, b: int| 0 <= a < b < to_upgrade.len() implies (
        #[trigger] to_upgrade[a]).0 != (#[trigger] to_upgrade[b]).0 by {
            assert(to_upgrade[a].0 == to_uninstall[sources[a]]);
            assert(to_upgrade[b].0 == to_uninstall[sources[b]]);
            assert(sources[a] < sources[b]);
        }
        let firsts = Seq::new(to_upgrade@.len(), |k: int| to_upgrade@[k].0);
        assert forall|a: int, b: int| 0 <= a < b < firsts.len() implies !key_lt(
            ikeys[(#[trigger] firsts[b]) as int],
            ikeys[(#[trigger] firsts[a]) as int],
        ) by {
            assert(!key_lt(
                ikeys[to_uninstall[sources[b]] as int],
                ikeys[to_uninstall[sources[a]] as int],
            ));
        }
        assert forall|i: usize, e: usize| #[trigger]
            to_upgrade@.contains((i, e)) <==> (i < installed.len() && e < solution.len()
                && upgrades(solution@, installed@, i as int, e as int)) by {
            if i < installed.len() && e < solution.len() && upgrades(
                solution@,
                installed@,
                i as int,
                e as int,
            ) {
                assert(to_uninstall@.contains(i));
            }
        }
    }
    Diff { to_keep, to_uninstall, to_install, to_upgrade }
}

} // verus!
