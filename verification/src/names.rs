//! The nodes by name: for each name the places of the nodes of that name that are still
//! there, kept in a `multimap` map.

use vstd::prelude::*;
use multimap::MultiMap;
use std::collections::hash_map::RandomState;
use crate::release::{items_of, Installable, InstallableView};
use crate::types::ModName;

verus! {

/// `multimap::MultiMap`, held as it is: of what it holds only what the functions below say
/// is known.
#[verifier::external_type_specification]
#[verifier::external_body]
#[verifier::reject_recursive_types(K)]
#[verifier::reject_recursive_types(V)]
#[verifier::reject_recursive_types(S)]
pub struct ExMultiMap<K, V, S>(MultiMap<K, V, S>);

/// What `m` holds: for each key the values that were inserted under it, in the order in
/// which they were inserted.
pub uninterp spec fn multimap_contents(m: MultiMap<String, usize, RandomState>) -> Map<
    Seq<char>,
    Seq<usize>,
>;

/// The contents of a map that holds nothing.
pub open spec fn nothing() -> Map<Seq<char>, Seq<usize>> {
    Map::empty()
}

/// A map that holds nothing.
///
/// Trusted: `MultiMap::new` makes an empty map.
#[verifier::external_body]
fn multimap_new() -> (m: MultiMap<String, usize, RandomState>)
    ensures
        multimap_contents(m) == nothing(),
{
    MultiMap::new()
}

/// Adds `value` to the values under `key`.
///
/// Trusted: `MultiMap::insert` pushes the value to the vector of the key if the map holds
/// the key, and else puts a vector of that one value under the key; the other keys stay as
/// they are.
#[verifier::external_body]
fn multimap_insert(m: &mut MultiMap<String, usize, RandomState>, key: String, value: usize)
    ensures
        multimap_contents(*final(m)) == multimap_contents(*old(m)).insert(
            key@,
            (if multimap_contents(*old(m)).dom().contains(key@) {
                multimap_contents(*old(m))[key@]
            } else {
                Seq::empty()
            }).push(value),
        ),
{
    m.insert(key, value);
}

/// The values under `key`, if the map holds the key.
///
/// Trusted: `MultiMap::get_vec` hands out the vector of the key, or nothing if the map
/// does not hold the key.
#[verifier::external_body]
fn multimap_get_vec(m: &MultiMap<String, usize, RandomState>, key: &str) -> (r: Option<Vec<usize>>)
    ensures
        r.is_some() == multimap_contents(*m).dom().contains(key@),
        r matches Some(values) ==> values@ == multimap_contents(*m)[key@],
{
    m.get_vec(key).cloned()
}

/// The places among the first `upto` of `items` that `alive` marks and that hold an
/// installable of the given name, in order.
pub open spec fn named(items: Seq<InstallableView>, alive: Seq<bool>, name: Seq<char>, upto: int)
    -> Seq<usize>
    decreases upto,
{
    if upto <= 0 {
        Seq::empty()
    } else {
        let rest = named(items, alive, name, upto - 1);
        if alive[upto - 1] && items[upto - 1].name == name {
            rest.push((upto - 1) as usize)
        } else {
            rest
        }
    }
}

/// What is named holds the name and is marked, and what holds the name and is marked is
/// named.
pub proof fn lemma_named(items: Seq<InstallableView>, alive: Seq<bool>, name: Seq<char>, upto: int)
    requires
        0 <= upto <= items.len(),
        items.len() <= usize::MAX,
    ensures
        forall|k: int|
            0 <= k < named(items, alive, name, upto).len() ==> (#[trigger] named(
                items,
                alive,
                name,
                upto,
            )[k]) < upto && alive[named(items, alive, name, upto)[k] as int] && items[named(
                items,
                alive,
                name,
                upto,
            )[k] as int].name == name,
        forall|p: int|
            0 <= p < upto && alive[p] && items[p].name == name ==> named(
                items,
                alive,
                name,
                upto,
            ).contains(p as usize),
    decreases upto,
{
    if upto > 0 {
        lemma_named(items, alive, name, upto - 1);
        let rest = named(items, alive, name, upto - 1);
        let all = named(items, alive, name, upto);
        assert forall|p: int| 0 <= p < upto && alive[p] && items[p].name == name implies all.contains(
            p as usize,
        ) by {
            if p < upto - 1 {
                let k = choose|k: int| 0 <= k < rest.len() && rest[k] == p as usize;
                assert(all[k] == p as usize);
            } else {
                assert(all[all.len() - 1] == p as usize);
            }
        }
    }
}

/// The nodes that are still there, by name.
pub struct NameIndex {
    map: MultiMap<String, usize, RandomState>,
}

impl NameIndex {
    /// Whether the index holds, under each name, the places of the installables of that
    /// name that `alive` marks, in order, and holds no name without such a place.
    pub closed spec fn models(&self, items: Seq<InstallableView>, alive: Seq<bool>) -> bool {
        forall|name: Seq<char>|
            {
                let found = named(items, alive, name, items.len() as int);
                &&& (#[trigger] multimap_contents(self.map).dom().contains(name)) == (found.len()
                    > 0)
                &&& found.len() > 0 ==> multimap_contents(self.map)[name] == found
            }
    }

    /// Puts the nodes that `alive` marks under their names.
    pub fn build(nodes: &Vec<Installable>, alive: &Vec<bool>) -> (r: NameIndex)
        requires
            alive.len() == nodes.len(),
        ensures
            r.models(items_of(nodes@), alive@),
    {
        let ghost items = items_of(nodes@);
        let mut map = multimap_new();
        let mut i: usize = 0;
        while i < nodes.len()
            invariant
                i <= nodes.len(),
                alive.len() == nodes.len(),
                items == items_of(nodes@),
                forall|name: Seq<char>|
                    {
                        let found = named(items, alive@, name, i as int);
                        &&& (#[trigger] multimap_contents(map).dom().contains(name)) == (
                        found.len() > 0)
                        &&& found.len() > 0 ==> multimap_contents(map)[name] == found
                    },
            decreases nodes.len() - i,
        {
            assert(items[i as int] == nodes[i as int]@);
            if alive[i] {
                let ghost before = multimap_contents(map);
                let key = nodes[i].name().to_string();
                multimap_insert(&mut map, key, i);
                proof {
                    let after = multimap_contents(map);
                    assert forall|name: Seq<char>|
                        {
                            let found = named(items, alive@, name, i + 1);
                            &&& (#[trigger] after.dom().contains(name)) == (found.len() > 0)
                            &&& found.len() > 0 ==> after[name] == found
                        } by {
                        let earlier = named(items, alive@, name, i as int);
                        assert(before.dom().contains(name) == (earlier.len() > 0));
                        if name == key@ {
                            if earlier.len() == 0 {
                                assert(earlier =~= Seq::<usize>::empty());
                            }
                        }
                    }
                }
            } else {
                proof {
                    assert forall|name: Seq<char>|
                        {
                            let found = named(items, alive@, name, i + 1);
                            &&& (#[trigger] multimap_contents(map).dom().contains(name)) == (
                            found.len() > 0)
                            &&& found.len() > 0 ==> multimap_contents(map)[name] == found
                        } by {
                        let earlier = named(items, alive@, name, i as int);
                        assert(multimap_contents(map).dom().contains(name) == (earlier.len() > 0));
                    }
                }
            }
            i += 1;
        }
        NameIndex { map }
    }

    /// The places of the nodes of the given name that are still there, in order.
    pub fn lookup(&self, nodes: &Vec<Installable>, alive: &Vec<bool>, name: &ModName) -> (r: Vec<
        usize,
    >)
        requires
            self.models(items_of(nodes@), alive@),
        ensures
            r@ == named(items_of(nodes@), alive@, name@, nodes.len() as int),
    {
        proof {
            assert(multimap_contents(self.map).dom().contains(name@) == (named(
                items_of(nodes@),
                alive@,
                name@,
                nodes.len() as int,
            ).len() > 0));
        }
        match multimap_get_vec(&self.map, name.as_str()) {
            Some(places) => places,
            None => {
                let none: Vec<usize> = Vec::new();
                proof {
                    assert(none@ =~= named(items_of(nodes@), alive@, name@, nodes.len() as int));
                }
                none
            },
        }
    }
}

} // verus!
