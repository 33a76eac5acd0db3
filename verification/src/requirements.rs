//! What the user asks for: a requirement on the version of each mod that is to be installed.

use vstd::prelude::*;
use crate::types::ModName;
use crate::version::ModVersionReq;

verus! {

/// The requirement that `pairs` holds for `name` at or after place `from`, the first such
/// pair deciding.
pub open spec fn lookup_from(pairs: Seq<(Seq<char>, ModVersionReq)>, name: Seq<char>, from: int)
    -> Option<ModVersionReq>
    decreases pairs.len() - from,
{
    if from < 0 || from >= pairs.len() {
        None
    } else if pairs[from].0 == name {
        Some(pairs[from].1)
    } else {
        lookup_from(pairs, name, from + 1)
    }
}

/// `lookup_from` finds a name exactly if some pair from `from` on has it.
pub proof fn lemma_lookup_from(pairs: Seq<(Seq<char>, ModVersionReq)>, name: Seq<char>, from: int)
    requires
        0 <= from,
    ensures
        lookup_from(pairs, name, from).is_some() <==> exists|i: int|
            from <= i < pairs.len() && (#[trigger] pairs[i]).0 == name,
    decreases pairs.len() - from,
{
    if from < pairs.len() {
        if pairs[from].0 != name {
            lemma_lookup_from(pairs, name, from + 1);
        }
    }
}

/// The mods that the user asks for, each with the versions that will do. No name occurs
/// twice.
#[derive(Debug)]
pub struct Requirements {
    entries: Vec<(ModName, ModVersionReq)>,
}

impl Requirements {
    /// The names and requirements in the order in which they were first inserted.
    pub closed spec fn pairs(&self) -> Seq<(Seq<char>, ModVersionReq)> {
        Seq::new(self.entries@.len(), |i: int| (self.entries@[i].0@, self.entries@[i].1))
    }

    /// The requirement on `name`, if there is one.
    pub open spec fn lookup(&self, name: Seq<char>) -> Option<ModVersionReq> {
        lookup_from(self.pairs(), name, 0)
    }

    /// Whether no name occurs twice.
    pub open spec fn wf(&self) -> bool {
        forall|i: int, j: int|
            0 <= i < self.pairs().len() && 0 <= j < self.pairs().len() && (
            #[trigger] self.pairs()[i]).0 == (#[trigger] self.pairs()[j]).0 ==> i == j
    }

    /// No requirements.
    pub fn new() -> (r: Self)
        ensures
            r.wf(),
            r.pairs().len() == 0,
    {
        Requirements { entries: Vec::new() }
    }

    /// The number of mods asked for.
    pub fn len(&self) -> (r: usize)
        ensures
            r == self.pairs().len(),
    {
        self.entries.len()
    }

    /// The name at place `i`.
    pub fn name(&self, i: usize) -> (r: &ModName)
        requires
            i < self.pairs().len(),
        ensures
            r@ == self.pairs()[i as int].0,
    {
        &self.entries[i].0
    }

    /// The requirement on `name`, if there is one.
    pub fn get(&self, name: &ModName) -> (r: Option<ModVersionReq>)
        ensures
            r == self.lookup(name@),
    {
        let mut i: usize = 0;
        while i < self.entries.len()
            invariant
                i <= self.entries.len(),
                self.lookup(name@) == lookup_from(self.pairs(), name@, i as int),
            decreases self.entries.len() - i,
        {
            if &self.entries[i].0 == name {
                return Some(self.entries[i].1);
            }
            i += 1;
        }
        None
    }

    /// Tests whether there is a requirement on `name`.
    pub fn contains_key(&self, name: &ModName) -> (r: bool)
        ensures
            r == self.lookup(name@).is_some(),
    {
        self.get(name).is_some()
    }

    /// Sets the requirement on `name`, in place of an earlier one if there is one.
    pub fn insert(&mut self, name: ModName, req: ModVersionReq)
        requires
            old(self).wf(),
        ensures
            final(self).wf(),
            final(self).lookup(name@) == Some(req),
            forall|other: Seq<char>|
                other != name@ ==> final(self).lookup(other) == old(self).lookup(other),
            old(self).lookup(name@).is_some() ==> final(self).pairs().len() == old(
                self,
            ).pairs().len(),
            old(self).lookup(name@).is_none() ==> final(self).pairs() == old(self).pairs().push(
                (name@, req),
            ),
    {
        let ghost before = self.pairs();
        let mut i: usize = 0;
        while i < self.entries.len()
            invariant
                i <= self.entries.len(),
                self.pairs() == before,
                before == old(self).pairs(),
                old(self).wf(),
                forall|k: int| 0 <= k < i ==> (#[trigger] before[k]).0 != name@,
            decreases self.entries.len() - i,
        {
            if self.entries[i].0 == name {
                self.entries.set(i, (name, req));
                proof {
                    let after = self.pairs();
                    assert(after =~= before.update(i as int, (name@, req)));
                    assert forall|other: Seq<char>| #[trigger]
                        lookup_from(after, other, 0) == (if other == name@ {
                        Some(req)
                    } else {
                        lookup_from(before, other, 0)
                    }) by {
                        lemma_lookup_update(before, i as int, req, other, 0);
                    }
                    lemma_lookup_from(before, name@, 0);
                }
                return ;
            }
            i += 1;
        }
        self.entries.push((name, req));
        proof {
            let after = self.pairs();
            assert(after =~= before.push((name@, req)));
            lemma_lookup_from(before, name@, 0);
            assert forall|other: Seq<char>| #[trigger]
                lookup_from(after, other, 0) == (if other == name@ {
                Some(req)
            } else {
                lookup_from(before, other, 0)
            }) by {
                lemma_lookup_push(before, name@, req, other, 0);
            }
        }
    }
}

/// Changing the requirement of a pair changes what is found for its name only.
proof fn lemma_lookup_update(
    pairs: Seq<(Seq<char>, ModVersionReq)>,
    i: int,
    req: ModVersionReq,
    other: Seq<char>,
    from: int,
)
    requires
        0 <= i < pairs.len(),
        0 <= from,
        forall|k: int| 0 <= k < i ==> (#[trigger] pairs[k]).0 != pairs[i].0,
    ensures
        lookup_from(pairs.update(i, (pairs[i].0, req)), other, from) == (if other == pairs[i].0
            && from <= i {
            Some(req)
        } else {
            lookup_from(pairs, other, from)
        }),
    decreases pairs.len() - from,
{
    let after = pairs.update(i, (pairs[i].0, req));
    if from < pairs.len() {
        if after[from].0 != other {
            lemma_lookup_update(pairs, i, req, other, from + 1);
        }
    }
}

/// A pair added at the end is found for its name if no earlier pair has that name.
proof fn lemma_lookup_push(
    pairs: Seq<(Seq<char>, ModVersionReq)>,
    name: Seq<char>,
    req: ModVersionReq,
    other: Seq<char>,
    from: int,
)
    requires
        0 <= from,
        forall|k: int| 0 <= k < pairs.len() ==> (#[trigger] pairs[k]).0 != name,
    ensures
        lookup_from(pairs.push((name, req)), other, from) == (if other == name && from
            <= pairs.len() {
            Some(req)
        } else {
            lookup_from(pairs, other, from)
        }),
    decreases pairs.len() + 1 - from,
{
    let after = pairs.push((name, req));
    if from < after.len() {
        if after[from].0 != other {
            lemma_lookup_push(pairs, name, req, other, from + 1);
        }
    }
}

} // verus!
