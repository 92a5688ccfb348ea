//! A set of identifiers.
use std::collections::HashSet;
use vstd::prelude::*;

verus! {

broadcast use vstd::std_specs::hash::group_hash_axioms;

/// Identifiers, each of them once.
#[derive(Debug)]
pub struct IdSet {
    ids: HashSet<u64>,
}

impl View for IdSet {
    type V = Set<u64>;

    closed spec fn view(&self) -> Set<u64> {
        self.ids@
    }
}

impl IdSet {
    /// The empty set.
    pub fn new() -> (set: IdSet)
        ensures
            set@ == Set::<u64>::empty(),
    {
        IdSet { ids: HashSet::new() }
    }

    /// Whether an identifier is in the set.
    pub fn contains(&self, id: u64) -> (contained: bool)
        ensures
            contained == self@.contains(id),
    {
        self.ids.contains(&id)
    }

    /// Adds an identifier, and says whether it is new.
    pub fn insert(&mut self, id: u64) -> (new: bool)
        ensures
            final(self)@ == old(self)@.insert(id),
            new == !old(self)@.contains(id),
    {
        self.ids.insert(id)
    }

    /// Adds all identifiers of a list.
    pub fn insert_all(&mut self, ids: &Vec<u64>)
        ensures
            final(self)@ == old(self)@.union(ids@.to_set()),
    {
        let ghost before = self@;
        let mut i: usize = 0;
        assert(before =~= before.union(ids@.take(0).to_set()));
        while i < ids.len()
            invariant
                i <= ids@.len(),
                self@ == before.union(ids@.take(i as int).to_set()),
            decreases ids@.len() - i,
        {
            self.insert(ids[i]);
            i += 1;
            proof {
                let shorter = ids@.take(i - 1);
                let longer = ids@.take(i as int);
                assert(longer =~= shorter.push(ids@[i - 1]));
                assert forall|x: u64| longer.contains(x) <==> shorter.contains(x) || x == ids@[i
                    - 1] by {
                    if shorter.contains(x) {
                        let j = choose|j: int| 0 <= j < shorter.len() && shorter[j] == x;
                        assert(longer[j] == x);
                    }
                    assert(longer[i - 1] == ids@[i - 1]);
                }
                assert(self@ =~= before.union(longer.to_set()));
            }
        }
        assert(ids@.take(ids@.len() as int) =~= ids@);
    }

    /// Adds all identifiers of another set.
    pub fn insert_set(&mut self, other: &IdSet)
        ensures
            final(self)@ == old(self)@.union(other@),
    {
        let ids = other.to_vec();
        self.insert_all(&ids);
    }

    /// Takes an identifier out.
    pub fn remove(&mut self, id: u64)
        ensures
            final(self)@ == old(self)@.remove(id),
    {
        self.ids.remove(&id);
    }

    /// The number of identifiers.
    pub fn len(&self) -> (len: usize)
        ensures
            len == self@.len(),
            self@.finite(),
    {
        proof {
            let listed = vstd::std_specs::hash::spec_hash_keys_iter(&self.ids);
            vstd::seq_lib::seq_to_set_is_finite(
                vstd::std_specs::iter::IteratorSpec::remaining(&listed).unref(),
            );
        }
        self.ids.len()
    }

    /// The identifiers, in no particular order.
    pub fn to_vec(&self) -> (ids: Vec<u64>)
        ensures
            ids@.no_duplicates(),
            ids@.to_set() == self@,
    {
        let mut ids: Vec<u64> = Vec::new();
        for id in walk: self.ids.iter()
            invariant
                walk.seq().unref().to_set() == self.ids@,
                walk.seq().unref().no_duplicates(),
                ids@ =~= walk.seq().unref().take(walk.index()),
                walk.index() == walk.seq().len() ==> ids@ =~= walk.seq().unref(),
        {
            ids.push(*id);
        }
        ids
    }
}

} // verus!
