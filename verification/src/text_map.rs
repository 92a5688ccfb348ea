//! A map keyed by text. Keys keep the order in which they were first inserted.
use crate::text::same_text;
use vstd::prelude::*;

verus! {

/// Values under distinct text keys, in insertion order.
#[derive(Debug, Clone)]
pub struct TextMap<V> {
    pub entries: Vec<(String, V)>,
}

/// The first position of a key.
pub open spec fn slot<V>(entries: Seq<(String, V)>, key: Seq<char>) -> Option<int>
    decreases entries.len(),
{
    if entries.len() == 0 {
        None
    } else {
        match slot(entries.drop_last(), key) {
            Some(i) => Some(i),
            None => if entries.last().0@ == key {
                Some(entries.len() - 1)
            } else {
                None
            },
        }
    }
}

/// Whether no key occurs twice.
pub open spec fn keys_distinct<V>(entries: Seq<(String, V)>) -> bool {
    forall|i: int, j: int|
        0 <= i < j < entries.len() ==> (#[trigger] entries[i]).0@ != (#[trigger] entries[j]).0@
}

/// What [`slot`] finds.
pub proof fn lemma_slot<V>(entries: Seq<(String, V)>, key: Seq<char>)
    ensures
        match slot(entries, key) {
            Some(i) => 0 <= i < entries.len() && entries[i].0@ == key && (forall|j: int|
                0 <= j < i ==> (#[trigger] entries[j]).0@ != key),
            None => forall|j: int| 0 <= j < entries.len() ==> (#[trigger] entries[j]).0@ != key,
        },
    decreases entries.len(),
{
    if entries.len() > 0 {
        lemma_slot(entries.drop_last(), key);
        assert forall|j: int| 0 <= j < entries.len() - 1 implies entries.drop_last()[j]
            == #[trigger] entries[j] by {}
    }
}

impl<V> View for TextMap<V> {
    type V = Map<Seq<char>, V>;

    open spec fn view(&self) -> Map<Seq<char>, V> {
        Map::new(
            |key: Seq<char>| slot(self.entries@, key) is Some,
            |key: Seq<char>| self.entries@[slot(self.entries@, key)->0].1,
        )
    }
}

/// Whether what `==` says of two values is known.
pub open spec fn compares<V: vstd::std_specs::cmp::PartialEqSpec>() -> bool {
    V::obeys_eq_spec()
}

/// Whether the values of all keys of one map are those of the other.
pub open spec fn values_agree<V: PartialEq>(
    entries: Seq<(String, V)>,
    other: Map<Seq<char>, V>,
) -> bool {
    forall|i: int|
        0 <= i < entries.len() ==> other.contains_key((#[trigger] entries[i]).0@)
            && vstd::std_specs::cmp::PartialEqSpec::eq_spec(
            &entries[i].1,
            &other[entries[i].0@],
        )
}

impl<V: PartialEq> PartialEq for TextMap<V> {
    fn eq(&self, other: &TextMap<V>) -> (equal: bool) {
        if self.entries.len() != other.entries.len() {
            return false;
        }
        let mut i: usize = 0;
        while i < self.entries.len()
            invariant
                i <= self.entries@.len(),
                compares::<V>() ==> values_agree(self.entries@.take(i as int), other@),
            decreases self.entries@.len() - i,
        {
            assert(self.entries@.take(i + 1) =~= self.entries@.take(i as int).push(
                self.entries@[i as int],
            ));
            assert(self.entries@.take(i + 1)[i as int] == self.entries@[i as int]);
            match other.get(self.entries[i].0.as_str()) {
                Some(value) => {
                    if self.entries[i].1 != *value {
                        return false;
                    }
                },
                None => {
                    return false;
                },
            }
            i += 1;
        }
        assert(self.entries@.take(self.entries@.len() as int) =~= self.entries@);
        true
    }
}

impl<V: PartialEq> vstd::std_specs::cmp::PartialEqSpecImpl for TextMap<V> {
    open spec fn obeys_eq_spec() -> bool {
        compares::<V>()
    }

    open spec fn eq_spec(&self, other: &TextMap<V>) -> bool {
        self.entries@.len() == other.entries@.len() && values_agree(self.entries@, other@)
    }
}

impl<V> TextMap<V> {
    /// No key occurs twice.
    pub open spec fn wf(&self) -> bool {
        keys_distinct(self.entries@)
    }

    /// The keys in insertion order.
    pub open spec fn keys(&self) -> Seq<Seq<char>> {
        self.entries@.map_values(|e: (String, V)| e.0@)
    }

    /// An empty map.
    pub fn new() -> (map: Self)
        ensures
            map.wf(),
            map@ == Map::<Seq<char>, V>::empty(),
            map.keys() == Seq::<Seq<char>>::empty(),
    {
        let map = TextMap { entries: Vec::new() };
        assert(map@ =~= Map::<Seq<char>, V>::empty());
        assert(map.keys() =~= Seq::<Seq<char>>::empty());
        map
    }

    /// How many keys there are.
    pub fn len(&self) -> (n: usize)
        ensures
            n == self.keys().len(),
    {
        self.entries.len()
    }

    /// Where a key stands.
    pub fn position(&self, key: &str) -> (at: Option<usize>)
        ensures
            match at {
                Some(i) => slot(self.entries@, key@) == Some(i as int) && i < self.entries@.len()
                    && self.entries@[i as int].0@ == key@ && self@.dom().contains(key@)
                    && self@[key@] == self.entries@[i as int].1,
                None => !self@.dom().contains(key@) && slot(self.entries@, key@) is None,
            },
    {
        let mut i: usize = 0;
        while i < self.entries.len()
            invariant
                i <= self.entries@.len(),
                forall|j: int| 0 <= j < i ==> (#[trigger] self.entries@[j]).0@ != key@,
            decreases self.entries@.len() - i,
        {
            if same_text(self.entries[i].0.as_str(), key) {
                proof {
                    lemma_slot(self.entries@, key@);
                }
                return Some(i);
            }
            i += 1;
        }
        proof {
            lemma_slot(self.entries@, key@);
        }
        None
    }

    /// Whether a key is present.
    pub fn contains_key(&self, key: &str) -> (present: bool)
        ensures
            present == self@.dom().contains(key@),
    {
        self.position(key).is_some()
    }

    /// The value under a key.
    pub fn get(&self, key: &str) -> (value: Option<&V>)
        ensures
            match value {
                Some(v) => self@.dom().contains(key@) && *v == self@[key@],
                None => !self@.dom().contains(key@),
            },
    {
        match self.position(key) {
            Some(i) => Some(&self.entries[i].1),
            None => None,
        }
    }

    /// Put a value under a key, in place of what was there.
    pub fn insert(&mut self, key: String, value: V) -> (replaced: bool)
        requires
            old(self).wf(),
        ensures
            final(self).wf(),
            final(self)@ == old(self)@.insert(key@, value),
            replaced == old(self)@.dom().contains(key@),
            final(self).keys() == (if replaced {
                old(self).keys()
            } else {
                old(self).keys().push(key@)
            }),
    {
        match self.position(key.as_str()) {
            Some(i) => {
                let ghost before = self.entries@;
                self.entries.set(i, (key, value));
                proof {
                    let after = self.entries@;
                    assert forall|k: Seq<char>| slot(after, k) == slot(before, k) by {
                        lemma_slot(after, k);
                        lemma_slot(before, k);
                        if k != key@ {
                            if slot(before, k) is Some {
                                assert(after[slot(before, k)->0] == before[slot(before, k)->0]);
                            }
                        } else {
                            assert(after[i as int].0@ == k);
                            assert forall|j: int| 0 <= j < i implies (
                            #[trigger] before[j]).0@ != k by {
                                assert(after[j] == before[j]);
                            }
                        }
                    }
                    assert forall|a: int, b: int| 0 <= a < b < after.len() implies (
                    #[trigger] after[a]).0@ != (#[trigger] after[b]).0@ by {
                        assert(before[a].0@ != before[b].0@);
                    }
                    assert(self@ =~= old(self)@.insert(key@, value)) by {
                        assert forall|k: Seq<char>| k != key@ && old(self)@.dom().contains(
                            k,
                        ) implies self@[k] == old(self)@[k] by {
                            lemma_slot(before, k);
                        }
                    }
                    assert(self.keys() =~= old(self).keys());
                }
                true
            },
            None => {
                let ghost before = self.entries@;
                self.entries.push((key, value));
                proof {
                    let after = self.entries@;
                    assert(after.drop_last() =~= before);
                    lemma_slot(before, key@);
                    assert forall|k: Seq<char>| k != key@ && slot(before, k) is Some implies slot(
                        after,
                        k,
                    ) == slot(before, k) && after[slot(before, k)->0] == before[slot(
                        before,
                        k,
                    )->0] by {
                        lemma_slot(before, k);
                    }
                    assert(self@ =~= old(self)@.insert(key@, value));
                    assert(self.keys() =~= old(self).keys().push(key@));
                }
                false
            },
        }
    }

    /// Take a key and its value out.
    pub fn remove(&mut self, key: &str) -> (value: Option<V>)
        requires
            old(self).wf(),
        ensures
            final(self).wf(),
            match value {
                Some(v) => old(self)@.dom().contains(key@) && v == old(self)@[key@],
                None => !old(self)@.dom().contains(key@),
            },
            final(self)@ == old(self)@.remove(key@),
            value is None ==> final(self).keys() == old(self).keys(),
            value is Some ==> final(self).keys() == old(self).keys().remove(
                slot(old(self).entries@, key@)->0,
            ),
    {
        match self.position(key) {
            Some(i) => {
                let ghost before = self.entries@;
                let (_, value) = self.entries.remove(i);
                proof {
                    let after = self.entries@;
                    assert forall|a: int| 0 <= a < after.len() implies (#[trigger] after[a])
                        == before[if a < i {
                        a
                    } else {
                        a + 1
                    }] by {}
                    assert(keys_distinct(after));
                    assert forall|k: Seq<char>|
                        #[trigger] self@.dom().contains(k) <==> (old(self)@.dom().contains(k) && k
                            != key@) by {
                        lemma_slot(after, k);
                        lemma_slot(before, k);
                        if k != key@ && slot(before, k) is Some {
                            let b = slot(before, k)->0;
                            let a = if b < i {
                                b
                            } else {
                                b - 1
                            };
                            assert(after[a] == before[b]);
                        }
                    }
                    assert forall|k: Seq<char>| #[trigger] self@.dom().contains(k) implies self@[k]
                        == old(self)@[k] by {
                        lemma_slot(after, k);
                        lemma_slot(before, k);
                        let a = slot(after, k)->0;
                        let b = if a < i {
                            a
                        } else {
                            a + 1
                        };
                        assert(after[a] == before[b]);
                        if b != slot(before, k)->0 {
                            let c = slot(before, k)->0;
                            assert(before[b].0@ == before[c].0@);
                        }
                    }
                    assert(self@ =~= old(self)@.remove(key@));
                    assert(self.keys() =~= old(self).keys().remove(i as int));
                }
                Some(value)
            },
            None => {
                assert(self@ =~= old(self)@.remove(key@));
                None
            },
        }
    }
}

/// A key is found at its place and has the value that stands there; a key that has no place is not
/// in the map.
pub proof fn law_key_is_found_at_its_place<V>(map: TextMap<V>, key: Seq<char>, at: int)
    requires
        map.wf(),
        0 <= at < map.entries@.len(),
    ensures
        map@.contains_key(map.entries@[at].0@),
        map@[map.entries@[at].0@] == map.entries@[at].1,
        map.keys()[at] == map.entries@[at].0@,
        (forall|i: int| 0 <= i < map.entries@.len() ==> (#[trigger] map.entries@[i]).0@ != key)
            ==> !map@.contains_key(key),
{
    lemma_slot_at(map.entries@, at);
    if forall|i: int| 0 <= i < map.entries@.len() ==> (#[trigger] map.entries@[i]).0@ != key {
        lemma_no_slot(map.entries@, key);
    }
}

proof fn lemma_slot_at<V>(entries: Seq<(String, V)>, at: int)
    requires
        keys_distinct(entries),
        0 <= at < entries.len(),
    ensures
        slot(entries, entries[at].0@) == Some(at),
    decreases entries.len(),
{
    let shorter = entries.drop_last();
    if at < shorter.len() {
        assert(shorter[at] == entries[at]);
        lemma_slot_at(shorter, at);
    } else {
        assert forall|i: int| 0 <= i < shorter.len() implies (#[trigger] shorter[i]).0@
            != entries[at].0@ by {
            assert(shorter[i] == entries[i]);
        }
        lemma_no_slot(shorter, entries[at].0@);
    }
}

proof fn lemma_no_slot<V>(entries: Seq<(String, V)>, key: Seq<char>)
    requires
        forall|i: int| 0 <= i < entries.len() ==> (#[trigger] entries[i]).0@ != key,
    ensures
        slot(entries, key) is None,
    decreases entries.len(),
{
    if entries.len() > 0 {
        let shorter = entries.drop_last();
        assert forall|i: int| 0 <= i < shorter.len() implies (#[trigger] shorter[i]).0@ != key by {
            assert(shorter[i] == entries[i]);
        }
        lemma_no_slot(shorter, key);
        assert(entries[entries.len() - 1].0@ != key);
    }
}

} // verus!
