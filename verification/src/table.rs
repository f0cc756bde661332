//! A map from keys to values that keeps no order among them.

use vstd::prelude::*;

use crate::keys::same_key;
use crate::text_map::Plain;

verus! {

/// A map in which no key occurs twice.
pub struct Table<K: Plain, V> {
    entries: Vec<(K, V)>,
}

spec fn apart<K: Plain, V>(entries: Seq<(K, V)>) -> bool {
    forall|i: int, j: int| 0 <= i < j < entries.len() ==> #[trigger] entries[i].0@ != #[trigger] entries[j].0@
}

spec fn holds<K: Plain, V>(entries: Seq<(K, V)>, i: int, k: K::V) -> bool {
    0 <= i < entries.len() && entries[i].0@ == k
}

spec fn place_of<K: Plain, V>(entries: Seq<(K, V)>, k: K::V) -> int {
    choose|i: int| holds(entries, i, k)
}

spec fn contents<K: Plain, V>(entries: Seq<(K, V)>) -> Map<K::V, V> {
    Map::new(|k: K::V| exists|i: int| holds(entries, i, k), |k: K::V| entries[place_of(entries, k)].1)
}

/// `entries` lists what `m` holds, each key once.
pub open spec fn lists<K, V>(entries: Seq<(K, V)>, m: Map<K, V>) -> bool {
    &&& forall|i: int, j: int| 0 <= i < j < entries.len() ==> (#[trigger] entries[i]).0 != (#[trigger] entries[j]).0
    &&& forall|i: int|
        0 <= i < entries.len() ==> m.contains_key((#[trigger] entries[i]).0) && m[entries[i].0] == entries[i].1
    &&& forall|k: K| #[trigger] m.contains_key(k) ==> entries.contains((k, m[k]))
}

/// The entries that references to keys and values stand for.
pub open spec fn entries_of<K: Plain, V>(r: Seq<(&K, &V)>) -> Seq<(K::V, V)> {
    Seq::new(r.len(), |i: int| (r[i].0@, *r[i].1))
}

/// The entries that keys and values stand for.
pub open spec fn owned_entries<K: Plain, V>(r: Seq<(K, V)>) -> Seq<(K::V, V)> {
    Seq::new(r.len(), |i: int| (r[i].0@, r[i].1))
}

/// The entries that numbers and references to values stand for.
pub open spec fn numbered<V>(r: Seq<(u64, &V)>) -> Seq<(u64, V)> {
    Seq::new(r.len(), |i: int| (r[i].0, *r[i].1))
}

proof fn lemma_at<K: Plain, V>(entries: Seq<(K, V)>, i: int)
    requires
        apart(entries),
        0 <= i < entries.len(),
    ensures
        contents(entries).contains_key(entries[i].0@),
        contents(entries)[entries[i].0@] == entries[i].1,
{
    let k = entries[i].0@;
    assert(holds(entries, i, k));
    let j = place_of(entries, k);
    assert(holds(entries, j, k));
    assert(i == j);
}

impl<K: Plain, V> View for Table<K, V> {
    type V = Map<K::V, V>;

    closed spec fn view(&self) -> Map<K::V, V> {
        contents(self.entries@)
    }
}

impl<K: Plain, V> Table<K, V> {
    #[verifier::type_invariant]
    spec fn distinct(self) -> bool {
        apart(self.entries@)
    }

    /// An empty table.
    pub fn new() -> (r: Self)
        ensures
            r@ == Map::<K::V, V>::empty(),
    {
        let r = Table { entries: Vec::new() };
        assert(r@ =~= Map::<K::V, V>::empty());
        r
    }

    /// Whether there is no entry.
    pub fn is_empty(&self) -> (r: bool)
        ensures
            r <==> self@ == Map::<K::V, V>::empty(),
    {
        proof {
            use_type_invariant(self);
            if self.entries@.len() == 0 {
                assert(self@ =~= Map::<K::V, V>::empty());
            } else {
                lemma_at(self.entries@, 0);
            }
        }
        self.entries.len() == 0
    }

    fn find(&self, key: &K) -> (r: Option<usize>)
        ensures
            r is Some <==> self@.contains_key(key@),
            r matches Some(i) ==> holds(self.entries@, i as int, key@),
            r is None ==> forall|i: int| 0 <= i < self.entries@.len() ==> (#[trigger] self.entries@[i]).0@ != key@,
    {
        proof {
            use_type_invariant(self);
        }
        let mut i: usize = 0;
        while i < self.entries.len()
            invariant
                i <= self.entries@.len(),
                apart(self.entries@),
                forall|j: int| 0 <= j < i ==> (#[trigger] self.entries@[j]).0@ != key@,
            decreases self.entries@.len() - i,
        {
            if self.entries[i].0.same(key) {
                proof {
                    lemma_at(self.entries@, i as int);
                }
                return Some(i);
            }
            i = i + 1;
        }
        None
    }

    /// The value of `key`.
    pub fn get(&self, key: &K) -> (r: Option<&V>)
        ensures
            r is Some <==> self@.contains_key(key@),
            r matches Some(v) ==> *v == self@[key@],
    {
        match self.find(key) {
            Some(i) => {
                proof {
                    use_type_invariant(self);
                    lemma_at(self.entries@, i as int);
                }
                Some(&self.entries[i].1)
            },
            None => None,
        }
    }

    /// Gives `key` the value `value` and hands back the value it had.
    pub fn insert(&mut self, key: K, value: V) -> (r: Option<V>)
        ensures
            final(self)@ == old(self)@.insert(key@, value),
            r is Some <==> old(self)@.contains_key(key@),
            r matches Some(v) ==> v == old(self)@[key@],
    {
        let earlier = self.remove(&key);
        let ghost given = self@;
        proof {
            use_type_invariant(&*self);
        }
        let mut entries: Vec<(K, V)> = Vec::new();
        std::mem::swap(&mut self.entries, &mut entries);
        let ghost before = entries@;
        entries.push((key, value));
        proof {
            let after = entries@;
            assert(apart(after)) by {
                assert forall|i: int, j: int| 0 <= i < j < after.len() implies #[trigger] after[i].0@
                    != #[trigger] after[j].0@ by {
                    assert(after[i] == before[i]);
                    if j == before.len() {
                        lemma_at(before, i);
                    } else {
                        assert(after[j] == before[j]);
                    }
                }
            }
            assert forall|k: K::V| contents(after).contains_key(k) <==> contents(before).insert(
                key@,
                value,
            ).contains_key(k) by {
                if contents(before).contains_key(k) {
                    assert(holds(before, place_of(before, k), k));
                    assert(holds(after, place_of(before, k), k));
                }
                if k == key@ {
                    assert(holds(after, before.len() as int, k));
                }
                if contents(after).contains_key(k) && k != key@ {
                    assert(holds(after, place_of(after, k), k));
                    assert(holds(before, place_of(after, k), k));
                }
            }
            assert forall|k: K::V| contents(after).contains_key(k) implies contents(after)[k]
                == #[trigger] contents(before).insert(key@, value)[k] by {
                if k == key@ {
                    lemma_at(after, before.len() as int);
                } else {
                    let i = place_of(after, k);
                    assert(holds(after, i, k));
                    assert(after[i] == before[i]);
                    lemma_at(after, i);
                    lemma_at(before, i);
                }
            }
            assert(contents(after) =~= contents(before).insert(key@, value));
            assert(old(self)@.remove(key@).insert(key@, value) =~= old(self)@.insert(key@, value));
        }
        self.entries = entries;
        earlier
    }

    /// Takes the entry of `key` out and hands its value back.
    pub fn remove(&mut self, key: &K) -> (r: Option<V>)
        ensures
            final(self)@ == old(self)@.remove(key@),
            r is Some <==> old(self)@.contains_key(key@),
            r matches Some(v) ==> v == old(self)@[key@],
    {
        let i = match self.find(key) {
            Some(i) => i,
            None => {
                assert(self@.remove(key@) =~= self@);
                return None;
            },
        };
        proof {
            use_type_invariant(&*self);
        }
        let mut entries: Vec<(K, V)> = Vec::new();
        std::mem::swap(&mut self.entries, &mut entries);
        let ghost before = entries@;
        let (_, value) = entries.remove(i);
        proof {
            let after = entries@;
            lemma_at(before, i as int);
            assert forall|a: int, b: int| 0 <= a < b < after.len() implies #[trigger] after[a].0@
                != #[trigger] after[b].0@ by {
                let x = if a < i { a } else { a + 1 };
                let y = if b < i { b } else { b + 1 };
                assert(after[a] == before[x]);
                assert(after[b] == before[y]);
            }
            assert forall|k: K::V| contents(after).contains_key(k) <==> (k != key@ && contents(before).contains_key(
                k,
            )) by {
                if contents(before).contains_key(k) && k != key@ {
                    let x = place_of(before, k);
                    assert(holds(before, x, k));
                    let y = if x < i { x } else { x - 1 };
                    assert(holds(after, y, k));
                }
                if contents(after).contains_key(k) {
                    let y = place_of(after, k);
                    assert(holds(after, y, k));
                    let x = if y < i { y } else { y + 1 };
                    assert(holds(before, x, k));
                    assert(after[y] == before[x]);
                }
            }
            assert forall|k: K::V| contents(after).contains_key(k) implies contents(after)[k]
                == contents(before)[k] by {
                let y = place_of(after, k);
                assert(holds(after, y, k));
                let x = if y < i { y } else { y + 1 };
                assert(holds(before, x, k));
                lemma_at(after, y);
                lemma_at(before, x);
            }
            assert(contents(after) =~= contents(before).remove(key@));
        }
        self.entries = entries;
        Some(value)
    }

    /// What the table holds, each key once.
    pub fn entries(&self) -> (r: Vec<(&K, &V)>)
        ensures
            lists(entries_of(r@), self@),
    {
        proof {
            use_type_invariant(self);
        }
        let mut r: Vec<(&K, &V)> = Vec::new();
        let mut i: usize = 0;
        while i < self.entries.len()
            invariant
                i <= self.entries@.len(),
                r@.len() == i,
                forall|j: int| 0 <= j < i ==> *(#[trigger] r@[j]).0 == self.entries@[j].0 && *r@[j].1 == self.entries@[j].1,
            decreases self.entries@.len() - i,
        {
            let e = &self.entries[i];
            r.push((&e.0, &e.1));
            i = i + 1;
        }
        proof {
            let own = self.entries@;
            let listed = entries_of(r@);
            assert forall|j: int| 0 <= j < listed.len() implies (#[trigger] listed[j]).0 == own[j].0@ && listed[j].1
                == own[j].1 by {
                assert(*r@[j].0 == own[j].0);
            }
            assert forall|j: int| 0 <= j < listed.len() implies self@.contains_key((#[trigger] listed[j]).0)
                && self@[listed[j].0] == listed[j].1 by {
                lemma_at(own, j);
            }
            assert forall|k: K::V| #[trigger] self@.contains_key(k) implies listed.contains((k, self@[k])) by {
                let j = place_of(own, k);
                assert(holds(own, j, k));
                lemma_at(own, j);
                assert(listed[j] == (k, self@[k]));
            }
            assert forall|a: int, b: int| 0 <= a < b < listed.len() implies (#[trigger] listed[a]).0 != (
            #[trigger] listed[b]).0 by {
                assert(own[a].0@ != own[b].0@);
            }
        }
        r
    }

    /// What the table holds, each key once, handed over.
    pub fn into_entries(self) -> (r: Vec<(K, V)>)
        ensures
            lists(owned_entries(r@), self@),
    {
        proof {
            use_type_invariant(&self);
            let own = self.entries@;
            let listed = owned_entries(own);
            assert forall|j: int| 0 <= j < listed.len() implies self@.contains_key((#[trigger] listed[j]).0)
                && self@[listed[j].0] == listed[j].1 by {
                lemma_at(own, j);
            }
            assert forall|k: K::V| #[trigger] self@.contains_key(k) implies listed.contains((k, self@[k])) by {
                let j = place_of(own, k);
                assert(holds(own, j, k));
                lemma_at(own, j);
                assert(listed[j] == (k, self@[k]));
            }
            assert forall|a: int, b: int| 0 <= a < b < listed.len() implies (#[trigger] listed[a]).0 != (
            #[trigger] listed[b]).0 by {
                assert(own[a].0@ != own[b].0@);
            }
        }
        self.entries
    }
}

impl Plain for u64 {
    fn duplicate(&self) -> (r: Self) {
        *self
    }

    fn same(&self, other: &Self) -> (r: bool) {
        *self == *other
    }
}

impl Plain for [u8; 32] {
    fn duplicate(&self) -> (r: Self) {
        *self
    }

    fn same(&self, other: &Self) -> (r: bool) {
        same_key(self, other)
    }
}

} // verus!
