//! A map from text to values, kept in the order of its keys.

use vstd::prelude::*;

use crate::text::{lemma_text_lt_total, lemma_text_lt_transitive, place, same_text, text_lt, Placement};

verus! {

/// Values that can be copied and told apart by what they stand for.
pub trait Plain: View + Sized {
    fn duplicate(&self) -> (r: Self)
        ensures
            r@ == self@,
    ;

    fn same(&self, other: &Self) -> (r: bool)
        ensures
            r == (self@ == other@),
    ;
}

/// A map from text to values. Its entries stand in the order of their keys,
/// and no key occurs twice.
#[derive(Debug, PartialEq, Eq)]
pub struct TextMap<V> {
    entries: Vec<(String, V)>,
}

/// The keys of `entries` stand strictly in the order of strings.
spec fn in_order<V>(entries: Seq<(String, V)>) -> bool {
    forall|i: int, j: int|
        0 <= i < j < entries.len() ==> text_lt(#[trigger] entries[i].0@, #[trigger] entries[j].0@)
}

/// `k` is the key at position `i`.
spec fn key_at<V>(entries: Seq<(String, V)>, i: int, k: Seq<char>) -> bool {
    0 <= i < entries.len() && entries[i].0@ == k
}

spec fn position<V>(entries: Seq<(String, V)>, k: Seq<char>) -> int {
    choose|i: int| key_at(entries, i, k)
}

spec fn contents<V: View>(entries: Seq<(String, V)>) -> Map<Seq<char>, V::V> {
    Map::new(
        |k: Seq<char>| exists|i: int| key_at(entries, i, k),
        |k: Seq<char>| entries[position(entries, k)].1@,
    )
}

impl<V: View> View for TextMap<V> {
    type V = Map<Seq<char>, V::V>;

    closed spec fn view(&self) -> Map<Seq<char>, V::V> {
        contents(self.entries@)
    }
}

/// The texts of a sequence of strings.
pub open spec fn texts(s: Seq<String>) -> Seq<Seq<char>> {
    s.map_values(|t: String| t@)
}

/// `keys` lists the keys of `m` in the order of strings, each once.
pub open spec fn lists_keys<W>(keys: Seq<Seq<char>>, m: Map<Seq<char>, W>) -> bool {
    &&& forall|k: Seq<char>| #[trigger] m.contains_key(k) <==> keys.contains(k)
    &&& forall|i: int, j: int| 0 <= i < j < keys.len() ==> text_lt(#[trigger] keys[i], #[trigger] keys[j])
}

/// The keys of `m` in the order of strings.
pub open spec fn sorted_keys<W>(m: Map<Seq<char>, W>) -> Seq<Seq<char>> {
    choose|keys: Seq<Seq<char>>| lists_keys(keys, m)
}

/// There is one way to list the keys of a map in the order of strings.
pub proof fn lemma_listing_is_unique<W>(a: Seq<Seq<char>>, b: Seq<Seq<char>>, m: Map<Seq<char>, W>)
    requires
        lists_keys(a, m),
        lists_keys(b, m),
    ensures
        a == b,
    decreases a.len(),
{
    if a.len() == 0 {
        if b.len() > 0 {
            assert(b.contains(b[0]));
            assert(m.contains_key(b[0]));
            assert(a.contains(b[0]));
        }
        assert(a =~= b);
    } else {
        let x = a.last();
        assert(a.contains(x));
        assert(m.contains_key(x));
        assert(b.contains(x));
        let y = b.last();
        assert(b.contains(y));
        assert(m.contains_key(y));
        assert(a.contains(y));
        let i = choose|i: int| 0 <= i < a.len() && a[i] == y;
        let j = choose|j: int| 0 <= j < b.len() && b[j] == x;
        lemma_text_lt_total(x, y);
        assert(x == y) by {
            if i < a.len() - 1 {
                assert(text_lt(a[i], a[a.len() - 1]));
            }
            if j < b.len() - 1 {
                assert(text_lt(b[j], b[b.len() - 1]));
            }
        }
        lemma_listing_without_last(a, m);
        lemma_listing_without_last(b, m);
        lemma_listing_is_unique(a.drop_last(), b.drop_last(), m.remove(x));
        assert(a =~= a.drop_last().push(x));
        assert(b =~= b.drop_last().push(x));
    }
}

proof fn lemma_listing_without_last<W>(a: Seq<Seq<char>>, m: Map<Seq<char>, W>)
    requires
        lists_keys(a, m),
        a.len() > 0,
    ensures
        lists_keys(a.drop_last(), m.remove(a.last())),
{
    let init = a.drop_last();
    let rest = m.remove(a.last());
    assert forall|k: Seq<char>| #[trigger] rest.contains_key(k) <==> init.contains(k) by {
        if rest.contains_key(k) {
            assert(m.contains_key(k));
            let i = choose|i: int| 0 <= i < a.len() && a[i] == k;
            assert(init[i] == k);
        }
        if init.contains(k) {
            let i = choose|i: int| 0 <= i < init.len() && init[i] == k;
            assert(a[i] == k);
            assert(a.contains(k));
            assert(m.contains_key(k));
            lemma_text_lt_total(k, k);
            assert(text_lt(a[i], a[a.len() - 1]));
        }
    }
}

proof fn lemma_at<V: View>(entries: Seq<(String, V)>, i: int)
    requires
        in_order(entries),
        0 <= i < entries.len(),
    ensures
        contents(entries).contains_key(entries[i].0@),
        contents(entries)[entries[i].0@] == entries[i].1@,
{
    let k = entries[i].0@;
    assert(key_at(entries, i, k));
    let j = position(entries, k);
    assert(key_at(entries, j, k));
    lemma_text_lt_total(k, k);
    assert(i == j);
}

impl<V> TextMap<V> {
    #[verifier::type_invariant]
    spec fn ordered(self) -> bool {
        in_order(self.entries@)
    }
}

impl<V: View> TextMap<V> {
    /// An empty map.
    pub fn new() -> (r: Self)
        ensures
            r@ == Map::<Seq<char>, V::V>::empty(),
    {
        let r = TextMap { entries: Vec::new() };
        assert(r@ =~= Map::<Seq<char>, V::V>::empty());
        r
    }

    /// The number of entries. The keys in order are the keys of the map, each
    /// strictly before the next.
    pub fn len(&self) -> (r: usize)
        ensures
            r == self.keys_in_order().len(),
            lists_keys(self.keys_in_order(), self@),
    {
        proof {
            use_type_invariant(self);
            let keys = self.keys_in_order();
            assert forall|k: Seq<char>| self@.contains_key(k) <==> keys.contains(k) by {
                if self@.contains_key(k) {
                    let i = position(self.entries@, k);
                    assert(key_at(self.entries@, i, k));
                    assert(keys[i] == k);
                }
                if keys.contains(k) {
                    let i = choose|i: int| 0 <= i < keys.len() && keys[i] == k;
                    lemma_at(self.entries@, i);
                }
            }
        }
        self.entries.len()
    }

    /// Whether there is no entry.
    pub fn is_empty(&self) -> (r: bool)
        ensures
            r <==> self@ == Map::<Seq<char>, V::V>::empty(),
    {
        let n = self.len();
        proof {
            if n == 0 {
                assert(self@ =~= Map::<Seq<char>, V::V>::empty());
            } else {
                let k = self.keys_in_order()[0];
                assert(self.keys_in_order().contains(k));
                assert(self@.contains_key(k));
            }
        }
        n == 0
    }

    /// The entry at position `i` in the order of keys.
    pub fn entry(&self, i: usize) -> (r: (&String, &V))
        requires
            i < self.keys_in_order().len(),
        ensures
            r.0@ == self.keys_in_order()[i as int],
            self@.contains_key(r.0@),
            r.1@ == self@[r.0@],
    {
        proof {
            use_type_invariant(self);
            lemma_at(self.entries@, i as int);
        }
        (&self.entries[i].0, &self.entries[i].1)
    }

    /// The keys, in order.
    pub fn keys(&self) -> (r: Vec<String>)
        ensures
            texts(r@) == self.keys_in_order(),
            lists_keys(self.keys_in_order(), self@),
    {
        let n = self.len();
        let mut r: Vec<String> = Vec::new();
        let mut i: usize = 0;
        while i < n
            invariant
                i <= n == self.keys_in_order().len(),
                texts(r@) == self.keys_in_order().take(i as int),
            decreases n - i,
        {
            let ghost before = r@;
            r.push(self.entry(i).0.clone());
            assert(texts(r@) =~= texts(before).push(self.keys_in_order()[i as int]));
            assert(self.keys_in_order().take(i + 1) =~= self.keys_in_order().take(i as int).push(
                self.keys_in_order()[i as int],
            ));
            i = i + 1;
        }
        assert(self.keys_in_order().take(n as int) =~= self.keys_in_order());
        r
    }

    /// The keys, in order.
    pub closed spec fn keys_in_order(self) -> Seq<Seq<char>> {
        self.entries@.map_values(|e: (String, V)| e.0@)
    }

    /// The position of `key`, or where it would have to be inserted.
    fn find(&self, key: &str) -> (r: (bool, usize))
        ensures
            r.1 <= self.entries@.len(),
            r.0 <==> self@.contains_key(key@),
            r.0 ==> r.1 < self.entries@.len() && self.entries@[r.1 as int].0@ == key@,
            forall|i: int| 0 <= i < r.1 ==> text_lt(#[trigger] self.entries@[i].0@, key@),
            !r.0 ==> forall|i: int| r.1 <= i < self.entries@.len() ==> text_lt(key@, #[trigger] self.entries@[i].0@),
    {
        proof {
            use_type_invariant(self);
        }
        let mut i: usize = 0;
        while i < self.entries.len()
            invariant
                i <= self.entries@.len(),
                in_order(self.entries@),
                forall|j: int| 0 <= j < i ==> text_lt(#[trigger] self.entries@[j].0@, key@),
            decreases self.entries@.len() - i,
        {
            match place(self.entries[i].0.as_str(), key) {
                Placement::Before => {
                    i = i + 1;
                },
                Placement::Same => {
                    proof {
                        lemma_at(self.entries@, i as int);
                    }
                    return (true, i);
                },
                Placement::After => {
                    proof {
                        assert forall|j: int| i <= j < self.entries@.len() implies text_lt(
                            key@,
                            #[trigger] self.entries@[j].0@,
                        ) by {
                            if j > i {
                                lemma_text_lt_transitive(key@, self.entries@[i as int].0@, self.entries@[j].0@);
                            }
                        }
                        lemma_text_lt_total(key@, key@);
                    }
                    return (false, i);
                },
            }
        }
        proof {
            lemma_text_lt_total(key@, key@);
        }
        (false, i)
    }

    /// The value of `key`.
    pub fn get(&self, key: &str) -> (r: Option<&V>)
        ensures
            r is Some <==> self@.contains_key(key@),
            r matches Some(v) ==> v@ == self@[key@],
    {
        let (found, i) = self.find(key);
        if found {
            proof {
                use_type_invariant(self);
                lemma_at(self.entries@, i as int);
            }
            Some(&self.entries[i].1)
        } else {
            None
        }
    }

    /// Whether `key` has a value.
    pub fn contains_key(&self, key: &str) -> (r: bool)
        ensures
            r == self@.contains_key(key@),
    {
        self.find(key).0
    }

    /// Gives `key` the value `value`, in place of any value it had.
    pub fn insert(&mut self, key: String, value: V)
        ensures
            final(self)@ == old(self)@.insert(key@, value@),
    {
        let (found, i) = self.find(key.as_str());
        let mut entries: Vec<(String, V)> = Vec::new();
        proof {
            use_type_invariant(&*self);
        }
        std::mem::swap(&mut self.entries, &mut entries);
        let ghost before = entries@;
        if found {
            entries.set(i, (key, value));
        } else {
            entries.insert(i, (key, value));
        }
        proof {
            let after = entries@;
            assert(in_order(after)) by {
                assert forall|a: int, b: int| 0 <= a < b < after.len() implies text_lt(
                    #[trigger] after[a].0@,
                    #[trigger] after[b].0@,
                ) by {
                    if !found {
                        let x = if a < i { a } else { a - 1 };
                        let y = if b < i { b } else { b - 1 };
                        if a != i {
                            assert(after[a] == before[x]);
                        }
                        if b != i {
                            assert(after[b] == before[y]);
                        }
                        if a == i {
                            assert(text_lt(key@, before[y].0@));
                        }
                    }
                }
            }
            assert forall|k: Seq<char>| contents(after).contains_key(k) <==> (k == key@
                || contents(before).contains_key(k)) by {
                if contents(before).contains_key(k) {
                    let x = position(before, k);
                    assert(key_at(before, x, k));
                    let y = if found || x < i { x } else { x + 1 };
                    assert(key_at(after, y, k));
                }
                if k == key@ {
                    assert(key_at(after, i as int, k));
                }
                if contents(after).contains_key(k) && k != key@ {
                    let y = position(after, k);
                    assert(key_at(after, y, k));
                    let x = if found || y < i { y } else { y - 1 };
                    assert(key_at(before, x, k));
                }
            }
            assert forall|k: Seq<char>| contents(after).contains_key(k) implies contents(after)[k]
                == contents(before).insert(key@, value@)[k] by {
                if k == key@ {
                    lemma_at(after, i as int);
                } else {
                    let x = position(before, k);
                    assert(key_at(before, x, k));
                    let y = if found || x < i { x } else { x + 1 };
                    assert(key_at(after, y, k));
                    assert(after[y] == before[x]);
                    lemma_at(after, y);
                    lemma_at(before, x);
                }
            }
            assert(contents(after) =~= contents(before).insert(key@, value@));
        }
        self.entries = entries;
    }

    /// Gives `key` the value `value`, unless it has one.
    pub fn insert_if_absent(&mut self, key: String, value: V)
        ensures
            final(self)@ == if old(self)@.contains_key(key@) {
                old(self)@
            } else {
                old(self)@.insert(key@, value@)
            },
    {
        if !self.contains_key(key.as_str()) {
            self.insert(key, value);
        }
    }

    /// Takes the entry of `key` out and hands its value back.
    pub fn remove(&mut self, key: &str) -> (r: Option<V>)
        ensures
            final(self)@ == old(self)@.remove(key@),
            r is Some <==> old(self)@.contains_key(key@),
            r matches Some(v) ==> v@ == old(self)@[key@],
    {
        let (found, i) = self.find(key);
        if !found {
            assert(self@.remove(key@) =~= self@);
            return None;
        }
        let mut entries: Vec<(String, V)> = Vec::new();
        proof {
            use_type_invariant(&*self);
        }
        std::mem::swap(&mut self.entries, &mut entries);
        let ghost before = entries@;
        let (_, value) = entries.remove(i);
        proof {
            let after = entries@;
            lemma_at(before, i as int);
            assert forall|a: int, b: int| 0 <= a < b < after.len() implies text_lt(
                #[trigger] after[a].0@,
                #[trigger] after[b].0@,
            ) by {
                let x = if a < i { a } else { a + 1 };
                let y = if b < i { b } else { b + 1 };
                assert(after[a] == before[x]);
                assert(after[b] == before[y]);
            }
            assert forall|k: Seq<char>| contents(after).contains_key(k) <==> (k != key@
                && contents(before).contains_key(k)) by {
                if contents(before).contains_key(k) && k != key@ {
                    let x = position(before, k);
                    assert(key_at(before, x, k));
                    let y = if x < i { x } else { x - 1 };
                    assert(key_at(after, y, k));
                }
                if contents(after).contains_key(k) {
                    let y = position(after, k);
                    assert(key_at(after, y, k));
                    let x = if y < i { y } else { y + 1 };
                    assert(key_at(before, x, k));
                    if k == key@ {
                        lemma_text_lt_total(k, k);
                    }
                }
            }
            assert forall|k: Seq<char>| contents(after).contains_key(k) implies contents(after)[k]
                == contents(before)[k] by {
                let y = position(after, k);
                assert(key_at(after, y, k));
                let x = if y < i { y } else { y + 1 };
                assert(key_at(before, x, k));
                lemma_at(after, y);
                lemma_at(before, x);
            }
            assert(contents(after) =~= contents(before).remove(key@));
        }
        self.entries = entries;
        Some(value)
    }
}

impl<V: Plain> Plain for TextMap<V> {
    fn duplicate(&self) -> (r: Self) {
        proof {
            use_type_invariant(self);
        }
        let mut entries: Vec<(String, V)> = Vec::new();
        let n = self.entries.len();
        let mut i: usize = 0;
        while i < n
            invariant
                i <= n == self.entries@.len(),
                entries@.len() == i,
                forall|j: int|
                    0 <= j < i ==> (#[trigger] entries@[j]).0@ == self.entries@[j].0@ && entries@[j].1@
                        == self.entries@[j].1@,
            decreases n - i,
        {
            let e = &self.entries[i];
            entries.push((e.0.clone(), e.1.duplicate()));
            i = i + 1;
        }
        proof {
            let a = self.entries@;
            let b = entries@;
            assert(in_order(b)) by {
                assert forall|x: int, y: int| 0 <= x < y < b.len() implies text_lt(
                    #[trigger] b[x].0@,
                    #[trigger] b[y].0@,
                ) by {
                    assert(text_lt(a[x].0@, a[y].0@));
                }
            }
            assert forall|k: Seq<char>| contents(a).contains_key(k) <==> contents(b).contains_key(k) by {
                if contents(a).contains_key(k) {
                    assert(key_at(a, position(a, k), k));
                    assert(key_at(b, position(a, k), k));
                }
                if contents(b).contains_key(k) {
                    assert(key_at(b, position(b, k), k));
                    assert(key_at(a, position(b, k), k));
                }
            }
            assert forall|k: Seq<char>| contents(a).contains_key(k) implies contents(a)[k] == contents(b)[k] by {
                let x = position(a, k);
                assert(key_at(a, x, k));
                assert(b[x].0@ == k);
                lemma_at(a, x);
                lemma_at(b, x);
            }
            assert(contents(a) =~= contents(b));
        }
        TextMap { entries }
    }

    fn same(&self, other: &Self) -> (r: bool) {
        let n = self.len();
        let m = other.len();
        let ghost keys = self.keys_in_order();
        let ghost others = other.keys_in_order();
        let mut i: usize = 0;
        while i < n
            invariant
                i <= n == keys.len(),
                keys == self.keys_in_order(),
                forall|j: int|
                    0 <= j < i ==> other@.contains_key(#[trigger] keys[j]) && self@[keys[j]] == other@[keys[j]],
            decreases n - i,
        {
            let (k, v) = self.entry(i);
            match other.get(k.as_str()) {
                Some(w) => {
                    if !v.same(w) {
                        return false;
                    }
                },
                None => {
                    return false;
                },
            }
            i = i + 1;
        }
        i = 0;
        while i < m
            invariant
                i <= m == others.len(),
                others == other.keys_in_order(),
                forall|j: int| 0 <= j < i ==> self@.contains_key(#[trigger] others[j]),
            decreases m - i,
        {
            if !self.contains_key(other.entry(i).0.as_str()) {
                return false;
            }
            i = i + 1;
        }
        proof {
            assert forall|k: Seq<char>| self@.contains_key(k) <==> other@.contains_key(k) by {
                if self@.contains_key(k) {
                    assert(keys.contains(k));
                }
                if other@.contains_key(k) {
                    assert(others.contains(k));
                }
            }
            assert forall|k: Seq<char>| self@.contains_key(k) implies self@[k] == other@[k] by {
                assert(keys.contains(k));
            }
            assert(self@ =~= other@);
        }
        true
    }
}

impl Plain for (String, String) {
    fn duplicate(&self) -> (r: Self) {
        (self.0.clone(), self.1.clone())
    }

    fn same(&self, other: &Self) -> (r: bool) {
        same_text(self.0.as_str(), other.0.as_str()) && same_text(self.1.as_str(), other.1.as_str())
    }
}

impl Plain for String {
    fn duplicate(&self) -> (r: Self) {
        self.clone()
    }

    fn same(&self, other: &Self) -> (r: bool) {
        same_text(self.as_str(), other.as_str())
    }
}

impl<V: Plain> Clone for TextMap<V> {
    fn clone(&self) -> (r: Self)
        ensures
            r@ == self@,
    {
        self.duplicate()
    }
}

} // verus!
