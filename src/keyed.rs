//! A map from string keys to values, kept as a list of entries with unique
//! keys: the shape of the replicated map containers that documents are made of.
use vstd::prelude::*;
use crate::text::same_text;

verus! {

/// No two entries share a key.
pub open spec fn keys_unique<V>(items: Seq<(String, V)>) -> bool {
    forall|i: int, j: int|
        0 <= i < items.len() && 0 <= j < items.len() && i != j ==> (#[trigger] items[i]).0@
            != (#[trigger] items[j]).0@
}

/// Some entry has key `k`.
pub open spec fn has_key<V>(items: Seq<(String, V)>, k: Seq<char>) -> bool {
    exists|i: int| 0 <= i < items.len() && (#[trigger] items[i]).0@ == k
}

/// The map that a list of entries with unique keys stands for.
pub open spec fn as_map<V>(items: Seq<(String, V)>) -> Map<Seq<char>, V> {
    Map::new(
        |k: Seq<char>| has_key(items, k),
        |k: Seq<char>| items[choose|i: int| 0 <= i < items.len() && (#[trigger] items[i]).0@ == k].1,
    )
}

pub proof fn lemma_item_in_map<V>(items: Seq<(String, V)>, i: int)
    requires
        keys_unique(items),
        0 <= i < items.len(),
    ensures
        as_map(items).contains_key(items[i].0@),
        as_map(items)[items[i].0@] == items[i].1,
{
    let k = items[i].0@;
    assert(has_key(items, k));
    let j = choose|j: int| 0 <= j < items.len() && (#[trigger] items[j]).0@ == k;
    assert(j == i);
}

/// Appending an entry with a fresh key inserts it into the map.
pub proof fn lemma_as_map_push<V>(items: Seq<(String, V)>, e: (String, V))
    requires
        keys_unique(items.push(e)),
    ensures
        keys_unique(items),
        !as_map(items).contains_key(e.0@),
        as_map(items.push(e)) == as_map(items).insert(e.0@, e.1),
{
    let all = items.push(e);
    let n = items.len() as int;
    assert(all[n] == e);
    assert(keys_unique(items)) by {
        assert forall|a: int, b: int|
            0 <= a < items.len() && 0 <= b < items.len() && a != b implies (
        #[trigger] items[a]).0@ != (#[trigger] items[b]).0@ by {
            assert(all[a] == items[a] && all[b] == items[b]);
        }
    }
    if has_key(items, e.0@) {
        let j = choose|j: int| 0 <= j < items.len() && (#[trigger] items[j]).0@ == e.0@;
        assert(all[j] == items[j]);
    }
    assert(as_map(all) =~= as_map(items).insert(e.0@, e.1)) by {
        assert forall|x: Seq<char>| #[trigger] as_map(all).contains_key(x) <==> as_map(items).insert(
            e.0@,
            e.1,
        ).contains_key(x) by {
            if has_key(items, x) {
                let j = choose|j: int| 0 <= j < items.len() && (#[trigger] items[j]).0@ == x;
                assert(all[j].0@ == x);
            }
            if x == e.0@ {
                assert(all[n].0@ == x);
            }
            if has_key(all, x) {
                let j = choose|j: int| 0 <= j < all.len() && (#[trigger] all[j]).0@ == x;
                if j < n {
                    assert(items[j].0@ == x);
                }
            }
        }
        assert forall|x: Seq<char>| #[trigger] as_map(all).contains_key(x) implies as_map(all)[x]
            == as_map(items).insert(e.0@, e.1)[x] by {
            let j = choose|j: int| 0 <= j < all.len() && (#[trigger] all[j]).0@ == x;
            lemma_item_in_map(all, j);
            if j < n {
                assert(all[j] == items[j]);
                lemma_item_in_map(items, j);
            }
        }
    }
}

/// String-keyed map with insertion order kept.
#[derive(Clone, Debug, PartialEq, Eq)]
pub struct KeyedMap<V> {
    entries: Vec<(String, V)>,
}

impl<V> View for KeyedMap<V> {
    type V = Map<Seq<char>, V>;

    open spec fn view(&self) -> Map<Seq<char>, V> {
        as_map(self.items())
    }
}

impl<V> KeyedMap<V> {
    /// The entries, in insertion order.
    pub closed spec fn items(&self) -> Seq<(String, V)> {
        self.entries@
    }

    pub open spec fn wf(&self) -> bool {
        keys_unique(self.items())
    }

    pub fn new() -> (r: Self)
        ensures
            r.wf(),
            r@ == Map::<Seq<char>, V>::empty(),
            r.items().len() == 0,
    {
        let r = KeyedMap { entries: Vec::new() };
        proof {
            assert(r@ =~= Map::<Seq<char>, V>::empty());
        }
        r
    }

    pub fn len(&self) -> (r: usize)
        requires
            self.wf(),
        ensures
            r == self.items().len(),
            r == self@.len(),
    {
        proof {
            self.lemma_len();
        }
        self.entries.len()
    }

    /// The entries, in insertion order.
    pub fn entries(&self) -> (r: &Vec<(String, V)>)
        ensures
            r@ == self.items(),
    {
        &self.entries
    }

    /// The domain of the map has one key per entry.
    pub proof fn lemma_len(&self)
        requires
            self.wf(),
        ensures
            self@.len() == self.items().len(),
            self@.dom() == self.items().map_values(|e: (String, V)| e.0@).to_set(),
        decreases self.items().len(),
    {
        let items = self.items();
        let ks = items.map_values(|e: (String, V)| e.0@);
        assert(self@.dom() =~= ks.to_set()) by {
            assert forall|k: Seq<char>| self@.dom().contains(k) implies ks.to_set().contains(k) by {
                let i = choose|i: int| 0 <= i < items.len() && (#[trigger] items[i]).0@ == k;
                assert(ks[i] == k);
            }
            assert forall|k: Seq<char>| ks.to_set().contains(k) implies self@.dom().contains(k) by {
                let i = choose|i: int| 0 <= i < ks.len() && ks[i] == k;
                assert(items[i].0@ == k);
            }
        }
        assert(ks.no_duplicates()) by {
            assert forall|i: int, j: int| 0 <= i < ks.len() && 0 <= j < ks.len() && i != j implies ks[i]
                != ks[j] by {
                assert(items[i].0@ != items[j].0@);
            }
        }
        ks.unique_seq_to_set();
    }

    /// Every entry is in the map, with its value.
    pub proof fn lemma_items_in_map(&self)
        requires
            self.wf(),
        ensures
            forall|i: int|
                0 <= i < self.items().len() ==> self@.contains_key(
                    (#[trigger] self.items()[i]).0@,
                ) && self@[self.items()[i].0@] == self.items()[i].1,
    {
        assert forall|i: int| 0 <= i < self.items().len() implies self@.contains_key(
            (#[trigger] self.items()[i]).0@,
        ) && self@[self.items()[i].0@] == self.items()[i].1 by {
            lemma_item_in_map(self.items(), i);
        }
    }

    /// Whether no two entries share a key.
    pub fn is_well_formed(&self) -> (r: bool)
        ensures
            r == self.wf(),
    {
        let n = self.entries.len();
        let mut i: usize = 0;
        while i < n
            invariant
                n == self.entries@.len(),
                0 <= i <= n,
                forall|a: int, b: int|
                    0 <= a < i && 0 <= b < n && a != b ==> (#[trigger] self.entries@[a]).0@
                        != (#[trigger] self.entries@[b]).0@,
            decreases n - i,
        {
            let mut j: usize = 0;
            while j < n
                invariant
                    n == self.entries@.len(),
                    0 <= i < n,
                    0 <= j <= n,
                    forall|a: int, b: int|
                        0 <= a < i && 0 <= b < n && a != b ==> (#[trigger] self.entries@[a]).0@
                            != (#[trigger] self.entries@[b]).0@,
                    forall|b: int|
                        0 <= b < j && b != i ==> self.entries@[i as int].0@ != (
                        #[trigger] self.entries@[b]).0@,
                decreases n - j,
            {
                if j != i && same_text(self.entries[i].0.as_str(), self.entries[j].0.as_str()) {
                    return false;
                }
                j = j + 1;
            }
            i = i + 1;
        }
        true
    }

    /// Position of the entry with key `key`.
    pub fn index_of(&self, key: &str) -> (r: Option<usize>)
        requires
            self.wf(),
        ensures
            r is None <==> !self@.contains_key(key@),
            r matches Some(i) ==> i < self.items().len() && self.items()[i as int].0@ == key@,
    {
        let mut i: usize = 0;
        while i < self.entries.len()
            invariant
                0 <= i <= self.entries@.len(),
                forall|j: int| 0 <= j < i ==> (#[trigger] self.entries@[j]).0@ != key@,
            decreases self.entries@.len() - i,
        {
            if same_text(self.entries[i].0.as_str(), key) {
                return Some(i);
            }
            i = i + 1;
        }
        None
    }

    pub fn contains_key(&self, key: &str) -> (r: bool)
        requires
            self.wf(),
        ensures
            r == self@.contains_key(key@),
    {
        self.index_of(key).is_some()
    }

    pub fn get(&self, key: &str) -> (r: Option<&V>)
        requires
            self.wf(),
        ensures
            r is None <==> !self@.contains_key(key@),
            r matches Some(v) ==> *v == self@[key@],
    {
        match self.index_of(key) {
            Some(i) => {
                proof {
                    lemma_item_in_map(self.items(), i as int);
                }
                Some(&self.entries[i].1)
            },
            None => None,
        }
    }

    /// Stores `value` under `key`, replacing what was there; a new key goes last.
    pub fn insert(&mut self, key: String, value: V)
        requires
            old(self).wf(),
        ensures
            final(self).wf(),
            final(self)@ == old(self)@.insert(key@, value),
    {
        let ghost old_items = self.items();
        match self.index_of(key.as_str()) {
            Some(i) => {
                let ghost k = key@;
                self.entries.set(i, (key, value));
                proof {
                    let items = self.items();
                    assert(items =~= old_items.update(i as int, (items[i as int].0, value)));
                    assert(keys_unique(items)) by {
                        assert forall|a: int, b: int|
                            0 <= a < items.len() && 0 <= b < items.len() && a != b implies (
                        #[trigger] items[a]).0@ != (#[trigger] items[b]).0@ by {
                            assert(old_items[a].0@ != old_items[b].0@);
                        }
                    }
                    self.lemma_map_after_update(old_items, i as int, k, value);
                }
            },
            None => {
                let ghost k = key@;
                self.entries.push((key, value));
                proof {
                    let items = self.items();
                    assert(items =~= old_items.push(items[old_items.len() as int]));
                    assert(keys_unique(items)) by {
                        assert forall|a: int, b: int|
                            0 <= a < items.len() && 0 <= b < items.len() && a != b implies (
                        #[trigger] items[a]).0@ != (#[trigger] items[b]).0@ by {
                            if a < old_items.len() && b < old_items.len() {
                                assert(old_items[a].0@ != old_items[b].0@);
                            } else if a < old_items.len() {
                                assert(has_key(old_items, old_items[a].0@));
                            } else {
                                assert(has_key(old_items, old_items[b].0@));
                            }
                        }
                    }
                    assert(self@ =~= as_map(old_items).insert(k, value)) by {
                        assert forall|x: Seq<char>| #[trigger] self@.contains_key(x) <==> as_map(
                            old_items,
                        ).insert(k, value).contains_key(x) by {
                            if has_key(old_items, x) {
                                let j = choose|j: int|
                                    0 <= j < old_items.len() && (#[trigger] old_items[j]).0@ == x;
                                assert(items[j].0@ == x);
                            }
                            if x == k {
                                assert(items[old_items.len() as int].0@ == x);
                            }
                            if has_key(items, x) {
                                let j = choose|j: int|
                                    0 <= j < items.len() && (#[trigger] items[j]).0@ == x;
                                if j < old_items.len() {
                                    assert(old_items[j].0@ == x);
                                }
                            }
                        }
                        assert forall|x: Seq<char>| #[trigger] self@.contains_key(x) implies self@[x]
                            == as_map(old_items).insert(k, value)[x] by {
                            let j = choose|j: int|
                                0 <= j < items.len() && (#[trigger] items[j]).0@ == x;
                            lemma_item_in_map(items, j);
                            if j < old_items.len() {
                                lemma_item_in_map(old_items, j);
                            }
                        }
                    }
                }
            },
        }
    }

    proof fn lemma_map_after_update(&self, old_items: Seq<(String, V)>, i: int, k: Seq<char>, value: V)
        requires
            keys_unique(old_items),
            keys_unique(self.items()),
            0 <= i < old_items.len(),
            old_items[i].0@ == k,
            self.items() == old_items.update(i, (self.items()[i].0, value)),
            self.items()[i].0@ == k,
        ensures
            self@ == as_map(old_items).insert(k, value),
    {
        let items = self.items();
        assert(self@ =~= as_map(old_items).insert(k, value)) by {
            assert forall|x: Seq<char>| #[trigger] self@.contains_key(x) <==> as_map(old_items).insert(
                k,
                value,
            ).contains_key(x) by {
                if has_key(old_items, x) {
                    let j = choose|j: int| 0 <= j < old_items.len() && (#[trigger] old_items[j]).0@ == x;
                    assert(items[j].0@ == x);
                }
                if has_key(items, x) {
                    let j = choose|j: int| 0 <= j < items.len() && (#[trigger] items[j]).0@ == x;
                    assert(old_items[j].0@ == x);
                }
                if x == k {
                    assert(items[i].0@ == x);
                }
            }
            assert forall|x: Seq<char>| #[trigger] self@.contains_key(x) implies self@[x] == as_map(
                old_items,
            ).insert(k, value)[x] by {
                let j = choose|j: int| 0 <= j < items.len() && (#[trigger] items[j]).0@ == x;
                lemma_item_in_map(items, j);
                if j != i {
                    lemma_item_in_map(old_items, j);
                }
            }
        }
    }

    /// Removes the entry with key `key`, returning its value.
    pub fn remove(&mut self, key: &str) -> (r: Option<V>)
        requires
            old(self).wf(),
        ensures
            final(self).wf(),
            final(self)@ == old(self)@.remove(key@),
            r is None <==> !old(self)@.contains_key(key@),
            r matches Some(v) ==> v == old(self)@[key@],
    {
        let ghost old_items = self.items();
        match self.index_of(key) {
            Some(i) => {
                proof {
                    lemma_item_in_map(old_items, i as int);
                }
                let (_, v) = self.entries.remove(i);
                proof {
                    let i = i as int;
                    let items = self.items();
                    assert(items =~= old_items.remove(i));
                    assert(keys_unique(items)) by {
                        assert forall|a: int, b: int|
                            0 <= a < items.len() && 0 <= b < items.len() && a != b implies (
                        #[trigger] items[a]).0@ != (#[trigger] items[b]).0@ by {
                            let oa = if a < i { a } else { a + 1 };
                            let ob = if b < i { b } else { b + 1 };
                            assert(items[a] == old_items[oa] && items[b] == old_items[ob]);
                            assert(old_items[oa].0@ != old_items[ob].0@);
                        }
                    }
                    assert(self@ =~= as_map(old_items).remove(key@)) by {
                        assert forall|x: Seq<char>| #[trigger] self@.contains_key(x) <==> as_map(
                            old_items,
                        ).remove(key@).contains_key(x) by {
                            if has_key(items, x) {
                                let j = choose|j: int|
                                    0 <= j < items.len() && (#[trigger] items[j]).0@ == x;
                                let oj = if j < i { j } else { j + 1 };
                                assert(old_items[oj].0@ == x);
                                assert(old_items[i].0@ != old_items[oj].0@);
                            }
                            if has_key(old_items, x) && x != key@ {
                                let j = choose|j: int|
                                    0 <= j < old_items.len() && (#[trigger] old_items[j]).0@ == x;
                                assert(j != i);
                                let nj = if j < i { j } else { j - 1 };
                                assert(items[nj].0@ == x);
                            }
                        }
                        assert forall|x: Seq<char>| #[trigger] self@.contains_key(x) implies self@[x]
                            == as_map(old_items).remove(key@)[x] by {
                            let j = choose|j: int|
                                0 <= j < items.len() && (#[trigger] items[j]).0@ == x;
                            lemma_item_in_map(items, j);
                            let oj = if j < i { j } else { j + 1 };
                            lemma_item_in_map(old_items, oj);
                        }
                    }
                }
                Some(v)
            },
            None => {
                proof {
                    assert(self@ =~= old(self)@.remove(key@));
                }
                None
            },
        }
    }

    pub fn clear(&mut self)
        ensures
            final(self).wf(),
            final(self)@ == Map::<Seq<char>, V>::empty(),
            final(self).items().len() == 0,
    {
        self.entries.clear();
        proof {
            assert(final(self)@ =~= Map::<Seq<char>, V>::empty());
        }
    }
}

} // verus!
