//! Field type options: for each field type, a bag of dynamically typed
//! properties, read from and written into a replicated map container.
use vstd::prelude::*;
use crate::keyed::{KeyedMap, as_map, keys_unique, lemma_as_map_push};
use crate::txn::TransactionMut;

verus! {

/// A dynamically typed scalar.
#[derive(Clone, Debug, PartialEq, Eq)]
pub enum AnyValue {
    Null,
    Bool(bool),
    Number(i64),
    Text(String),
}

impl AnyValue {
    /// An equal, independent value.
    pub fn copy(&self) -> (r: Self)
        ensures
            r == *self,
    {
        match self {
            AnyValue::Null => AnyValue::Null,
            AnyValue::Bool(b) => AnyValue::Bool(*b),
            AnyValue::Number(n) => AnyValue::Number(*n),
            AnyValue::Text(s) => AnyValue::Text(s.clone()),
        }
    }
}

/// A property bag: string keys to dynamically typed values.
pub type TypeOptionData = KeyedMap<AnyValue>;

/// A property bag under construction.
pub type TypeOptionDataBuilder = KeyedMap<AnyValue>;

/// An equal, independent property bag.
pub fn copy_type_option_data(d: &TypeOptionData) -> (r: TypeOptionData)
    requires
        d.wf(),
    ensures
        r.wf(),
        r@ == d@,
{
    let entries = d.entries();
    let mut r: TypeOptionData = KeyedMap::new();
    let mut i: usize = 0;
    while i < entries.len()
        invariant
            entries@ == d.items(),
            keys_unique(d.items()),
            0 <= i <= entries@.len(),
            r.wf(),
            r@ == as_map(d.items().take(i as int)),
        decreases entries@.len() - i,
    {
        let ghost items = d.items();
        proof {
            assert(items.take(i + 1) =~= items.take(i as int).push(items[i as int]));
            assert(keys_unique(items.take(i + 1)));
            lemma_as_map_push(items.take(i as int), items[i as int]);
        }
        let (k, v) = &entries[i];
        r.insert(k.clone(), v.copy());
        i = i + 1;
    }
    proof {
        assert(d.items().take(i as int) =~= d.items());
    }
    r
}

/// Upserts every entry of `src` into `target`; other keys of `target` stay.
pub fn merge_type_option_data(target: &mut TypeOptionData, src: &TypeOptionData)
    requires
        old(target).wf(),
        src.wf(),
    ensures
        final(target).wf(),
        final(target)@ == old(target)@.union_prefer_right(src@),
{
    let entries = src.entries();
    let ghost start = target@;
    let mut i: usize = 0;
    proof {
        assert(start =~= start.union_prefer_right(as_map(src.items().take(0))));
    }
    while i < entries.len()
        invariant
            entries@ == src.items(),
            keys_unique(src.items()),
            0 <= i <= entries@.len(),
            target.wf(),
            target@ == start.union_prefer_right(as_map(src.items().take(i as int))),
        decreases entries@.len() - i,
    {
        let ghost items = src.items();
        proof {
            assert(items.take(i + 1) =~= items.take(i as int).push(items[i as int]));
            lemma_as_map_push(items.take(i as int), items[i as int]);
            assert(start.union_prefer_right(as_map(items.take(i + 1))) =~= start.union_prefer_right(
                as_map(items.take(i as int)),
            ).insert(items[i as int].0@, items[i as int].1));
        }
        let (k, v) = &entries[i];
        target.insert(k.clone(), v.copy());
        i = i + 1;
    }
    proof {
        assert(src.items().take(i as int) =~= src.items());
    }
}

/// A value held by a replicated map container: a scalar or a nested bag.
pub enum MapValue {
    Scalar(AnyValue),
    Bag(TypeOptionData),
}

/// A replicated map container.
pub type MapRef = KeyedMap<MapValue>;

/// Every nested bag of the container is well formed.
pub open spec fn map_ref_wf(m: &MapRef) -> bool {
    &&& m.wf()
    &&& forall|k: Seq<char>| #[trigger]
        m@.contains_key(k) ==> (m@[k] matches MapValue::Bag(b) ==> b.wf())
}

/// The nested bags of a container, by key; scalar entries are left out.
pub open spec fn bag_entries(m: Map<Seq<char>, MapValue>) -> Map<Seq<char>, Map<Seq<char>, AnyValue>> {
    Map::new(
        |k: Seq<char>| m.contains_key(k) && m[k] is Bag,
        |k: Seq<char>|
            match m[k] {
                MapValue::Bag(b) => b@,
                MapValue::Scalar(_) => Map::empty(),
            },
    )
}

/// What an upsert at `k` starts from: the bag there, or an empty one.
pub open spec fn base_bag(m: Map<Seq<char>, MapValue>, k: Seq<char>) -> Map<Seq<char>, AnyValue> {
    if m.contains_key(k) && m[k] is Bag {
        bag_entries(m)[k]
    } else {
        Map::empty()
    }
}

/// `m` is `old` with the bag at `k` created if needed and `value` merged into it.
pub open spec fn upserted(
    old: Map<Seq<char>, MapValue>,
    m: Map<Seq<char>, MapValue>,
    k: Seq<char>,
    value: Map<Seq<char>, AnyValue>,
) -> bool {
    &&& m.dom() == old.dom().insert(k)
    &&& forall|x: Seq<char>| #[trigger] m.contains_key(x) && x != k ==> m[x] == old[x]
    &&& m[k] is Bag
    &&& bag_entries(m)[k] == base_bag(old, k).union_prefer_right(value)
}

/// Upserting the same bag at the same key twice leaves what one upsert left:
/// the same keys, the same entries elsewhere, the same bag at `k`.
pub proof fn lemma_upsert_idempotent(
    m0: Map<Seq<char>, MapValue>,
    m1: Map<Seq<char>, MapValue>,
    m2: Map<Seq<char>, MapValue>,
    k: Seq<char>,
    value: Map<Seq<char>, AnyValue>,
)
    requires
        upserted(m0, m1, k, value),
        upserted(m1, m2, k, value),
    ensures
        m2.dom() == m1.dom(),
        forall|x: Seq<char>| #[trigger] m2.contains_key(x) && x != k ==> m2[x] == m1[x],
        bag_entries(m2)[k] == bag_entries(m1)[k],
{
    assert(m2.dom() =~= m1.dom());
    let b = base_bag(m0, k).union_prefer_right(value);
    assert(base_bag(m1, k) == b);
    assert(b.union_prefer_right(value) =~= b);
}

/// Creates the bag at `key` if absent (replacing a scalar there) and merges
/// `value` into it.
pub fn upsert_type_option(
    txn: &mut TransactionMut,
    map_ref: &mut MapRef,
    key: &str,
    value: &TypeOptionData,
)
    requires
        map_ref_wf(old(map_ref)),
        value.wf(),
    ensures
        map_ref_wf(final(map_ref)),
        upserted(old(map_ref)@, final(map_ref)@, key@, value@),
        final(txn).changes() == old(txn).changes().push(key@),
{
    let ghost before = map_ref@;
    let mut bag: TypeOptionData = match map_ref.remove(key) {
        Some(MapValue::Bag(b)) => b,
        _ => KeyedMap::new(),
    };
    proof {
        assert(bag@ == base_bag(before, key@));
    }
    merge_type_option_data(&mut bag, value);
    let ghost merged = bag@;
    map_ref.insert(key.to_owned(), MapValue::Bag(bag));
    txn.record(key);
    proof {
        assert(map_ref@.dom() =~= before.dom().insert(key@));
        assert(map_ref@[key@] is Bag);
    }
}

/// Deletes the entry at `key`; absent keys are left as they are.
pub fn remove_type_option(txn: &mut TransactionMut, map_ref: &mut MapRef, key: &str)
    requires
        map_ref_wf(old(map_ref)),
    ensures
        map_ref_wf(final(map_ref)),
        final(map_ref)@ == old(map_ref)@.remove(key@),
        final(txn).changes() == old(txn).changes().push(key@),
{
    map_ref.remove(key);
    txn.record(key);
}

/// Every bag of `m` is well formed.
pub open spec fn bags_wf(m: KeyedMap<TypeOptionData>) -> bool {
    &&& m.wf()
    &&& forall|k: Seq<char>| #[trigger] m@.contains_key(k) ==> m@[k].wf()
}

/// The bags of `m` as maps.
pub open spec fn bags_model(m: Map<Seq<char>, TypeOptionData>) -> Map<Seq<char>, Map<Seq<char>, AnyValue>> {
    m.map_values(|b: TypeOptionData| b@)
}

/// `m` is `old` with every bag of `opts` upserted at its key.
pub open spec fn filled(
    old: Map<Seq<char>, MapValue>,
    m: Map<Seq<char>, MapValue>,
    opts: Map<Seq<char>, Map<Seq<char>, AnyValue>>,
) -> bool {
    &&& m.dom() == old.dom().union(opts.dom())
    &&& forall|x: Seq<char>| #[trigger] m.contains_key(x) && !opts.contains_key(x) ==> m[x] == old[x]
    &&& forall|x: Seq<char>|
        #[trigger] opts.contains_key(x) ==> m[x] is Bag && bag_entries(m)[x] == base_bag(
            old,
            x,
        ).union_prefer_right(opts[x])
}

/// Type options of one field, one property bag per field type.
pub struct TypeOptions(KeyedMap<TypeOptionData>);

impl View for TypeOptions {
    type V = Map<Seq<char>, Map<Seq<char>, AnyValue>>;

    closed spec fn view(&self) -> Map<Seq<char>, Map<Seq<char>, AnyValue>> {
        bags_model(self.0@)
    }
}

impl TypeOptions {
    pub closed spec fn wf(&self) -> bool {
        bags_wf(self.0)
    }

    pub fn new() -> (r: Self)
        ensures
            r.wf(),
            r@ == Map::<Seq<char>, Map<Seq<char>, AnyValue>>::empty(),
    {
        let r = TypeOptions(KeyedMap::new());
        proof {
            assert(r@ =~= Map::<Seq<char>, Map<Seq<char>, AnyValue>>::empty());
        }
        r
    }

    /// The bags, keyed by field type.
    pub fn into_inner(self) -> (r: KeyedMap<TypeOptionData>)
        requires
            self.wf(),
        ensures
            bags_wf(r),
            bags_model(r@) == self@,
    {
        self.0
    }

    pub fn len(&self) -> (r: usize)
        requires
            self.wf(),
        ensures
            r == self@.len(),
    {
        proof {
            assert(self@.dom() =~= self.0@.dom());
        }
        self.0.len()
    }

    /// The bag of field type `key`.
    pub fn get(&self, key: &str) -> (r: Option<&TypeOptionData>)
        requires
            self.wf(),
        ensures
            r is None <==> !self@.contains_key(key@),
            r matches Some(b) ==> b.wf() && b@ == self@[key@],
    {
        self.0.get(key)
    }

    /// Sets the bag of field type `key`, replacing what was there.
    pub fn insert(&mut self, key: String, data: TypeOptionData)
        requires
            old(self).wf(),
            data.wf(),
        ensures
            final(self).wf(),
            final(self)@ == old(self)@.insert(key@, data@),
    {
        self.0.insert(key, data);
        proof {
            assert(self@ =~= old(self)@.insert(key@, data@));
        }
    }

    /// The bags held by a container; its scalar entries are skipped.
    pub fn from_map_ref(txn: &TransactionMut, map_ref: &MapRef) -> (r: Self)
        requires
            map_ref_wf(map_ref),
        ensures
            r.wf(),
            r@ == bag_entries(map_ref@),
    {
        let entries = map_ref.entries();
        let ghost items = map_ref.items();
        let mut this = TypeOptions::new();
        let mut i: usize = 0;
        proof {
            map_ref.lemma_items_in_map();
            assert(bag_entries(as_map(items.take(0))) =~= Map::<
                Seq<char>,
                Map<Seq<char>, AnyValue>,
            >::empty());
        }
        while i < entries.len()
            invariant
                entries@ == items,
                items == map_ref.items(),
                map_ref_wf(map_ref),
                forall|j: int|
                    0 <= j < items.len() ==> map_ref@.contains_key((#[trigger] items[j]).0@)
                        && map_ref@[items[j].0@] == items[j].1,
                0 <= i <= items.len(),
                this.wf(),
                this@ == bag_entries(as_map(items.take(i as int))),
            decreases items.len() - i,
        {
            proof {
                assert(items.take(i + 1) =~= items.take(i as int).push(items[i as int]));
                lemma_as_map_push(items.take(i as int), items[i as int]);
            }
            let (k, v) = &entries[i];
            match v {
                MapValue::Bag(b) => {
                    let ghost before = this@;
                    let c = copy_type_option_data(b);
                    this.insert(k.clone(), c);
                    proof {
                        assert(bag_entries(as_map(items.take(i + 1))) =~= before.insert(k@, b@));
                    }
                },
                MapValue::Scalar(_) => {
                    proof {
                        assert(bag_entries(as_map(items.take(i + 1))) =~= this@);
                    }
                },
            }
            i = i + 1;
        }
        proof {
            assert(items.take(i as int) =~= items);
        }
        this
    }

    /// Upserts every bag into the container, merging into the bag already at
    /// its key.
    pub fn fill_map_ref(self, txn: &mut TransactionMut, map_ref: &mut MapRef)
        requires
            self.wf(),
            map_ref_wf(old(map_ref)),
        ensures
            map_ref_wf(final(map_ref)),
            filled(old(map_ref)@, final(map_ref)@, self@),
            final(txn).changes().len() == old(txn).changes().len() + self@.len(),
    {
        let ghost start = map_ref@;
        let ghost txn0 = txn.changes();
        let inner = self.into_inner();
        let entries = inner.entries();
        let ghost items = inner.items();
        let mut i: usize = 0;
        proof {
            inner.lemma_items_in_map();
            inner.lemma_len();
            assert(bags_model(inner@).dom() =~= inner@.dom());
            assert(map_ref@.dom() =~= start.dom().union(bags_model(as_map(items.take(0))).dom()));
        }
        while i < entries.len()
            invariant
                entries@ == items,
                items == inner.items(),
                bags_wf(inner),
                forall|j: int|
                    0 <= j < items.len() ==> inner@.contains_key((#[trigger] items[j]).0@)
                        && inner@[items[j].0@] == items[j].1,
                0 <= i <= items.len(),
                map_ref_wf(map_ref),
                filled(start, map_ref@, bags_model(as_map(items.take(i as int)))),
                txn.changes().len() == txn0.len() + i,
            decreases items.len() - i,
        {
            proof {
                assert(items.take(i + 1) =~= items.take(i as int).push(items[i as int]));
                lemma_as_map_push(items.take(i as int), items[i as int]);
            }
            let ghost before = map_ref@;
            let ghost done = bags_model(as_map(items.take(i as int)));
            let (k, v) = &entries[i];
            upsert_type_option(txn, map_ref, k.as_str(), v);
            proof {
                let now = bags_model(as_map(items.take(i + 1)));
                assert(now =~= done.insert(k@, v@));
                assert(!done.contains_key(k@));
                assert(before.contains_key(k@) == start.contains_key(k@));
                if before.contains_key(k@) {
                    assert(before[k@] == start[k@]);
                }
                assert(base_bag(before, k@) == base_bag(start, k@));
                assert(map_ref@.dom() =~= start.dom().union(now.dom()));
                assert forall|x: Seq<char>| #[trigger]
                    now.contains_key(x) implies map_ref@[x] is Bag && bag_entries(map_ref@)[x]
                    == base_bag(start, x).union_prefer_right(now[x]) by {
                    if x != k@ {
                        assert(done.contains_key(x));
                        assert(map_ref@.contains_key(x));
                        assert(map_ref@[x] == before[x]);
                    }
                }
            }
            i = i + 1;
        }
        proof {
            assert(items.take(i as int) =~= items);
        }
    }
}

/// Builder over a type-option container, writing inside a transaction.
pub struct TypeOptionsUpdate {
    pub map_ref: MapRef,
    pub txn: TransactionMut,
}

impl TypeOptionsUpdate {
    pub fn new(txn: TransactionMut, map_ref: MapRef) -> (r: Self)
        ensures
            r.txn == txn,
            r.map_ref == map_ref,
    {
        TypeOptionsUpdate { map_ref, txn }
    }

    /// Creates the bag at `key` if absent and merges `value` into it.
    pub fn insert(self, key: &str, value: TypeOptionData) -> (r: Self)
        requires
            map_ref_wf(&self.map_ref),
            value.wf(),
        ensures
            map_ref_wf(&r.map_ref),
            upserted(self.map_ref@, r.map_ref@, key@, value@),
            r.txn.changes() == self.txn.changes().push(key@),
    {
        let mut this = self;
        upsert_type_option(&mut this.txn, &mut this.map_ref, key, &value);
        this
    }

    /// Overrides the entries of the bag at `key` with those of `value`,
    /// creating the bag if absent.
    pub fn update(self, key: &str, value: TypeOptionData) -> (r: Self)
        requires
            map_ref_wf(&self.map_ref),
            value.wf(),
        ensures
            map_ref_wf(&r.map_ref),
            upserted(self.map_ref@, r.map_ref@, key@, value@),
            r.txn.changes() == self.txn.changes().push(key@),
    {
        let mut this = self;
        upsert_type_option(&mut this.txn, &mut this.map_ref, key, &value);
        this
    }

    /// Removes the bag at `key`.
    pub fn remove(self, key: &str) -> (r: Self)
        requires
            map_ref_wf(&self.map_ref),
        ensures
            map_ref_wf(&r.map_ref),
            r.map_ref@ == self.map_ref@.remove(key@),
            r.txn.changes() == self.txn.changes().push(key@),
    {
        let mut this = self;
        remove_type_option(&mut this.txn, &mut this.map_ref, key);
        this
    }
}

} // verus!
