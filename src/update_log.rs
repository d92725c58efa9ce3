//! Ordered byte-keyed update log: the key encoding that keeps each object's
//! updates in one contiguous range, and the range queries over it.
use vstd::prelude::*;
use vstd::slice::slice_to_vec;

verus! {

/// One stored entry: a key and its value, both as bytes.
pub type Entry = (Vec<u8>, Vec<u8>);

/// The mathematical form of an entry.
pub type EntryModel = (Seq<u8>, Seq<u8>);

/// Strict lexicographic order on byte strings.
pub open spec fn lex_lt(a: Seq<u8>, b: Seq<u8>) -> bool
    decreases a.len(),
{
    if a.len() == 0 {
        b.len() > 0
    } else if b.len() == 0 {
        false
    } else if a[0] != b[0] {
        a[0] < b[0]
    } else {
        lex_lt(a.drop_first(), b.drop_first())
    }
}

/// `p` is a prefix of `k`.
pub open spec fn starts_with(k: Seq<u8>, p: Seq<u8>) -> bool {
    p.len() <= k.len() && k.subrange(0, p.len() as int) == p
}

/// `k` lies in the half-open interval `[lo, hi)`; a missing bound is open.
pub open spec fn in_bounds(k: Seq<u8>, lo: Option<Seq<u8>>, hi: Option<Seq<u8>>) -> bool {
    &&& (lo matches Some(l) ==> !lex_lt(k, l))
    &&& (hi matches Some(h) ==> lex_lt(k, h))
}

/// Keys strictly increase along `s`.
pub open spec fn ascending(s: Seq<EntryModel>) -> bool {
    forall|i: int, j: int| 0 <= i < j < s.len() ==> lex_lt(#[trigger] s[i].0, #[trigger] s[j].0)
}

/// `r` lists, in ascending key order, exactly the entries of `store` whose key `keep` accepts.
pub open spec fn selection(
    store: Seq<EntryModel>,
    r: Seq<EntryModel>,
    keep: spec_fn(Seq<u8>) -> bool,
) -> bool {
    &&& ascending(r)
    &&& forall|e: EntryModel| r.contains(e) <==> (store.contains(e) && keep(e.0))
}

pub open spec fn entries_model(v: Seq<Entry>) -> Seq<EntryModel> {
    v.map_values(|e: Entry| (e.0@, e.1@))
}

/// Big-endian bytes of a 64-bit integer.
pub open spec fn be_bytes(x: u64) -> Seq<u8> {
    seq![
        (x >> 56u64) as u8,
        (x >> 48u64) as u8,
        (x >> 40u64) as u8,
        (x >> 32u64) as u8,
        (x >> 24u64) as u8,
        (x >> 16u64) as u8,
        (x >> 8u64) as u8,
        x as u8,
    ]
}

/// The fixed-width prefix shared by every key of one object.
pub open spec fn object_prefix(object_id: u64) -> Seq<u8> {
    be_bytes(object_id)
}

/// The key of the update of `object_id` at logical clock `clock`.
pub open spec fn update_key(object_id: u64, clock: u64) -> Seq<u8> {
    be_bytes(object_id) + be_bytes(clock)
}

pub proof fn lemma_lex_irreflexive(a: Seq<u8>)
    ensures
        !lex_lt(a, a),
    decreases a.len(),
{
    if a.len() > 0 {
        lemma_lex_irreflexive(a.drop_first());
    }
}

pub proof fn lemma_lex_asymmetric(a: Seq<u8>, b: Seq<u8>)
    requires
        lex_lt(a, b),
    ensures
        !lex_lt(b, a),
    decreases a.len(),
{
    if a.len() > 0 && b.len() > 0 && a[0] == b[0] {
        lemma_lex_asymmetric(a.drop_first(), b.drop_first());
    }
}

pub proof fn lemma_lex_transitive(a: Seq<u8>, b: Seq<u8>, c: Seq<u8>)
    requires
        lex_lt(a, b),
        lex_lt(b, c),
    ensures
        lex_lt(a, c),
    decreases a.len(),
{
    if a.len() > 0 && b.len() > 0 && c.len() > 0 && a[0] == b[0] && b[0] == c[0] {
        lemma_lex_transitive(a.drop_first(), b.drop_first(), c.drop_first());
    }
}

pub proof fn lemma_lex_total(a: Seq<u8>, b: Seq<u8>)
    requires
        a != b,
    ensures
        lex_lt(a, b) || lex_lt(b, a),
    decreases a.len(),
{
    if a.len() == 0 && b.len() == 0 {
        assert(a =~= b);
    } else if a.len() > 0 && b.len() > 0 && a[0] == b[0] {
        if a.drop_first() == b.drop_first() {
            assert(a =~= b.drop_first().insert(0, b[0]));
            assert(b =~= b.drop_first().insert(0, b[0]));
        }
        lemma_lex_total(a.drop_first(), b.drop_first());
    }
}

/// Below a shared prefix, the order is decided by what follows it.
pub proof fn lemma_lex_common_prefix(a: Seq<u8>, b: Seq<u8>, i: int)
    requires
        0 <= i <= a.len(),
        i <= b.len(),
        a.subrange(0, i) == b.subrange(0, i),
    ensures
        lex_lt(a, b) == lex_lt(a.subrange(i, a.len() as int), b.subrange(i, b.len() as int)),
    decreases i,
{
    if i == 0 {
        assert(a.subrange(0, a.len() as int) =~= a);
        assert(b.subrange(0, b.len() as int) =~= b);
    } else {
        assert(a[0] == a.subrange(0, i)[0]);
        assert(b[0] == b.subrange(0, i)[0]);
        assert(a.drop_first().subrange(0, i - 1) =~= a.subrange(0, i).drop_first());
        assert(b.drop_first().subrange(0, i - 1) =~= b.subrange(0, i).drop_first());
        lemma_lex_common_prefix(a.drop_first(), b.drop_first(), i - 1);
        assert(a.drop_first().subrange(i - 1, a.len() - 1) =~= a.subrange(i, a.len() as int));
        assert(b.drop_first().subrange(i - 1, b.len() - 1) =~= b.subrange(i, b.len() as int));
    }
}

/// Distinct integers have distinct big-endian encodings.
pub proof fn lemma_be_bytes_injective(x: u64, y: u64)
    requires
        be_bytes(x) == be_bytes(y),
    ensures
        x == y,
{
    let bx = be_bytes(x);
    let by = be_bytes(y);
    assert(bx[0] == by[0] && bx[1] == by[1] && bx[2] == by[2] && bx[3] == by[3]);
    assert(bx[4] == by[4] && bx[5] == by[5] && bx[6] == by[6] && bx[7] == by[7]);
    assert(((x >> 56u64) as u8 == (y >> 56u64) as u8 && (x >> 48u64) as u8 == (y >> 48u64) as u8
        && (x >> 40u64) as u8 == (y >> 40u64) as u8 && (x >> 32u64) as u8 == (y >> 32u64) as u8
        && (x >> 24u64) as u8 == (y >> 24u64) as u8 && (x >> 16u64) as u8 == (y >> 16u64) as u8
        && (x >> 8u64) as u8 == (y >> 8u64) as u8 && x as u8 == y as u8) ==> x == y) by (bit_vector);
}

/// Prefix isolation: the key of an update of one object never starts with the
/// prefix of another object.
pub proof fn lemma_prefix_isolation(a: u64, b: u64, clock: u64)
    requires
        a != b,
    ensures
        !starts_with(update_key(b, clock), object_prefix(a)),
{
    if starts_with(update_key(b, clock), object_prefix(a)) {
        assert(update_key(b, clock).subrange(0, 8) =~= be_bytes(b));
        lemma_be_bytes_injective(a, b);
    }
}

/// A prefix scan for one object yields no key of any other object.
pub proof fn lemma_scan_prefix_isolation(
    store: Seq<EntryModel>,
    r: Seq<EntryModel>,
    a: u64,
    b: u64,
)
    requires
        a != b,
        selection(store, r, |k: Seq<u8>| starts_with(k, object_prefix(a))),
    ensures
        forall|i: int, clock: u64| 0 <= i < r.len() ==> r[i].0 != update_key(b, clock),
{
    assert forall|i: int, clock: u64| 0 <= i < r.len() implies r[i].0 != update_key(b, clock) by {
        assert(r.contains(r[i]));
        lemma_prefix_isolation(a, b, clock);
    }
}

/// Within one object, the byte order of keys is the order of their clocks.
pub proof fn lemma_key_order_is_clock_order(object_id: u64, c1: u64, c2: u64)
    requires
        c1 < c2,
    ensures
        lex_lt(update_key(object_id, c1), update_key(object_id, c2)),
{
    let k1 = update_key(object_id, c1);
    let k2 = update_key(object_id, c2);
    assert(k1.subrange(0, 8) =~= k2.subrange(0, 8));
    lemma_lex_common_prefix(k1, k2, 8);
    assert(k1.subrange(8, 16) =~= be_bytes(c1));
    assert(k2.subrange(8, 16) =~= be_bytes(c2));
    lemma_be_lt(c1, c2);
}

/// Two sequences that agree below `i` and differ upward at `i` are ordered.
proof fn lemma_first_difference(a: Seq<u8>, b: Seq<u8>, i: int)
    requires
        0 <= i < a.len(),
        i < b.len(),
        a.subrange(0, i) == b.subrange(0, i),
        a[i] < b[i],
    ensures
        lex_lt(a, b),
{
    lemma_lex_common_prefix(a, b, i);
    let sa = a.subrange(i, a.len() as int);
    let sb = b.subrange(i, b.len() as int);
    assert(sa[0] == a[i] && sb[0] == b[i]);
}

proof fn lemma_be_lt(x: u64, y: u64)
    requires
        x < y,
    ensures
        lex_lt(be_bytes(x), be_bytes(y)),
{
    let a = be_bytes(x);
    let b = be_bytes(y);
    assert(
        ((x >> 56u64) as u8) < ((y >> 56u64) as u8) || ((x >> 56u64) as u8 == (y >> 56u64) as u8 && (
        ((x >> 48u64) as u8) < ((y >> 48u64) as u8) || ((x >> 48u64) as u8 == (y >> 48u64) as u8 && (
        ((x >> 40u64) as u8) < ((y >> 40u64) as u8) || ((x >> 40u64) as u8 == (y >> 40u64) as u8 && (
        ((x >> 32u64) as u8) < ((y >> 32u64) as u8) || ((x >> 32u64) as u8 == (y >> 32u64) as u8 && (
        ((x >> 24u64) as u8) < ((y >> 24u64) as u8) || ((x >> 24u64) as u8 == (y >> 24u64) as u8 && (
        ((x >> 16u64) as u8) < ((y >> 16u64) as u8) || ((x >> 16u64) as u8 == (y >> 16u64) as u8 && (
        ((x >> 8u64) as u8) < ((y >> 8u64) as u8) || ((x >> 8u64) as u8 == (y >> 8u64) as u8
            && (x as u8) < (y as u8))))))))))))))
    ) by (bit_vector)
        requires
            x < y,
    ;
    let i: int = if a[0] != b[0] {
        0
    } else if a[1] != b[1] {
        1
    } else if a[2] != b[2] {
        2
    } else if a[3] != b[3] {
        3
    } else if a[4] != b[4] {
        4
    } else if a[5] != b[5] {
        5
    } else if a[6] != b[6] {
        6
    } else {
        7
    };
    assert(a.subrange(0, i) =~= b.subrange(0, i));
    lemma_first_difference(a, b, i);
}

/// Compares two byte strings: negative, zero or positive as `a` sorts
/// before, equal to, or after `b`.
pub fn compare_keys(a: &[u8], b: &[u8]) -> (r: i8)
    ensures
        r < 0 <==> lex_lt(a@, b@),
        r == 0 <==> a@ == b@,
        r > 0 <==> lex_lt(b@, a@),
{
    let mut i: usize = 0;
    while i < a.len() && i < b.len()
        invariant
            0 <= i <= a@.len(),
            i <= b@.len(),
            a@.subrange(0, i as int) == b@.subrange(0, i as int),
        decreases a@.len() - i,
    {
        if a[i] != b[i] {
            proof {
                lemma_lex_common_prefix(a@, b@, i as int);
                lemma_lex_common_prefix(b@, a@, i as int);
                let sa = a@.subrange(i as int, a@.len() as int);
                let sb = b@.subrange(i as int, b@.len() as int);
                assert(sa[0] == a@[i as int] && sb[0] == b@[i as int]);
            }
            if a[i] < b[i] {
                return -1;
            } else {
                return 1;
            }
        }
        proof {
            assert(a@.subrange(0, i + 1) =~= a@.subrange(0, i as int).push(a@[i as int]));
            assert(b@.subrange(0, i + 1) =~= b@.subrange(0, i as int).push(b@[i as int]));
        }
        i = i + 1;
    }
    proof {
        lemma_lex_common_prefix(a@, b@, i as int);
        lemma_lex_common_prefix(b@, a@, i as int);
    }
    if i < b.len() {
        -1
    } else if i < a.len() {
        1
    } else {
        proof {
            assert(a@ =~= a@.subrange(0, i as int));
            assert(b@ =~= b@.subrange(0, i as int));
        }
        0
    }
}

/// Whether `p` is a prefix of `k`.
pub fn has_prefix(k: &[u8], p: &[u8]) -> (r: bool)
    ensures
        r == starts_with(k@, p@),
{
    if p.len() > k.len() {
        return false;
    }
    let mut i: usize = 0;
    while i < p.len()
        invariant
            p@.len() <= k@.len(),
            0 <= i <= p@.len(),
            k@.subrange(0, i as int) == p@.subrange(0, i as int),
        decreases p@.len() - i,
    {
        if k[i] != p[i] {
            proof {
                assert(k@.subrange(0, p@.len() as int)[i as int] == k@[i as int]);
            }
            return false;
        }
        proof {
            assert(k@.subrange(0, i + 1) =~= k@.subrange(0, i as int).push(k@[i as int]));
            assert(p@.subrange(0, i + 1) =~= p@.subrange(0, i as int).push(p@[i as int]));
        }
        i = i + 1;
    }
    proof {
        assert(p@.subrange(0, i as int) =~= p@);
    }
    true
}

/// Appends the big-endian bytes of `x` to `out`.
fn push_be_bytes(out: &mut Vec<u8>, x: u64)
    ensures
        final(out)@ == old(out)@ + be_bytes(x),
{
    out.push((x >> 56u64) as u8);
    out.push((x >> 48u64) as u8);
    out.push((x >> 40u64) as u8);
    out.push((x >> 32u64) as u8);
    out.push((x >> 24u64) as u8);
    out.push((x >> 16u64) as u8);
    out.push((x >> 8u64) as u8);
    out.push(x as u8);
    proof {
        assert(final(out)@ =~= old(out)@ + be_bytes(x));
    }
}

/// The prefix under which all updates of `object_id` are stored.
pub fn make_object_prefix(object_id: u64) -> (r: Vec<u8>)
    ensures
        r@ == object_prefix(object_id),
{
    let mut r: Vec<u8> = Vec::new();
    push_be_bytes(&mut r, object_id);
    proof {
        assert(r@ =~= object_prefix(object_id));
    }
    r
}

/// The key of the update of `object_id` at logical clock `clock`.
pub fn make_update_key(object_id: u64, clock: u64) -> (r: Vec<u8>)
    ensures
        r@ == update_key(object_id, clock),
{
    let mut r = make_object_prefix(object_id);
    push_be_bytes(&mut r, clock);
    r
}

/// The bound of a query, as a value of specifications.
pub open spec fn bound_model(b: Option<&[u8]>) -> Option<Seq<u8>> {
    match b {
        Some(x) => Some(x@),
        None => None,
    }
}

/// What a query keeps: keys in `[lo, hi)` that start with `pre`.
pub open spec fn query_keeps(
    k: Seq<u8>,
    lo: Option<Seq<u8>>,
    hi: Option<Seq<u8>>,
    pre: Option<Seq<u8>>,
) -> bool {
    &&& in_bounds(k, lo, hi)
    &&& (pre matches Some(p) ==> starts_with(k, p))
}

fn keeps(k: &[u8], lo: Option<&[u8]>, hi: Option<&[u8]>, pre: Option<&[u8]>) -> (r: bool)
    ensures
        r == query_keeps(k@, bound_model(lo), bound_model(hi), bound_model(pre)),
{
    if let Some(l) = lo {
        if compare_keys(k, l) < 0 {
            return false;
        }
    }
    if let Some(h) = hi {
        if compare_keys(k, h) >= 0 {
            return false;
        }
    }
    if let Some(p) = pre {
        return has_prefix(k, p);
    }
    true
}

fn copy_entry(e: &Entry) -> (r: Entry)
    ensures
        r.0@ == e.0@,
        r.1@ == e.1@,
{
    (slice_to_vec(e.0.as_slice()), slice_to_vec(e.1.as_slice()))
}

/// An ordered store of byte-keyed entries, one entry per key.
pub struct UpdateLog {
    entries: Vec<Entry>,
}

impl View for UpdateLog {
    type V = Seq<EntryModel>;

    closed spec fn view(&self) -> Seq<EntryModel> {
        entries_model(self.entries@)
    }
}

impl UpdateLog {
    /// Entries are kept in strictly ascending key order.
    pub open spec fn wf(&self) -> bool {
        ascending(self@)
    }

    pub fn new() -> (r: Self)
        ensures
            r.wf(),
            r@ == Seq::<EntryModel>::empty(),
    {
        let r = UpdateLog { entries: Vec::new() };
        proof {
            assert(r@ =~= Seq::<EntryModel>::empty());
        }
        r
    }

    pub fn len(&self) -> (r: usize)
        ensures
            r == self@.len(),
    {
        self.entries.len()
    }

    /// Stores `value` under `key`, replacing what was stored there.
    pub fn insert(&mut self, key: &[u8], value: &[u8])
        requires
            old(self).wf(),
        ensures
            final(self).wf(),
            forall|e: EntryModel|
                #![trigger final(self)@.contains(e)]
                #![trigger old(self)@.contains(e)]
                final(self)@.contains(e) <==> (e == (key@, value@) || (e.0 != key@ && old(
                    self,
                )@.contains(e))),
    {
        let ghost old_m = self@;
        let n = self.entries.len();
        let mut p: usize = 0;
        let mut found = false;
        let mut done = false;
        while p < n && !done
            invariant
                n == self.entries@.len(),
                self@ == old_m,
                0 <= p <= n,
                forall|i: int| 0 <= i < p ==> lex_lt(#[trigger] old_m[i].0, key@),
                done ==> p < n && !lex_lt(old_m[p as int].0, key@),
                done ==> (found <==> old_m[p as int].0 == key@),
                !done ==> !found,
            decreases n - p + (if done { 0int } else { 1int }),
        {
            let c = compare_keys(self.entries[p].0.as_slice(), key);
            if c >= 0 {
                found = c == 0;
                done = true;
            } else {
                p = p + 1;
            }
        }
        let e: Entry = (slice_to_vec(key), slice_to_vec(value));
        if found {
            self.entries.set(p, e);
            proof {
                let m = self@;
                assert(m =~= old_m.update(p as int, (key@, value@)));
                assert forall|i: int| 0 <= i < old_m.len() && i != p implies old_m[i].0 != key@ by {
                    if i < p {
                        lemma_lex_irreflexive(key@);
                    } else {
                        assert(lex_lt(old_m[p as int].0, old_m[i].0));
                        lemma_lex_irreflexive(key@);
                    }
                }
                assert forall|e: EntryModel| m.contains(e) <==> (e == (key@, value@) || (e.0
                    != key@ && old_m.contains(e))) by {
                    if m.contains(e) {
                        let j = choose|j: int| 0 <= j < m.len() && m[j] == e;
                        if j != p {
                            assert(old_m[j] == e);
                        }
                    }
                    if e == (key@, value@) {
                        assert(m[p as int] == e);
                    }
                    if e.0 != key@ && old_m.contains(e) {
                        let j = choose|j: int| 0 <= j < old_m.len() && old_m[j] == e;
                        assert(j != p);
                        assert(m[j] == e);
                    }
                }
                assert forall|i: int, j: int| 0 <= i < j < m.len() implies lex_lt(
                    #[trigger] m[i].0,
                    #[trigger] m[j].0,
                ) by {
                    assert(lex_lt(old_m[i].0, old_m[j].0));
                }
            }
        } else {
            self.entries.insert(p, e);
            proof {
                let m = self@;
                assert(m =~= old_m.insert(p as int, (key@, value@)));
                assert forall|j: int| p <= j < old_m.len() implies lex_lt(
                    key@,
                    #[trigger] old_m[j].0,
                ) by {
                    lemma_lex_total(old_m[p as int].0, key@);
                    if j > p {
                        assert(lex_lt(old_m[p as int].0, old_m[j].0));
                        lemma_lex_transitive(key@, old_m[p as int].0, old_m[j].0);
                    }
                }
                assert forall|i: int| 0 <= i < old_m.len() implies old_m[i].0 != key@ by {
                    lemma_lex_irreflexive(key@);
                    if i >= p {
                        assert(lex_lt(key@, old_m[i].0));
                    }
                }
                assert forall|i: int, j: int| 0 <= i < j < m.len() implies lex_lt(
                    #[trigger] m[i].0,
                    #[trigger] m[j].0,
                ) by {
                    if j < p {
                        assert(lex_lt(old_m[i].0, old_m[j].0));
                    } else if j == p {
                    } else if i < p {
                        assert(lex_lt(old_m[i].0, key@));
                        assert(lex_lt(key@, old_m[j - 1].0));
                        lemma_lex_transitive(old_m[i].0, key@, old_m[j - 1].0);
                    } else if i == p {
                        assert(lex_lt(key@, old_m[j - 1].0));
                    } else {
                        assert(lex_lt(old_m[i - 1].0, old_m[j - 1].0));
                    }
                }
                assert forall|e: EntryModel| m.contains(e) <==> (e == (key@, value@) || (e.0
                    != key@ && old_m.contains(e))) by {
                    if m.contains(e) {
                        let j = choose|j: int| 0 <= j < m.len() && m[j] == e;
                        if j < p {
                            assert(old_m[j] == e);
                        } else if j > p {
                            assert(old_m[j - 1] == e);
                        }
                    }
                    if e == (key@, value@) {
                        assert(m[p as int] == e);
                    }
                    if e.0 != key@ && old_m.contains(e) {
                        let j = choose|j: int| 0 <= j < old_m.len() && old_m[j] == e;
                        if j < p {
                            assert(m[j] == e);
                        } else {
                            assert(m[j + 1] == e);
                        }
                    }
                }
            }
        }
    }

    /// The entries, in order, whose keys `query_keeps` accepts.
    fn select(&self, lo: Option<&[u8]>, hi: Option<&[u8]>, pre: Option<&[u8]>) -> (r: Vec<Entry>)
        requires
            self.wf(),
        ensures
            selection(
                self@,
                entries_model(r@),
                |k: Seq<u8>| query_keeps(k, bound_model(lo), bound_model(hi), bound_model(pre)),
            ),
    {
        let ghost m = self@;
        let mut r: Vec<Entry> = Vec::new();
        let mut i: usize = 0;
        proof {
            assert(entries_model(r@) =~= Seq::<EntryModel>::empty());
        }
        while i < self.entries.len()
            invariant
                m == self@,
                ascending(m),
                0 <= i <= m.len(),
                m.len() == self.entries@.len(),
                ascending(entries_model(r@)),
                forall|e: EntryModel|
                    #![trigger entries_model(r@).contains(e)]
                    #![trigger m.take(i as int).contains(e)]
                    entries_model(r@).contains(e) <==> (m.take(i as int).contains(e) && query_keeps(e.0, bound_model(lo), bound_model(hi), bound_model(pre))),
            decreases m.len() - i,
        {
            let e = &self.entries[i];
            let ghost before = entries_model(r@);
            let ghost cur = m[i as int];
            let ghost next = m.take(i + 1);
            proof {
                assert(next =~= m.take(i as int).push(cur));
                assert(cur == (e.0@, e.1@));
                assert(next[i as int] == cur);
            }
            let ks = e.0.as_slice();
            let kept = keeps(ks, lo, hi, pre);
            proof {
                assert(kept == query_keeps(cur.0, bound_model(lo), bound_model(hi), bound_model(pre)));
            }
            if kept {
                let c = copy_entry(e);
                r.push(c);
                proof {
                    let after = entries_model(r@);
                    assert(after =~= before.push(cur));
                    assert forall|t: int| 0 <= t < before.len() implies lex_lt(
                        #[trigger] before[t].0,
                        cur.0,
                    ) by {
                        assert(before.contains(before[t]));
                        let j = choose|j: int| 0 <= j < i && m.take(i as int)[j] == before[t];
                        assert(m[j] == before[t]);
                    }
                    assert forall|a: int, b: int| 0 <= a < b < after.len() implies lex_lt(
                        #[trigger] after[a].0,
                        #[trigger] after[b].0,
                    ) by {
                        if b < before.len() {
                            assert(lex_lt(before[a].0, before[b].0));
                        }
                    }
                    assert forall|x: EntryModel| after.contains(x) <==> (next.contains(x)
                        && query_keeps(x.0, bound_model(lo), bound_model(hi), bound_model(pre))) by {
                        if after.contains(x) {
                            let j = choose|j: int| 0 <= j < after.len() && after[j] == x;
                            if j < before.len() {
                                assert(before[j] == x);
                                assert(before.contains(x));
                                assert(m.take(i as int).contains(x));
                                let w = choose|w: int| 0 <= w < i && m.take(i as int)[w] == x;
                                assert(next[w] == x);
                            } else {
                                assert(x == cur);
                            }
                        }
                        if next.contains(x) && query_keeps(x.0, bound_model(lo), bound_model(hi), bound_model(pre)) {
                            let j = choose|j: int| 0 <= j <= i && next[j] == x;
                            if j < i {
                                assert(m.take(i as int)[j] == x);
                                assert(m.take(i as int).contains(x));
                                let t = choose|t: int| 0 <= t < before.len() && before[t] == x;
                                assert(after[t] == x);
                            } else {
                                assert(after[before.len() as int] == x);
                            }
                        }
                    }
                }
            } else {
                proof {
                    assert forall|x: EntryModel| before.contains(x) <==> (next.contains(x)
                        && query_keeps(x.0, bound_model(lo), bound_model(hi), bound_model(pre))) by {
                        if next.contains(x) && query_keeps(x.0, bound_model(lo), bound_model(hi), bound_model(pre)) {
                            let j = choose|j: int| 0 <= j <= i && next[j] == x;
                            assert(j < i);
                            assert(m.take(i as int)[j] == x);
                        }
                        if before.contains(x) {
                            assert(m.take(i as int).contains(x));
                            let j = choose|j: int| 0 <= j < i && m.take(i as int)[j] == x;
                            assert(next[j] == x);
                        }
                    }
                }
            }
            i = i + 1;
        }
        proof {
            assert(m.take(i as int) =~= m);
        }
        r
    }

    /// Entries with `start <= key < end`, in ascending key order.
    pub fn range(&self, start: &[u8], end: &[u8]) -> (r: Vec<Entry>)
        requires
            self.wf(),
        ensures
            selection(self@, entries_model(r@), |k: Seq<u8>| in_bounds(k, Some(start@), Some(end@))),
    {
        self.select(Some(start), Some(end), None)
    }

    /// Entries with `key < end`, in ascending key order.
    pub fn range_to(&self, end: &[u8]) -> (r: Vec<Entry>)
        requires
            self.wf(),
        ensures
            selection(self@, entries_model(r@), |k: Seq<u8>| in_bounds(k, None, Some(end@))),
    {
        self.select(None, Some(end), None)
    }

    /// Entries with `start <= key`, in ascending key order.
    pub fn range_from(&self, start: &[u8]) -> (r: Vec<Entry>)
        requires
            self.wf(),
        ensures
            selection(self@, entries_model(r@), |k: Seq<u8>| in_bounds(k, Some(start@), None)),
    {
        self.select(Some(start), None, None)
    }

    /// Entries whose key starts with `prefix`, in ascending key order.
    pub fn scan_prefix(&self, prefix: &[u8]) -> (r: Vec<Entry>)
        requires
            self.wf(),
        ensures
            selection(self@, entries_model(r@), |k: Seq<u8>| starts_with(k, prefix@)),
    {
        self.select(None, None, Some(prefix))
    }

    /// Entries with `start <= key < end`, in descending key order.
    pub fn range_rev(&self, start: &[u8], end: &[u8]) -> (r: Vec<Entry>)
        requires
            self.wf(),
        ensures
            selection(
                self@,
                entries_model(r@).reverse(),
                |k: Seq<u8>| in_bounds(k, Some(start@), Some(end@)),
            ),
    {
        let fwd = self.range(start, end);
        let mut r: Vec<Entry> = Vec::new();
        let mut i: usize = fwd.len();
        while i > 0
            invariant
                0 <= i <= fwd@.len(),
                r@.len() == fwd@.len() - i,
                forall|t: int|
                    0 <= t < r@.len() ==> (#[trigger] r@[t]).0@ == fwd@[fwd@.len() - 1 - t].0@
                        && r@[t].1@ == fwd@[fwd@.len() - 1 - t].1@,
            decreases i,
        {
            i = i - 1;
            let c = copy_entry(&fwd[i]);
            r.push(c);
        }
        proof {
            assert(entries_model(r@).reverse() =~= entries_model(fwd@));
        }
        r
    }

    /// The entry with the greatest key below `end`, if any.
    pub fn last_before(&self, end: &[u8]) -> (r: Option<Entry>)
        requires
            self.wf(),
        ensures
            r is None <==> forall|e: EntryModel| #[trigger] self@.contains(e) ==> !lex_lt(e.0, end@),
            r matches Some(x) ==> {
                &&& self@.contains((x.0@, x.1@))
                &&& lex_lt(x.0@, end@)
                &&& forall|e: EntryModel|
                    #[trigger] self@.contains(e) && lex_lt(e.0, end@) ==> !lex_lt(x.0@, e.0)
            },
    {
        let below = self.range_to(end);
        let ghost sel = entries_model(below@);
        let n = below.len();
        if n == 0 {
            proof {
                assert forall|e: EntryModel| #[trigger] self@.contains(e) implies !lex_lt(
                    e.0,
                    end@,
                ) by {
                    if lex_lt(e.0, end@) {
                        assert(sel.contains(e));
                    }
                }
            }
            None
        } else {
            let x = copy_entry(&below[n - 1]);
            proof {
                let last = sel[n - 1];
                assert(sel.contains(last));
                assert forall|e: EntryModel|
                    #[trigger] self@.contains(e) && lex_lt(e.0, end@) implies !lex_lt(
                    x.0@,
                    e.0,
                ) by {
                    assert(sel.contains(e));
                    let t = choose|t: int| 0 <= t < sel.len() && sel[t] == e;
                    if t < n - 1 {
                        assert(lex_lt(sel[t].0, sel[n - 1].0));
                        lemma_lex_asymmetric(e.0, x.0@);
                    } else {
                        lemma_lex_irreflexive(e.0);
                    }
                }
            }
            Some(x)
        }
    }
}

} // verus!
