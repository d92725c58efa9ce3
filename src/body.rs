//! The workspace index: for each database, the ordered set of view ids
//! linked to it.
use vstd::prelude::*;
use crate::keyed::{KeyedMap, keys_unique};
use crate::text::same_text;
use vstd::string::StrSliceExecFns;
use vstd::utf8::encode_utf8;
use crate::index_codec::{encode_entries, encode_index_entry, fits};

verus! {

/// The characters of each string.
pub open spec fn strs(v: Seq<String>) -> Seq<Seq<char>> {
    v.map_values(|s: String| s@)
}

/// `s` without repeats: the first occurrence of each id, in order.
pub open spec fn dedup(s: Seq<Seq<char>>) -> Seq<Seq<char>>
    decreases s.len(),
{
    if s.len() == 0 {
        Seq::empty()
    } else {
        let p = dedup(s.drop_last());
        if p.contains(s.last()) {
            p
        } else {
            p.push(s.last())
        }
    }
}

/// `s` with `v` added at the end unless already there.
pub open spec fn link(s: Seq<Seq<char>>, v: Seq<char>) -> Seq<Seq<char>> {
    if s.contains(v) {
        s
    } else {
        s.push(v)
    }
}

pub proof fn lemma_push_no_duplicates(p: Seq<Seq<char>>, v: Seq<char>)
    requires
        p.no_duplicates(),
        !p.contains(v),
    ensures
        p.push(v).no_duplicates(),
{
    let q = p.push(v);
    assert forall|i: int, j: int| 0 <= i < q.len() && 0 <= j < q.len() && i != j implies q[i]
        != q[j] by {
        if i == p.len() && j < p.len() {
            assert(p[j] == q[j]);
        } else if j == p.len() && i < p.len() {
            assert(p[i] == q[i]);
        }
    }
}

/// Deduplication keeps exactly the ids of `s`, each once.
pub proof fn lemma_dedup(s: Seq<Seq<char>>)
    ensures
        dedup(s).no_duplicates(),
        forall|x: Seq<char>| #[trigger] dedup(s).contains(x) <==> s.contains(x),
    decreases s.len(),
{
    if s.len() > 0 {
        let t = s.drop_last();
        lemma_dedup(t);
        let p = dedup(t);
        if !p.contains(s.last()) {
            lemma_push_no_duplicates(p, s.last());
        }
        let d = dedup(s);
        assert(d == (if p.contains(s.last()) { p } else { p.push(s.last()) }));
        assert forall|x: Seq<char>| #[trigger] d.contains(x) <==> s.contains(x) by {
            if s.contains(x) {
                let i = choose|i: int| 0 <= i < s.len() && s[i] == x;
                if i < s.len() - 1 {
                    assert(t[i] == x);
                    assert(t.contains(x));
                    assert(dedup(t).contains(x));
                    let j = choose|j: int| 0 <= j < p.len() && p[j] == x;
                    if !p.contains(s.last()) {
                        assert(p.push(s.last())[j] == x);
                    }
                } else if !p.contains(s.last()) {
                    assert(p.push(s.last())[p.len() as int] == x);
                } else {
                    assert(x == s.last());
                }
            }
            if d.contains(x) {
                let j = choose|j: int| 0 <= j < d.len() && d[j] == x;
                if j < p.len() {
                    assert(p[j] == x);
                    assert(p.contains(x));
                    assert(dedup(t).contains(x));
                    assert(t.contains(x));
                    let i = choose|i: int| 0 <= i < t.len() && t[i] == x;
                    assert(s[i] == x);
                } else {
                    assert(x == s.last());
                    assert(s[s.len() - 1] == x);
                }
            }
        }
    }
}

/// Linking a view id twice leaves it listed exactly once: the second link
/// changes nothing, and the list stays free of repeats.
pub proof fn lemma_link_twice(s: Seq<Seq<char>>, v: Seq<char>)
    requires
        s.no_duplicates(),
    ensures
        link(link(s, v), v) == link(s, v),
        link(s, v).contains(v),
        link(s, v).no_duplicates(),
        forall|i: int, j: int|
            0 <= i < link(s, v).len() && 0 <= j < link(s, v).len() && link(s, v)[i] == v && link(
                s,
                v,
            )[j] == v ==> i == j,
{
    if !s.contains(v) {
        lemma_push_no_duplicates(s, v);
        assert(s.push(v)[s.len() as int] == v);
    }
}

/// One database and the views linked to it.
pub struct DatabaseMeta {
    pub database_id: String,
    pub linked_views: Vec<String>,
}

/// An equal, independent list of strings.
pub fn copy_strings(v: &Vec<String>) -> (r: Vec<String>)
    ensures
        r@ == v@,
{
    let mut r: Vec<String> = Vec::new();
    let mut i: usize = 0;
    while i < v.len()
        invariant
            0 <= i <= v@.len(),
            r@ == v@.take(i as int),
        decreases v@.len() - i,
    {
        r.push(v[i].clone());
        proof {
            assert(v@.take(i + 1) =~= v@.take(i as int).push(v@[i as int]));
        }
        i = i + 1;
    }
    proof {
        assert(v@.take(i as int) =~= v@);
    }
    r
}

/// Whether `s` is one of the strings of `v`.
pub fn contains_text(v: &Vec<String>, s: &str) -> (r: bool)
    ensures
        r == strs(v@).contains(s@),
{
    let mut i: usize = 0;
    while i < v.len()
        invariant
            0 <= i <= v@.len(),
            forall|j: int| 0 <= j < i ==> (#[trigger] v@[j])@ != s@,
        decreases v@.len() - i,
    {
        if same_text(v[i].as_str(), s) {
            proof {
                assert(strs(v@)[i as int] == s@);
            }
            return true;
        }
        i = i + 1;
    }
    proof {
        if strs(v@).contains(s@) {
            let j = choose|j: int| 0 <= j < strs(v@).len() && strs(v@)[j] == s@;
            assert(v@[j]@ == s@);
        }
    }
    false
}

/// The strings of `v` without repeats, first occurrences kept in order.
pub fn dedup_strings(v: &Vec<String>) -> (r: Vec<String>)
    ensures
        strs(r@) == dedup(strs(v@)),
{
    let mut r: Vec<String> = Vec::new();
    let mut i: usize = 0;
    proof {
        assert(strs(v@).take(0) =~= Seq::<Seq<char>>::empty());
        assert(strs(r@) =~= Seq::<Seq<char>>::empty());
    }
    while i < v.len()
        invariant
            0 <= i <= v@.len(),
            strs(r@) == dedup(strs(v@).take(i as int)),
        decreases v@.len() - i,
    {
        let ghost t = strs(v@).take(i + 1);
        proof {
            assert(t.drop_last() =~= strs(v@).take(i as int));
            assert(t.last() == v@[i as int]@);
        }
        if !contains_text(&r, v[i].as_str()) {
            r.push(v[i].clone());
            proof {
                assert(strs(r@) =~= dedup(strs(v@).take(i as int)).push(v@[i as int]@));
            }
        }
        i = i + 1;
    }
    proof {
        assert(strs(v@).take(i as int) =~= strs(v@));
    }
    r
}

/// The lists of the index as sequences of ids.
pub open spec fn index_model(m: Map<Seq<char>, Vec<String>>) -> Map<Seq<char>, Seq<Seq<char>>> {
    m.map_values(|v: Vec<String>| strs(v@))
}

/// The index of the databases of a workspace, keyed by database id.
pub struct WorkspaceDatabaseBody {
    metas: KeyedMap<Vec<String>>,
}

impl View for WorkspaceDatabaseBody {
    type V = Map<Seq<char>, Seq<Seq<char>>>;

    closed spec fn view(&self) -> Map<Seq<char>, Seq<Seq<char>>> {
        index_model(self.metas@)
    }
}

impl WorkspaceDatabaseBody {
    /// Database ids are unique, and so are the view ids linked to each.
    pub closed spec fn wf(&self) -> bool {
        &&& self.metas.wf()
        &&& forall|k: Seq<char>| #[trigger] self.metas@.contains_key(k) ==> strs(self.metas@[k]@).no_duplicates()
    }

    pub proof fn lemma_wf(&self)
        requires
            self.wf(),
        ensures
            forall|k: Seq<char>| #[trigger] self@.contains_key(k) ==> self@[k].no_duplicates(),
    {
    }

    pub fn new() -> (r: Self)
        ensures
            r.wf(),
            r@ == Map::<Seq<char>, Seq<Seq<char>>>::empty(),
    {
        let r = WorkspaceDatabaseBody { metas: KeyedMap::new() };
        proof {
            assert(r@ =~= Map::<Seq<char>, Seq<Seq<char>>>::empty());
        }
        r
    }

    pub fn contains(&self, database_id: &str) -> (r: bool)
        requires
            self.wf(),
        ensures
            r == self@.contains_key(database_id@),
    {
        self.metas.contains_key(database_id)
    }

    /// Registers a database with the given views, repeats dropped; an entry
    /// for the same database is replaced.
    pub fn add_database(&mut self, database_id: &str, view_ids: &Vec<String>)
        requires
            old(self).wf(),
        ensures
            final(self).wf(),
            final(self)@ == old(self)@.insert(database_id@, dedup(strs(view_ids@))),
    {
        let views = dedup_strings(view_ids);
        proof {
            lemma_dedup(strs(view_ids@));
        }
        self.metas.insert(database_id.to_owned(), views);
        proof {
            assert(self@ =~= old(self)@.insert(database_id@, dedup(strs(view_ids@))));
        }
    }

    /// Adds `view_id` to the views of a database; a view already linked, or
    /// a database not in the index, leaves the index as it is.
    pub fn link_view(&mut self, database_id: &str, view_id: &str)
        requires
            old(self).wf(),
        ensures
            final(self).wf(),
            old(self)@.contains_key(database_id@) ==> final(self)@ == old(self)@.insert(
                database_id@,
                link(old(self)@[database_id@], view_id@),
            ),
            !old(self)@.contains_key(database_id@) ==> final(self)@ == old(self)@,
    {
        let updated = match self.metas.get(database_id) {
            Some(views) => {
                if contains_text(views, view_id) {
                    None
                } else {
                    let mut v = copy_strings(views);
                    v.push(view_id.to_owned());
                    proof {
                        assert(strs(v@) =~= strs(views@).push(view_id@));
                        lemma_push_no_duplicates(strs(views@), view_id@);
                    }
                    Some(v)
                }
            },
            None => None,
        };
        if let Some(v) = updated {
            self.metas.insert(database_id.to_owned(), v);
            proof {
                assert(self@ =~= old(self)@.insert(database_id@, link(old(self)@[database_id@], view_id@)));
            }
        } else {
            proof {
                if old(self)@.contains_key(database_id@) {
                    assert(old(self)@ =~= old(self)@.insert(
                        database_id@,
                        link(old(self)@[database_id@], view_id@),
                    ));
                }
            }
        }
    }

    /// Removes a database from the index.
    pub fn delete_database(&mut self, database_id: &str)
        requires
            old(self).wf(),
        ensures
            final(self).wf(),
            final(self)@ == old(self)@.remove(database_id@),
    {
        self.metas.remove(database_id);
        proof {
            assert(self@ =~= old(self)@.remove(database_id@));
        }
    }

    /// The first database, in registration order, that links `view_id`.
    pub fn get_database_meta_with_view_id(&self, view_id: &str) -> (r: Option<DatabaseMeta>)
        requires
            self.wf(),
        ensures
            r is None <==> forall|k: Seq<char>| #[trigger]
                self@.contains_key(k) ==> !self@[k].contains(view_id@),
            r matches Some(m) ==> self@.contains_key(m.database_id@) && strs(m.linked_views@)
                == self@[m.database_id@] && self@[m.database_id@].contains(view_id@),
    {
        let entries = self.metas.entries();
        let ghost items = self.metas.items();
        proof {
            self.metas.lemma_items_in_map();
        }
        let mut i: usize = 0;
        while i < entries.len()
            invariant
                entries@ == items,
                items == self.metas.items(),
                self.wf(),
                forall|j: int|
                    0 <= j < items.len() ==> self.metas@.contains_key((#[trigger] items[j]).0@)
                        && self.metas@[items[j].0@] == items[j].1,
                0 <= i <= items.len(),
                forall|j: int| 0 <= j < i ==> !strs((#[trigger] items[j]).1@).contains(view_id@),
            decreases items.len() - i,
        {
            let (id, views) = &entries[i];
            if contains_text(views, view_id) {
                proof {
                    let k = items[i as int].0@;
                    assert(self.metas@.contains_key(k));
                    assert(self@.contains_key(k));
                    assert(self@[k] == strs(items[i as int].1@));
                    assert(self@[k].contains(view_id@));
                }
                return Some(DatabaseMeta { database_id: id.clone(), linked_views: copy_strings(views) });
            }
            i = i + 1;
        }
        proof {
            assert forall|k: Seq<char>| #[trigger] self@.contains_key(k) implies !self@[k].contains(
                view_id@,
            ) by {
                let j = choose|j: int| 0 <= j < items.len() && (#[trigger] items[j]).0@ == k;
                assert(self.metas@[k] == items[j].1);
            }
        }
        None
    }

    /// Every entry of the index, each once.
    pub fn get_all_database_meta(&self) -> (r: Vec<DatabaseMeta>)
        requires
            self.wf(),
        ensures
            forall|i: int|
                0 <= i < r@.len() ==> self@.contains_key((#[trigger] r@[i]).database_id@) && strs(
                    r@[i].linked_views@,
                ) == self@[r@[i].database_id@],
            forall|k: Seq<char>| #[trigger]
                self@.contains_key(k) ==> exists|i: int|
                    0 <= i < r@.len() && (#[trigger] r@[i]).database_id@ == k,
            forall|i: int, j: int|
                0 <= i < r@.len() && 0 <= j < r@.len() && i != j ==> (#[trigger] r@[i]).database_id@
                    != (#[trigger] r@[j]).database_id@,
    {
        let entries = self.metas.entries();
        let ghost items = self.metas.items();
        proof {
            self.metas.lemma_items_in_map();
        }
        let mut r: Vec<DatabaseMeta> = Vec::new();
        let mut i: usize = 0;
        while i < entries.len()
            invariant
                entries@ == items,
                items == self.metas.items(),
                self.wf(),
                keys_unique(items),
                forall|j: int|
                    0 <= j < items.len() ==> self.metas@.contains_key((#[trigger] items[j]).0@)
                        && self.metas@[items[j].0@] == items[j].1,
                0 <= i <= items.len(),
                r@.len() == i,
                forall|j: int|
                    0 <= j < i ==> (#[trigger] r@[j]).database_id@ == items[j].0@ && r@[j].linked_views@
                        == items[j].1@,
            decreases items.len() - i,
        {
            let (id, views) = &entries[i];
            r.push(DatabaseMeta { database_id: id.clone(), linked_views: copy_strings(views) });
            i = i + 1;
        }
        proof {
            assert forall|k: Seq<char>| #[trigger] self@.contains_key(k) implies exists|i: int|
                0 <= i < r@.len() && (#[trigger] r@[i]).database_id@ == k by {
                let j = choose|j: int| 0 <= j < items.len() && (#[trigger] items[j]).0@ == k;
                assert(r@[j].database_id@ == k);
            }
            assert forall|a: int, b: int|
                0 <= a < r@.len() && 0 <= b < r@.len() && a != b implies (
            #[trigger] r@[a]).database_id@ != (#[trigger] r@[b]).database_id@ by {
                assert(items[a].0@ != items[b].0@);
            }
            assert forall|a: int| 0 <= a < r@.len() implies self@.contains_key(
                (#[trigger] r@[a]).database_id@,
            ) && strs(r@[a].linked_views@) == self@[r@[a].database_id@] by {
                assert(self.metas@.contains_key(items[a].0@));
            }
        }
        r
    }

    /// The entries of the index in registration order.
    pub closed spec fn listing(&self) -> Seq<(Seq<char>, Seq<Seq<char>>)> {
        self.metas.items().map_values(|e: (String, Vec<String>)| (e.0@, strs(e.1@)))
    }

    /// The listing holds each entry of the index once.
    pub proof fn lemma_listing(&self)
        requires
            self.wf(),
        ensures
            forall|i: int|
                0 <= i < self.listing().len() ==> self@.contains_key((#[trigger] self.listing()[i]).0)
                    && self@[self.listing()[i].0] == self.listing()[i].1,
            forall|k: Seq<char>| #[trigger]
                self@.contains_key(k) ==> exists|i: int|
                    0 <= i < self.listing().len() && (#[trigger] self.listing()[i]).0 == k,
            forall|i: int, j: int|
                0 <= i < self.listing().len() && 0 <= j < self.listing().len() && i != j ==> (
                #[trigger] self.listing()[i]).0 != (#[trigger] self.listing()[j]).0,
    {
        let items = self.metas.items();
        self.metas.lemma_items_in_map();
        assert forall|k: Seq<char>| #[trigger] self@.contains_key(k) implies exists|i: int|
            0 <= i < self.listing().len() && (#[trigger] self.listing()[i]).0 == k by {
            let j = choose|j: int| 0 <= j < items.len() && (#[trigger] items[j]).0@ == k;
            assert(self.listing()[j].0 == k);
        }
        assert forall|i: int, j: int|
            0 <= i < self.listing().len() && 0 <= j < self.listing().len() && i != j implies (
            #[trigger] self.listing()[i]).0 != (#[trigger] self.listing()[j]).0 by {
            assert(items[i].0@ != items[j].0@);
        }
        assert forall|i: int| 0 <= i < self.listing().len() implies self@.contains_key(
            (#[trigger] self.listing()[i]).0,
        ) && self@[self.listing()[i].0] == self.listing()[i].1 by {
            assert(self.metas@.contains_key(items[i].0@));
        }
    }

    /// The index as bytes; `None` when a length does not fit in 32 bits.
    pub fn encode(&self) -> (r: Option<Vec<u8>>)
        requires
            self.wf(),
        ensures
            r is Some <==> fits(self.listing()),
            r matches Some(b) ==> b@ == encode_entries(self.listing()),
    {
        let entries = self.metas.entries();
        let ghost ls = self.listing();
        let mut out: Vec<u8> = Vec::new();
        let mut i: usize = 0;
        proof {
            assert(ls.take(0) =~= Seq::<(Seq<char>, Seq<Seq<char>>)>::empty());
        }
        while i < entries.len()
            invariant
                entries@ == self.metas.items(),
                ls == self.listing(),
                ls.len() == entries@.len(),
                0 <= i <= entries@.len(),
                out@ == encode_entries(ls.take(i as int)),
                fits(ls.take(i as int)),
            decreases entries@.len() - i,
        {
            let (id, views) = &entries[i];
            let ghost e = ls[i as int];
            proof {
                assert(e == (id@, strs(views@)));
            }
            if !encode_index_entry(&mut out, id, views) {
                proof {
                    assert(seq![e][0] == e);
                    assert(!fits(ls)) by {
                        if fits(ls) {
                            assert(fits(seq![e])) by {
                                assert forall|t: int| 0 <= t < seq![e].len() implies {
                                    &&& encode_utf8((#[trigger] seq![e][t]).0).len() <= u32::MAX
                                    &&& seq![e][t].1.len() <= u32::MAX
                                    &&& forall|j: int| 0 <= j < seq![e][t].1.len() ==> encode_utf8(#[trigger] seq![e][t].1[j]).len() <= u32::MAX
                                } by {
                                    assert(seq![e][t] == ls[i as int]);
                                }
                            }
                        }
                    }
                }
                return None;
            }
            proof {
                let next = ls.take(i + 1);
                assert(next.drop_last() =~= ls.take(i as int));
                assert(next.last() == e);
                assert(seq![e][0] == e);
                assert(fits(next)) by {
                    assert forall|t: int| 0 <= t < next.len() implies {
                        &&& encode_utf8((#[trigger] next[t]).0).len() <= u32::MAX
                        &&& next[t].1.len() <= u32::MAX
                        &&& forall|j: int| 0 <= j < next[t].1.len() ==> encode_utf8(#[trigger] next[t].1[j]).len() <= u32::MAX
                    } by {
                        if t < i {
                            assert(next[t] == ls.take(i as int)[t]);
                        } else {
                            assert(next[t] == seq![e][0]);
                        }
                    }
                }
            }
            i = i + 1;
        }
        proof {
            assert(ls.take(i as int) =~= ls);
        }
        Some(out)
    }

    /// A bound on the length of every database id and linked view id.
    pub fn longest_id(&self) -> (r: usize)
        requires
            self.wf(),
        ensures
            forall|k: Seq<char>| #[trigger] self@.contains_key(k) ==> k.len() <= r,
            forall|k: Seq<char>, i: int|
                self@.contains_key(k) && 0 <= i < self@[k].len() ==> (#[trigger] self@[k][i]).len() <= r,
    {
        let entries = self.metas.entries();
        let ghost items = self.metas.items();
        proof {
            self.metas.lemma_items_in_map();
        }
        let mut r: usize = 0;
        let mut i: usize = 0;
        while i < entries.len()
            invariant
                entries@ == items,
                items == self.metas.items(),
                0 <= i <= items.len(),
                forall|j: int| 0 <= j < i ==> (#[trigger] items[j]).0@.len() <= r,
                forall|j: int, t: int|
                    0 <= j < i && 0 <= t < items[j].1@.len() ==> (#[trigger] items[j].1@[t])@.len() <= r,
            decreases items.len() - i,
        {
            let (id, views) = &entries[i];
            let n = id.as_str().unicode_len();
            if n > r {
                r = n;
            }
            let m = longest_text(views);
            if m > r {
                r = m;
            }
            i = i + 1;
        }
        proof {
            assert forall|k: Seq<char>| #[trigger] self@.contains_key(k) implies k.len() <= r by {
                let j = choose|j: int| 0 <= j < items.len() && (#[trigger] items[j]).0@ == k;
            }
            assert forall|k: Seq<char>, t: int|
                self@.contains_key(k) && 0 <= t < self@[k].len() implies (#[trigger] self@[k][t]).len() <= r by {
                let j = choose|j: int| 0 <= j < items.len() && (#[trigger] items[j]).0@ == k;
                assert(self.metas@[k] == items[j].1);
                assert(self@[k][t] == items[j].1@[t]@);
            }
        }
        r
    }

    /// Every database id and every linked view id is non-empty.
    pub fn has_required_data(&self) -> (r: bool)
        requires
            self.wf(),
        ensures
            r == index_has_required_data(self@),
    {
        let entries = self.metas.entries();
        let ghost items = self.metas.items();
        proof {
            self.metas.lemma_items_in_map();
        }
        let mut i: usize = 0;
        while i < entries.len()
            invariant
                entries@ == items,
                items == self.metas.items(),
                self.wf(),
                forall|j: int|
                    0 <= j < items.len() ==> self.metas@.contains_key((#[trigger] items[j]).0@)
                        && self.metas@[items[j].0@] == items[j].1,
                0 <= i <= items.len(),
                forall|j: int| 0 <= j < i ==> (#[trigger] items[j]).0@.len() > 0 && !strs(items[j].1@).contains(Seq::empty()),
            decreases items.len() - i,
        {
            let (id, views) = &entries[i];
            proof {
                reveal_strlit("");
                assert(""@ =~= Seq::<char>::empty());
            }
            if id.as_str().unicode_len() == 0 || contains_text(views, "") {
                proof {
                    let k = items[i as int].0@;
                    assert(self.metas@.contains_key(k));
                    assert(self@.contains_key(k));
                    assert(self@[k] == strs(items[i as int].1@));
                    assert(!(k.len() > 0 && !self@[k].contains(Seq::empty())));
                }
                return false;
            }
            i = i + 1;
        }
        proof {
            assert forall|k: Seq<char>| #[trigger] self@.contains_key(k) implies k.len() > 0 && !self@[k].contains(Seq::empty()) by {
                let j = choose|j: int| 0 <= j < items.len() && (#[trigger] items[j]).0@ == k;
                assert(self.metas@[k] == items[j].1);
            }
        }
        true
    }
}

/// No database id and no linked view id of the index is empty.
pub open spec fn index_has_required_data(index: Map<Seq<char>, Seq<Seq<char>>>) -> bool {
    forall|k: Seq<char>| #[trigger] index.contains_key(k) ==> k.len() > 0 && !index[k].contains(Seq::empty())
}

/// A bound on the length of every string of `v`.
pub fn longest_text(v: &Vec<String>) -> (r: usize)
    ensures
        forall|i: int| 0 <= i < v@.len() ==> (#[trigger] v@[i])@.len() <= r,
{
    let mut r: usize = 0;
    let mut i: usize = 0;
    while i < v.len()
        invariant
            0 <= i <= v@.len(),
            forall|j: int| 0 <= j < i ==> (#[trigger] v@[j])@.len() <= r,
        decreases v@.len() - i,
    {
        let n = v[i].as_str().unicode_len();
        if n > r {
            r = n;
        }
        i = i + 1;
    }
    r
}

} // verus!
