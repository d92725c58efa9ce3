//! A write scope over a replicated document: it brackets one logical
//! operation and records which entries the operation touched, in order.
use vstd::prelude::*;

verus! {

pub struct TransactionMut {
    changed: Vec<String>,
}

impl TransactionMut {
    /// Keys of the entries written in this scope, in order.
    pub closed spec fn changes(&self) -> Seq<Seq<char>> {
        self.changed@.map_values(|s: String| s@)
    }

    pub fn new() -> (r: Self)
        ensures
            r.changes() == Seq::<Seq<char>>::empty(),
    {
        let r = TransactionMut { changed: Vec::new() };
        proof {
            assert(r.changes() =~= Seq::<Seq<char>>::empty());
        }
        r
    }

    /// Records a write to the entry with key `key`.
    pub fn record(&mut self, key: &str)
        ensures
            final(self).changes() == old(self).changes().push(key@),
    {
        self.changed.push(key.to_owned());
        proof {
            assert(final(self).changes() =~= old(self).changes().push(key@));
        }
    }

    /// Number of writes recorded.
    pub fn len(&self) -> (r: usize)
        ensures
            r == self.changes().len(),
    {
        self.changed.len()
    }
}

} // verus!
