//! Row identifiers: a counter owned by one service object and handed to
//! every component that creates rows.
use vstd::prelude::*;

verus! {

/// Issues row identifiers, each distinct from every earlier one of the same
/// generator.
pub struct RowIdGen {
    seed: u64,
    next: u64,
}

impl RowIdGen {
    /// The first identifier this generator issues.
    pub closed spec fn seed(&self) -> u64 {
        self.seed
    }

    /// The identifier the next call issues.
    pub closed spec fn next_value(&self) -> u64 {
        self.next
    }

    /// Every identifier issued so far.
    pub open spec fn issued(&self) -> Set<int> {
        Set::new(|x: int| self.seed() <= x < self.next_value())
    }

    pub open spec fn wf(&self) -> bool {
        self.seed() <= self.next_value()
    }

    pub fn new(seed: u64) -> (r: Self)
        ensures
            r.wf(),
            r.seed() == seed,
            r.next_value() == seed,
            r.issued() == Set::<int>::empty(),
    {
        let r = RowIdGen { seed, next: seed };
        proof {
            assert(r.issued() =~= Set::<int>::empty());
        }
        r
    }

    /// Issues a fresh identifier; `None` once the identifier space is spent.
    pub fn next_id(&mut self) -> (r: Option<u64>)
        requires
            old(self).wf(),
        ensures
            final(self).wf(),
            final(self).seed() == old(self).seed(),
            r is None <==> old(self).next_value() == u64::MAX,
            r is None ==> final(self).issued() == old(self).issued(),
            r is None ==> final(self).next_value() == old(self).next_value(),
            r is Some ==> final(self).next_value() == old(self).next_value() + 1,
            r matches Some(id) ==> issues(*old(self), *final(self), id),
    {
        if self.next == u64::MAX {
            return None;
        }
        let id = self.next;
        self.next = self.next + 1;
        proof {
            assert(final(self).issued() =~= old(self).issued().insert(id as int));
        }
        Some(id)
    }
}

/// One call of `next_id` took `before` to `after` and issued `id`.
pub open spec fn issues(before: RowIdGen, after: RowIdGen, id: u64) -> bool {
    &&& id == before.next_value()
    &&& !before.issued().contains(id as int)
    &&& after.issued() == before.issued().insert(id as int)
}

proof fn lemma_earlier_ids_issued(gens: Seq<RowIdGen>, ids: Seq<u64>, k: int)
    requires
        gens.len() == ids.len() + 1,
        forall|i: int| 0 <= i < ids.len() ==> issues(#[trigger] gens[i], gens[i + 1], ids[i]),
        0 <= k <= ids.len(),
    ensures
        forall|i: int| 0 <= i < k ==> gens[k].issued().contains(#[trigger] ids[i] as int),
    decreases k,
{
    if k > 0 {
        lemma_earlier_ids_issued(gens, ids, k - 1);
        assert(issues(gens[k - 1], gens[k], ids[k - 1]));
    }
}

/// Identifiers issued by successive calls of one generator are pairwise
/// distinct, however many calls are made.
pub proof fn lemma_issued_ids_distinct(gens: Seq<RowIdGen>, ids: Seq<u64>)
    requires
        gens.len() == ids.len() + 1,
        forall|i: int| 0 <= i < ids.len() ==> issues(#[trigger] gens[i], gens[i + 1], ids[i]),
    ensures
        forall|i: int, j: int| 0 <= i < j < ids.len() ==> ids[i] != ids[j],
{
    assert forall|i: int, j: int| 0 <= i < j < ids.len() implies ids[i] != ids[j] by {
        lemma_earlier_ids_issued(gens, ids, j);
        assert(issues(gens[j], gens[j + 1], ids[j]));
    }
}

} // verus!
