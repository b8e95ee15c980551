use crate::util::{occurs_in, position_of};
use std::collections::VecDeque;
use vstd::prelude::*;

verus! {

/// At most this many transactions go into one block.
pub const BLOCK_TX_LIMIT: usize = 100;

/// The items of `items` whose verdict is `true`, in order.
pub open spec fn kept<T>(items: Seq<T>, verdicts: Seq<bool>) -> Seq<T>
    decreases items.len(),
{
    if items.len() == 0 || verdicts.len() == 0 {
        Seq::empty()
    } else {
        let rest = kept(items.drop_last(), verdicts.drop_last());
        if verdicts.last() {
            rest.push(items.last())
        } else {
            rest
        }
    }
}

/// For each key, whether it is missing from `listed`.
pub open spec fn not_listed(keys: Seq<String>, listed: Seq<String>) -> Seq<bool> {
    keys.map_values(|k: String| !occurs_in(listed, k@))
}

/// Transactions waiting to be put in a block, first come first served.
pub struct MemPool<T> {
    txs: VecDeque<T>,
}

impl<T> View for MemPool<T> {
    type V = Seq<T>;

    closed spec fn view(&self) -> Seq<T> {
        self.txs@
    }
}

impl<T> MemPool<T> {
    /// An empty pool.
    pub fn new() -> (m: MemPool<T>)
        ensures
            m@ == Seq::<T>::empty(),
    {
        MemPool { txs: VecDeque::new() }
    }

    /// Number of waiting transactions.
    pub fn len(&self) -> (n: usize)
        ensures
            n == self@.len(),
    {
        self.txs.len()
    }

    /// Queues a transaction behind the others.
    pub fn push(&mut self, tx: T)
        ensures
            final(self)@ == old(self)@.push(tx),
    {
        self.txs.push_back(tx);
    }

    /// Takes the transaction that has waited longest.
    pub fn pop(&mut self) -> (r: Option<T>)
        ensures
            old(self)@.len() == 0 ==> r is None && final(self)@ == old(self)@,
            old(self)@.len() > 0 ==> r == Some(old(self)@[0]) && final(self)@ == old(self)@.drop_first(),
    {
        self.txs.pop_front()
    }

    /// The transaction at place `i`, counted from the front.
    pub fn get(&self, i: usize) -> (r: &T)
        requires
            i < self@.len(),
        ensures
            *r == self@[i as int],
    {
        &self.txs[i]
    }

    /// Drops the waiting transactions whose key is listed in `listed`
    /// (the transactions that went into a block), keeping the others in
    /// their order; `keys[i]` is the key of the `i`-th transaction.
    pub fn remove_listed(&mut self, keys: &[String], listed: &[String])
        requires
            keys@.len() == old(self)@.len(),
        ensures
            final(self)@ == kept(old(self)@, not_listed(keys@, listed@)),
    {
        let ghost q = self@;
        let ghost all = not_listed(keys@, listed@);
        let mut rest: VecDeque<T> = VecDeque::new();
        let mut i: usize = 0;
        while self.txs.len() > 0
            invariant
                keys@.len() == q.len(),
                all == not_listed(keys@, listed@),
                i <= q.len(),
                self@ == q.skip(i as int),
                rest@ == kept(q.take(i as int), all.take(i as int)),
            decreases self@.len(),
        {
            match self.txs.pop_front() {
                Some(tx) => {
                    proof {
                        assert(tx == q[i as int]);
                        assert(self@ =~= q.skip(i + 1));
                    }
                    let ok = position_of(listed, &keys[i]).is_none();
                    proof {
                        assert(ok == all[i as int]);
                    }
                    if ok {
                        rest.push_back(tx);
                    }
                    proof {
                        assert(q.take(i + 1).drop_last() =~= q.take(i as int));
                        assert(all.take(i + 1).drop_last() =~= all.take(i as int));
                        assert(q.take(i + 1).last() == q[i as int]);
                        assert(all.take(i + 1).last() == all[i as int]);
                    }
                    i = i + 1;
                },
                None => {
                    proof {
                        assert(false);
                    }
                },
            }
        }
        proof {
            assert(i == q.len()) by {
                assert(self@.len() == 0);
            }
            assert(q.take(q.len() as int) =~= q);
            assert(all.take(q.len() as int) =~= all);
        }
        self.txs = rest;
    }

    /// The transactions of the next block: takes transactions from the
    /// front of the pool and keeps those that `accept` approves, until
    /// `BLOCK_TX_LIMIT` are kept or the pool is empty. Rejected
    /// transactions are dropped from the pool.
    pub fn next_block_transactions<F: Fn(&T) -> bool>(&mut self, accept: &F) -> (txs: Vec<T>)
        requires
            forall|t: &T| #[trigger] accept.requires((t,)),
        ensures
            exists|p: int, verdicts: Seq<bool>|
                {
                    &&& 0 <= p <= old(self)@.len()
                    &&& verdicts.len() == p
                    &&& forall|i: int|
                        0 <= i < p ==> accept.ensures((&old(self)@[i],), #[trigger] verdicts[i])
                    &&& final(self)@ == old(self)@.skip(p)
                    &&& txs@ == kept(old(self)@.take(p), verdicts)
                    &&& (p == 0 || kept(old(self)@.take(p - 1), verdicts.take(p - 1)).len()
                        < BLOCK_TX_LIMIT)
                },
            txs@.len() <= BLOCK_TX_LIMIT,
            txs@.len() < BLOCK_TX_LIMIT ==> final(self)@.len() == 0,
    {
        let ghost q = self@;
        let ghost mut verdicts: Seq<bool> = Seq::empty();
        let mut txs: Vec<T> = Vec::new();
        while txs.len() < BLOCK_TX_LIMIT
            invariant
                forall|t: &T| #[trigger] accept.requires((t,)),
                0 <= verdicts.len() <= q.len(),
                self@ == q.skip(verdicts.len() as int),
                forall|i: int|
                    0 <= i < verdicts.len() ==> accept.ensures((&q[i],), #[trigger] verdicts[i]),
                txs@ == kept(q.take(verdicts.len() as int), verdicts),
                txs@.len() <= BLOCK_TX_LIMIT,
                verdicts.len() == 0 || kept(
                    q.take(verdicts.len() - 1),
                    verdicts.take(verdicts.len() - 1),
                ).len() < BLOCK_TX_LIMIT,
            ensures
                0 <= verdicts.len() <= q.len(),
                self@ == q.skip(verdicts.len() as int),
                forall|i: int|
                    0 <= i < verdicts.len() ==> accept.ensures((&q[i],), #[trigger] verdicts[i]),
                txs@ == kept(q.take(verdicts.len() as int), verdicts),
                txs@.len() <= BLOCK_TX_LIMIT,
                txs@.len() < BLOCK_TX_LIMIT ==> self@.len() == 0,
                verdicts.len() == 0 || kept(
                    q.take(verdicts.len() - 1),
                    verdicts.take(verdicts.len() - 1),
                ).len() < BLOCK_TX_LIMIT,
            decreases q.len() - verdicts.len(),
        {
            let ghost n = verdicts.len() as int;
            match self.txs.pop_front() {
                Some(tx) => {
                    proof {
                        assert(tx == q[n]);
                        assert(self@ =~= q.skip(n + 1));
                    }
                    let ok = accept(&tx);
                    let ghost before = txs@;
                    if ok {
                        txs.push(tx);
                    }
                    proof {
                        let v2 = verdicts.push(ok);
                        assert(q.take(n + 1).drop_last() =~= q.take(n));
                        assert(v2.drop_last() =~= verdicts);
                        assert(v2.take(n) =~= verdicts);
                        assert(q.take(n + 1).last() == q[n]);
                        assert forall|i: int| 0 <= i < v2.len() implies accept.ensures(
                            (&q[i],),
                            #[trigger] v2[i],
                        ) by {
                            if i < n {
                                assert(v2[i] == verdicts[i]);
                            }
                        }
                        verdicts = v2;
                    }
                },
                None => {
                    proof {
                        assert(self@.len() == 0);
                    }
                    break;
                },
            }
        }
        txs
    }
}

/// The pool is first in, first out: after pushing `x`, popping gives the
/// oldest transaction (`x` itself when the pool was empty) and leaves the
/// others, `x` last.
pub proof fn law_pool_fifo<T>(s: Seq<T>, x: T)
    ensures
        s.push(x)[0] == (if s.len() > 0 {
            s[0]
        } else {
            x
        }),
        s.push(x).drop_first() == (if s.len() > 0 {
            s.drop_first().push(x)
        } else {
            Seq::<T>::empty()
        }),
{
    if s.len() > 0 {
        assert(s.push(x).drop_first() =~= s.drop_first().push(x));
    } else {
        assert(s.push(x).drop_first() =~= Seq::<T>::empty());
    }
}

/// A block never keeps more transactions than were taken from the pool.
pub proof fn law_kept_at_most_taken<T>(items: Seq<T>, verdicts: Seq<bool>)
    ensures
        kept(items, verdicts).len() <= items.len(),
    decreases items.len(),
{
    if items.len() > 0 && verdicts.len() > 0 {
        law_kept_at_most_taken(items.drop_last(), verdicts.drop_last());
    }
}

/// A key is kept exactly when no entry of `listed` equals it; there is one
/// verdict per key.
pub proof fn law_not_listed(keys: Seq<String>, listed: Seq<String>)
    ensures
        not_listed(keys, listed).len() == keys.len(),
        forall|i: int|
            0 <= i < keys.len() ==> (#[trigger] not_listed(keys, listed)[i] <==> forall|j: int|
                0 <= j < listed.len() ==> listed[j]@ != keys[i]@),
{
    assert forall|i: int| 0 <= i < keys.len() implies (#[trigger] not_listed(keys, listed)[i] <==> forall|j: int|
        0 <= j < listed.len() ==> listed[j]@ != keys[i]@) by {
        if exists|j: int| 0 <= j < listed.len() && listed[j]@ == keys[i]@ {
            let j = choose|j: int| 0 <= j < listed.len() && listed[j]@ == keys[i]@;
            assert(occurs_in(listed, keys[i]@));
        }
    }
}

/// Filtering by verdicts goes item by item: a single item stays exactly
/// when its verdict is `true`, and filtering two runs of items is filtering
/// each and joining the results.
pub proof fn law_kept_item_by_item<T>(i1: Seq<T>, v1: Seq<bool>, i2: Seq<T>, v2: Seq<bool>, x: T)
    requires
        i1.len() == v1.len(),
        i2.len() == v2.len(),
    ensures
        kept(seq![x], seq![true]) == seq![x],
        kept(seq![x], seq![false]) == Seq::<T>::empty(),
        kept(i1 + i2, v1 + v2) == kept(i1, v1) + kept(i2, v2),
    decreases i2.len(),
{
    assert(seq![x].drop_last() =~= Seq::<T>::empty());
    assert(seq![true].drop_last() =~= Seq::<bool>::empty());
    assert(seq![false].drop_last() =~= Seq::<bool>::empty());
    assert(Seq::<T>::empty().push(x) =~= seq![x]);
    assert(kept(Seq::<T>::empty(), Seq::<bool>::empty()) == Seq::<T>::empty());
    assert(seq![x].last() == x && seq![true].last() && !seq![false].last());
    assert(kept(seq![x], seq![true]) == kept(Seq::<T>::empty(), Seq::<bool>::empty()).push(x));
    assert(kept(seq![x], seq![false]) == kept(Seq::<T>::empty(), Seq::<bool>::empty()));
    if i2.len() == 0 {
        assert(i1 + i2 =~= i1);
        assert(v1 + v2 =~= v1);
        assert(kept(i1, v1) + Seq::<T>::empty() =~= kept(i1, v1));
    } else {
        law_kept_item_by_item(i1, v1, i2.drop_last(), v2.drop_last(), x);
        assert((i1 + i2).drop_last() =~= i1 + i2.drop_last());
        assert((v1 + v2).drop_last() =~= v1 + v2.drop_last());
        assert((i1 + i2).last() == i2.last());
        assert((v1 + v2).last() == v2.last());
        if v2.last() {
            assert(kept(i1, v1) + kept(i2.drop_last(), v2.drop_last()).push(i2.last()) =~= (kept(i1, v1) + kept(
                i2.drop_last(),
                v2.drop_last(),
            )).push(i2.last()));
        }
    }
}

} // verus!
