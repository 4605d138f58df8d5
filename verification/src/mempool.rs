use vstd::prelude::*;
use vstd::multiset::Multiset;
use crate::transaction::{Shard, Transaction, TxView, tx_le, txs_view, seq_has_tx_id, txs_contain_id};

verus! {

broadcast use vstd::seq_lib::group_seq_properties;

/// A mempool ordered by `(fee, id)`: popping yields the pending transaction
/// with the highest fee, ties broken by the highest id.
#[derive(Debug)]
pub struct FeeMempool {
    pub txs: Vec<Transaction>,
}

impl View for FeeMempool {
    type V = Seq<TxView>;

    open spec fn view(&self) -> Seq<TxView> {
        txs_view(self.txs@)
    }
}

/// The predicate that keeps every transaction whose id is not named in `ex`.
pub open spec fn not_excluded(ex: Seq<TxView>) -> spec_fn(TxView) -> bool {
    |t: TxView| !seq_has_tx_id(ex, t.id)
}

impl FeeMempool {
    pub fn new() -> (r: Self)
        ensures
            r@ == Seq::<TxView>::empty(),
    {
        let r = Self { txs: Vec::new() };
        proof {
            assert(r@ =~= Seq::<TxView>::empty());
        }
        r
    }

    pub fn len(&self) -> (r: usize)
        ensures
            r == self@.len(),
    {
        self.txs.len()
    }

    pub fn is_empty(&self) -> (r: bool)
        ensures
            r == (self@.len() == 0),
    {
        self.txs.len() == 0
    }

    pub fn contains_id(&self, id: u32) -> (r: bool)
        ensures
            r == seq_has_tx_id(self@, id),
    {
        txs_contain_id(&self.txs, id)
    }

    pub fn push(&mut self, tx: Transaction)
        ensures
            final(self)@ == old(self)@.push(tx@),
    {
        let ghost v = tx@;
        self.txs.push(tx);
        proof {
            assert(final(self)@ =~= old(self)@.push(v));
        }
    }

    /// Remove and return the pending transaction that every other one is
    /// `tx_le` below; `None` on an empty pool.
    pub fn pop_max(&mut self) -> (r: Option<Transaction>)
        ensures
            old(self)@.len() == 0 ==> r is None && final(self)@ == old(self)@,
            old(self)@.len() > 0 ==> (r matches Some(t) && exists|i: int|
                0 <= i < old(self)@.len() && old(self)@[i] == t@ && final(self)@ == old(
                    self,
                )@.remove(i)),
            old(self)@.len() > 0 ==> (r matches Some(t) && forall|j: int|
                0 <= j < old(self)@.len() ==> tx_le(#[trigger] old(self)@[j], t@)),
    {
        if self.txs.len() == 0 {
            return None;
        }
        let mut best: usize = 0;
        let mut i: usize = 1;
        while i < self.txs.len()
            invariant
                1 <= i <= self.txs@.len(),
                best < i,
                forall|j: int| 0 <= j < i ==> tx_le(#[trigger] self@[j], self@[best as int]),
            decreases self.txs@.len() - i,
        {
            let better = {
                let a = &self.txs[i];
                let b = &self.txs[best];
                a.effective_fee > b.effective_fee || (a.effective_fee == b.effective_fee && a.id
                    > b.id)
            };
            if better {
                best = i;
            }
            i = i + 1;
        }
        let ghost prev = self.txs@;
        let t = self.txs.remove(best);
        proof {
            assert(final(self)@ =~= txs_view(prev).remove(best as int));
        }
        Some(t)
    }

    /// Remove and return up to `cap` transactions, highest `(fee, id)`
    /// first: the result is sorted downward, dominates what remains, and
    /// together with the remainder makes up exactly the old pool.
    pub fn take_top(&mut self, cap: usize) -> (taken: Vec<Transaction>)
        ensures
            txs_view(taken@).len() == if old(self)@.len() < cap {
                old(self)@.len() as int
            } else {
                cap as int
            },
            old(self)@.to_multiset() == final(self)@.to_multiset().add(
                txs_view(taken@).to_multiset(),
            ),
            forall|p: int, q: int|
                0 <= p < q < taken@.len() ==> tx_le(
                    #[trigger] txs_view(taken@)[q],
                    #[trigger] txs_view(taken@)[p],
                ),
            forall|p: int, j: int|
                0 <= p < taken@.len() && 0 <= j < final(self)@.len() ==> tx_le(
                    #[trigger] final(self)@[j],
                    #[trigger] txs_view(taken@)[p],
                ),
            forall|p: int|
                0 <= p < taken@.len() ==> seq_has_tx_id(
                    old(self)@,
                    (#[trigger] txs_view(taken@)[p]).id,
                ),
            forall|x: u32| #[trigger]
                seq_has_tx_id(final(self)@, x) ==> seq_has_tx_id(old(self)@, x),
    {
        let mut taken: Vec<Transaction> = Vec::new();
        proof {
            old(self)@.to_multiset_ensures();
            assert(txs_view(taken@).to_multiset() =~= Multiset::<TxView>::empty());
            assert(old(self)@.to_multiset() =~= self@.to_multiset().add(
                txs_view(taken@).to_multiset(),
            ));
        }
        while taken.len() < cap && !self.is_empty()
            invariant
                taken@.len() <= cap,
                old(self)@.to_multiset() == self@.to_multiset().add(
                    txs_view(taken@).to_multiset(),
                ),
                taken@.len() + self@.len() == old(self)@.len(),
                forall|p: int, q: int|
                    0 <= p < q < taken@.len() ==> tx_le(
                        #[trigger] txs_view(taken@)[q],
                        #[trigger] txs_view(taken@)[p],
                    ),
                forall|p: int, j: int|
                    0 <= p < taken@.len() && 0 <= j < self@.len() ==> tx_le(
                        #[trigger] self@[j],
                        #[trigger] txs_view(taken@)[p],
                    ),
                forall|p: int|
                    0 <= p < taken@.len() ==> seq_has_tx_id(
                        old(self)@,
                        (#[trigger] txs_view(taken@)[p]).id,
                    ),
                forall|x: u32| #[trigger]
                    seq_has_tx_id(self@, x) ==> seq_has_tx_id(old(self)@, x),
            decreases cap - taken@.len(),
        {
            let ghost pool_pre = self@;
            let ghost taken_pre = txs_view(taken@);
            let popped = self.pop_max();
            match popped {
                Some(t) => {
                    let ghost tv = t@;
                    proof {
                        let i = choose|i: int|
                            0 <= i < pool_pre.len() && pool_pre[i] == tv && self@ == pool_pre.remove(
                                i,
                            );
                        pool_pre.to_multiset_ensures();
                        assert(self@.to_multiset() =~= pool_pre.to_multiset().remove(tv));
                        assert(pool_pre.to_multiset().count(tv) > 0) by {
                            assert(pool_pre.contains(tv));
                        };
                        assert(seq_has_tx_id(pool_pre, tv.id)) by {
                            assert(pool_pre[i].id == tv.id);
                        };
                        assert forall|j: int|
                            0 <= j < self@.len() implies seq_has_tx_id(
                            pool_pre,
                            (#[trigger] self@[j]).id,
                        ) by {
                            if j < i {
                                assert(pool_pre[j].id == self@[j].id);
                            } else {
                                assert(pool_pre[j + 1].id == self@[j].id);
                            }
                        };
                        assert forall|x: u32| #[trigger]
                            seq_has_tx_id(self@, x) implies seq_has_tx_id(pool_pre, x) by {
                            if seq_has_tx_id(self@, x) {
                                let w = choose|w: int| 0 <= w < self@.len() && self@[w].id == x;
                                if w < i {
                                    assert(pool_pre[w].id == x);
                                } else {
                                    assert(pool_pre[w + 1].id == x);
                                }
                            }
                        };
                    }
                    taken.push(t);
                    proof {
                        assert(txs_view(taken@) =~= taken_pre.push(tv));
                        taken_pre.to_multiset_ensures();
                        assert(txs_view(taken@).to_multiset() =~= taken_pre.to_multiset().insert(
                            tv,
                        ));
                        assert(old(self)@.to_multiset() =~= self@.to_multiset().add(
                            txs_view(taken@).to_multiset(),
                        ));
                        assert forall|p: int, j: int|
                            0 <= p < taken@.len() && 0 <= j < self@.len() implies tx_le(
                            #[trigger] self@[j],
                            #[trigger] txs_view(taken@)[p],
                        ) by {
                            if p < taken_pre.len() {
                                assert(txs_view(taken@)[p] == taken_pre[p]);
                                let i = choose|i: int|
                                    0 <= i < pool_pre.len() && pool_pre[i] == tv && self@
                                        == pool_pre.remove(i);
                                if j < i {
                                    assert(self@[j] == pool_pre[j]);
                                } else {
                                    assert(self@[j] == pool_pre[j + 1]);
                                }
                            } else {
                                assert(txs_view(taken@)[p] == tv);
                                let i = choose|i: int|
                                    0 <= i < pool_pre.len() && pool_pre[i] == tv && self@
                                        == pool_pre.remove(i);
                                if j < i {
                                    assert(self@[j] == pool_pre[j]);
                                } else {
                                    assert(self@[j] == pool_pre[j + 1]);
                                }
                            }
                        };
                        assert forall|p: int, q: int|
                            0 <= p < q < taken@.len() implies tx_le(
                            #[trigger] txs_view(taken@)[q],
                            #[trigger] txs_view(taken@)[p],
                        ) by {
                            if q == taken_pre.len() {
                                assert(txs_view(taken@)[q] == tv);
                                let i = choose|i: int|
                                    0 <= i < pool_pre.len() && pool_pre[i] == tv && self@
                                        == pool_pre.remove(i);
                                assert(pool_pre[i] == tv);
                                assert(tx_le(pool_pre[i], taken_pre[p]));
                            }
                        };
                    }
                },
                None => {
                    proof {
                        assert(false);
                    }
                },
            }
        }
        proof {
            old(self)@.to_multiset_ensures();
            self@.to_multiset_ensures();
            txs_view(taken@).to_multiset_ensures();
        }
        taken
    }

    /// Drop every pending transaction whose id appears in `exclude`.
    pub fn retain_not_in(&mut self, exclude: &Vec<Transaction>)
        ensures
            final(self)@ == old(self)@.filter(not_excluded(txs_view(exclude@))),
    {
        let ghost pred = not_excluded(txs_view(exclude@));
        let mut kept: Vec<Transaction> = Vec::new();
        let mut i: usize = 0;
        while i < self.txs.len()
            invariant
                i <= self.txs@.len(),
                *self == *old(self),
                pred == not_excluded(txs_view(exclude@)),
                txs_view(kept@) == txs_view(self.txs@.take(i as int)).filter(pred),
            decreases self.txs@.len() - i,
        {
            let ghost before = txs_view(self.txs@.take(i as int));
            proof {
                assert(self.txs@.take(i + 1) =~= self.txs@.take(i as int).push(
                    self.txs@[i as int],
                ));
                assert(txs_view(self.txs@.take(i + 1)) =~= before.push(self.txs@[i as int]@));
                before.lemma_filter_push(self.txs@[i as int]@, pred);
            }
            if !txs_contain_id(exclude, self.txs[i].id) {
                let ghost kv = txs_view(kept@);
                kept.push(self.txs[i].clone());
                proof {
                    assert(txs_view(kept@) =~= kv.push(self.txs@[i as int]@));
                }
            }
            i = i + 1;
        }
        proof {
            assert(self.txs@.take(self.txs@.len() as int) =~= self.txs@);
        }
        self.txs = kept;
    }
}

/// What survives `retain_not_in`: every surviving id was present before and
/// is not among the excluded ids.
pub proof fn lemma_retained_ids(s: Seq<TxView>, ex: Seq<TxView>)
    ensures
        forall|x: u32| #[trigger]
            seq_has_tx_id(s.filter(not_excluded(ex)), x) ==> seq_has_tx_id(s, x)
                && !seq_has_tx_id(ex, x),
{
    let p = not_excluded(ex);
    let f = s.filter(p);
    assert forall|x: u32| #[trigger]
        seq_has_tx_id(f, x) implies (seq_has_tx_id(s, x) && !seq_has_tx_id(ex, x)) by {
        let w = choose|w: int| 0 <= w < f.len() && f[w].id == x;
        s.lemma_filter_pred(p, w);
        assert(p(f[w]));
        assert(f.contains(f[w]));
        s.lemma_filter_contains_rev(p, f[w]);
        let j = choose|j: int| 0 <= j < s.len() && s[j] == f[w];
        assert(s[j].id == x);
    };
}

/// What `retain_not_in` keeps: every id present before and not excluded
/// survives.
pub proof fn lemma_kept_ids(s: Seq<TxView>, ex: Seq<TxView>)
    ensures
        forall|x: u32|
            seq_has_tx_id(s, x) && !seq_has_tx_id(ex, x) ==> #[trigger] seq_has_tx_id(
                s.filter(not_excluded(ex)),
                x,
            ),
{
    let p = not_excluded(ex);
    assert forall|x: u32|
        seq_has_tx_id(s, x) && !seq_has_tx_id(ex, x) implies #[trigger] seq_has_tx_id(
        s.filter(p),
        x,
    ) by {
        let w = choose|w: int| 0 <= w < s.len() && s[w].id == x;
        assert(p(s[w]));
        s.lemma_filter_contains(p, w);
        assert(s.filter(p).contains(s[w]));
        let j = choose|j: int| 0 <= j < s.filter(p).len() && s.filter(p)[j] == s[w];
        assert(s.filter(p)[j].id == x);
    };
}

/// A shard's evidence that a transaction reached a phase: the justifying
/// block observed from that shard.
#[derive(Clone, Copy, Debug, PartialEq, Eq, Structural)]
pub struct ShardMark {
    pub shard: Shard,
    pub block_id: u32,
}

/// A transaction waiting for evidence from the rest of its shards.
#[derive(Debug)]
pub struct WaitingEntry {
    pub tx: Transaction,
    pub marks: Vec<ShardMark>,
}

/// Mathematical model of a waiting entry.
#[verifier::ext_equal]
pub ghost struct WaitingEntryView {
    pub tx: TxView,
    pub marks: Seq<ShardMark>,
}

impl View for WaitingEntry {
    type V = WaitingEntryView;

    open spec fn view(&self) -> WaitingEntryView {
        WaitingEntryView { tx: self.tx@, marks: self.marks@ }
    }
}

/// Whether an entry for `id` exists.
pub open spec fn pool_has_id(s: Seq<WaitingEntryView>, id: u32) -> bool {
    exists|i: int| 0 <= i < s.len() && s[i].tx.id == id
}

/// Whether `marks` records evidence from `shard`.
pub open spec fn marks_have_shard(marks: Seq<ShardMark>, shard: Shard) -> bool {
    exists|i: int| 0 <= i < marks.len() && marks[i].shard == shard
}

/// A mempool of transactions waiting, keyed by transaction id, for evidence
/// from every shard they touch.
#[derive(Debug)]
pub struct WaitingPool {
    pub entries: Vec<WaitingEntry>,
}

impl View for WaitingPool {
    type V = Seq<WaitingEntryView>;

    open spec fn view(&self) -> Seq<WaitingEntryView> {
        self.entries@.map_values(|e: WaitingEntry| e@)
    }
}

impl WaitingPool {
    /// Entries are keyed by transaction id; within an entry every shard
    /// appears at most once.
    pub open spec fn wf(self) -> bool {
        &&& forall|i: int, j: int| 0 <= i < j < self@.len() ==> self@[i].tx.id != self@[j].tx.id
        &&& forall|i: int|
            0 <= i < self@.len() ==> (forall|p: int, q: int|
                0 <= p < q < (#[trigger] self@[i].marks).len() ==> self@[i].marks[p].shard
                    != self@[i].marks[q].shard)
    }

    pub open spec fn idx_of(self, id: u32) -> int {
        choose|i: int| 0 <= i < self@.len() && self@[i].tx.id == id
    }

    /// The evidence recorded for `id` (empty if no entry).
    pub open spec fn marks_of(self, id: u32) -> Seq<ShardMark> {
        if pool_has_id(self@, id) {
            self@[self.idx_of(id)].marks
        } else {
            Seq::<ShardMark>::empty()
        }
    }

    pub fn new() -> (r: Self)
        ensures
            r@ == Seq::<WaitingEntryView>::empty(),
            r.wf(),
    {
        let r = Self { entries: Vec::new() };
        proof {
            assert(r@ =~= Seq::<WaitingEntryView>::empty());
        }
        r
    }

    pub fn len(&self) -> (r: usize)
        ensures
            r == self@.len(),
    {
        self.entries.len()
    }

    pub fn contains(&self, id: u32) -> (r: bool)
        ensures
            r == pool_has_id(self@, id),
    {
        let mut i: usize = 0;
        while i < self.entries.len()
            invariant
                i <= self.entries@.len(),
                forall|j: int| 0 <= j < i ==> self@[j].tx.id != id,
            decreases self.entries@.len() - i,
        {
            if self.entries[i].tx.id == id {
                assert(self@[i as int].tx.id == id);
                return true;
            }
            i = i + 1;
        }
        false
    }

    /// How many shards have evidenced `id` (0 if no entry).
    pub fn marks_count(&self, id: u32) -> (r: usize)
        requires
            self.wf(),
        ensures
            r == self.marks_of(id).len(),
    {
        let mut i: usize = 0;
        while i < self.entries.len()
            invariant
                i <= self.entries@.len(),
                self.wf(),
                forall|j: int| 0 <= j < i ==> self@[j].tx.id != id,
            decreases self.entries@.len() - i,
        {
            if self.entries[i].tx.id == id {
                proof {
                    assert(self@[i as int].tx.id == id);
                    let w = self.idx_of(id);
                    assert(self@[w].tx.id == id);
                    assert(w == i);
                }
                return self.entries[i].marks.len();
            }
            i = i + 1;
        }
        proof {
            if pool_has_id(self@, id) {
                let w = self.idx_of(id);
                assert(self@[w].tx.id == id);
                assert(false);
            }
        }
        0
    }

    /// Record `shard`'s evidence for `tx`, creating the entry on first
    /// sight; returns how many shards have evidenced it afterwards.
    pub fn register_mark(&mut self, tx: &Transaction, shard: Shard, block_id: u32) -> (cnt: usize)
        requires
            old(self).wf(),
        ensures
            final(self).wf(),
            cnt == final(self).marks_of(tx.id).len(),
            pool_has_id(final(self)@, tx.id),
            marks_have_shard(final(self).marks_of(tx.id), shard),
            !pool_has_id(old(self)@, tx.id) ==> final(self)@ == old(self)@.push(
                WaitingEntryView { tx: tx@, marks: seq![ShardMark { shard, block_id }] },
            ) && cnt == 1,
            pool_has_id(old(self)@, tx.id) && marks_have_shard(
                old(self).marks_of(tx.id),
                shard,
            ) ==> final(self)@ == old(self)@ && cnt == old(self).marks_of(tx.id).len(),
            pool_has_id(old(self)@, tx.id) && !marks_have_shard(
                old(self).marks_of(tx.id),
                shard,
            ) ==> final(self)@ == old(self)@.update(
                old(self).idx_of(tx.id),
                WaitingEntryView {
                    tx: old(self)@[old(self).idx_of(tx.id)].tx,
                    marks: old(self).marks_of(tx.id).push(ShardMark { shard, block_id }),
                },
            ) && cnt == old(self).marks_of(tx.id).len() + 1,
            forall|x: u32| #[trigger]
                pool_has_id(final(self)@, x) <==> pool_has_id(old(self)@, x) || x == tx.id,
            forall|x: u32|
                x != tx.id ==> #[trigger] final(self).marks_of(x) == old(self).marks_of(x),
    {
        let id = tx.id;
        let mut i: usize = 0;
        let n = self.entries.len();
        while i < n
            invariant
                i <= n,
                n == self.entries@.len(),
                old(self).wf(),
                *self == *old(self),
                id == tx.id,
                forall|j: int| 0 <= j < i ==> self@[j].tx.id != id,
            decreases n - i,
        {
            if self.entries[i].tx.id == id {
                proof {
                    assert(self@[i as int].tx.id == id);
                    assert(pool_has_id(old(self)@, id));
                    let w = old(self).idx_of(id);
                    assert(old(self)@[w].tx.id == id);
                    assert(w == i);
                }
                let ghost old_marks = self@[i as int].marks;
                // look for an existing mark from this shard
                let mut k: usize = 0;
                let m = self.entries[i].marks.len();
                while k < m && self.entries[i].marks[k].shard != shard
                    invariant
                        k <= m,
                        i < self.entries@.len(),
                        *self == *old(self),
                        m == self@[i as int].marks.len(),
                        old_marks == self@[i as int].marks,
                        forall|j: int| 0 <= j < k ==> old_marks[j].shard != shard,
                    decreases m - k,
                {
                    k = k + 1;
                }
                if k < m {
                    // this shard already evidenced the transaction
                    proof {
                        assert(old_marks[k as int].shard == shard);
                        assert(marks_have_shard(old_marks, shard));
                        assert(old(self).marks_of(id) == old_marks);
                    }
                    return m;
                }
                proof {
                    assert(!marks_have_shard(old_marks, shard));
                    assert(old(self).marks_of(id) == old_marks);
                }
                let ghost prev = self@;
                self.entries[i].marks.push(ShardMark { shard, block_id });
                proof {
                    let newmarks = old_marks.push(ShardMark { shard, block_id });
                    assert(self.entries@[i as int].marks@ == newmarks);
                    assert(self.entries@[i as int].tx == old(self).entries@[i as int].tx);
                    assert(forall|j: int|
                        0 <= j < prev.len() && j != i ==> self.entries@[j]
                            == old(self).entries@[j]);
                    assert(self@ =~= prev.update(
                        i as int,
                        WaitingEntryView { tx: prev[i as int].tx, marks: newmarks },
                    ));
                    assert(newmarks[old_marks.len() as int].shard == shard);
                    assert(marks_have_shard(newmarks, shard));
                    assert forall|p: int, q: int|
                        0 <= p < q < newmarks.len() implies newmarks[p].shard
                        != newmarks[q].shard by {
                        if q < old_marks.len() {
                        } else {
                            assert(newmarks[q].shard == shard);
                            assert(old_marks[p].shard != shard);
                        }
                    };
                    assert(final(self).wf());
                    assert(self@[i as int].tx.id == id);
                    assert(pool_has_id(self@, id));
                    let w = self.idx_of(id);
                    assert(self@[w].tx.id == id);
                    assert(w == i);
                    assert(final(self).marks_of(id) == newmarks);
                    lemma_pool_frame_update(*old(self), *self, id, i as int);
                }
                let cnt = self.entries[i].marks.len();
                return cnt;
            }
            i = i + 1;
        }
        // first sight of this transaction
        proof {
            assert(!pool_has_id(old(self)@, id));
        }
        let ghost prev = self@;
        let mut marks: Vec<ShardMark> = Vec::new();
        marks.push(ShardMark { shard, block_id });
        let entry = WaitingEntry { tx: tx.clone(), marks };
        proof {
            assert(entry@ =~= (WaitingEntryView {
                tx: tx@,
                marks: seq![ShardMark { shard, block_id }],
            }));
        }
        self.entries.push(entry);
        proof {
            let n0 = prev.len() as int;
            assert(self@ =~= prev.push(
                WaitingEntryView { tx: tx@, marks: seq![ShardMark { shard, block_id }] },
            ));
            assert(self@[n0].tx.id == id);
            assert(pool_has_id(self@, id));
            let w = self.idx_of(id);
            assert(self@[w].tx.id == id);
            assert forall|j: int| 0 <= j < n0 implies self@[j].tx.id != id by {
                assert(prev[j].tx.id != id);
            };
            assert(w == n0);
            assert(final(self).marks_of(id) == seq![ShardMark { shard, block_id }]);
            assert(final(self).marks_of(id)[0].shard == shard);
            assert(marks_have_shard(final(self).marks_of(id), shard));
            assert(final(self).wf());
            lemma_pool_frame_push(*old(self), *self, id);
        }
        1
    }

    /// Remove the entry for `id`, if any.
    pub fn remove(&mut self, id: u32)
        requires
            old(self).wf(),
        ensures
            final(self).wf(),
            !pool_has_id(final(self)@, id),
            !pool_has_id(old(self)@, id) ==> final(self)@ == old(self)@,
            pool_has_id(old(self)@, id) ==> final(self)@ == old(self)@.remove(
                old(self).idx_of(id),
            ),
            forall|x: u32|
                x != id ==> (#[trigger] pool_has_id(final(self)@, x) <==> pool_has_id(
                    old(self)@,
                    x,
                )),
            forall|x: u32| x != id ==> #[trigger] final(self).marks_of(x) == old(self).marks_of(x),
    {
        let mut i: usize = 0;
        let n = self.entries.len();
        while i < n
            invariant
                i <= n,
                n == self.entries@.len(),
                old(self).wf(),
                *self == *old(self),
                forall|j: int| 0 <= j < i ==> self@[j].tx.id != id,
            decreases n - i,
        {
            if self.entries[i].tx.id == id {
                proof {
                    assert(self@[i as int].tx.id == id);
                    assert(pool_has_id(old(self)@, id));
                    let w = old(self).idx_of(id);
                    assert(old(self)@[w].tx.id == id);
                    assert(w == i);
                }
                let ghost prev = self@;
                self.entries.remove(i);
                proof {
                    assert(self@ =~= prev.remove(i as int));
                    assert forall|j: int| 0 <= j < self@.len() implies self@[j].tx.id != id by {
                        if j < i {
                            assert(self@[j] == prev[j]);
                        } else {
                            assert(self@[j] == prev[j + 1]);
                        }
                    };
                    assert(final(self).wf()) by {
                        assert(forall|p: int|
                            0 <= p < self@.len() ==> self@[p] == (if p < i {
                                prev[p]
                            } else {
                                prev[p + 1]
                            }));
                    };
                    lemma_pool_frame_remove(*old(self), *self, id, i as int);
                }
                return;
            }
            i = i + 1;
        }
        proof {
            assert(!pool_has_id(old(self)@, id));
        }
    }
}

/// After updating the entry of one id, every other id reads as before.
proof fn lemma_pool_frame_update(a: WaitingPool, b: WaitingPool, id: u32, i: int)
    requires
        a.wf(),
        b.wf(),
        0 <= i < a@.len(),
        b@.len() == a@.len(),
        a@[i].tx.id == id,
        b@[i].tx.id == id,
        forall|j: int| 0 <= j < a@.len() && j != i ==> b@[j] == a@[j],
    ensures
        forall|x: u32| #[trigger] pool_has_id(b@, x) <==> pool_has_id(a@, x),
        forall|x: u32| x != id ==> #[trigger] b.marks_of(x) == a.marks_of(x),
{
    assert forall|x: u32| #[trigger] pool_has_id(b@, x) <==> pool_has_id(a@, x) by {
        if pool_has_id(b@, x) {
            let w = choose|w: int| 0 <= w < b@.len() && b@[w].tx.id == x;
            if w == i {
                assert(a@[i].tx.id == x);
            } else {
                assert(a@[w].tx.id == x);
            }
        }
        if pool_has_id(a@, x) {
            let w = choose|w: int| 0 <= w < a@.len() && a@[w].tx.id == x;
            if w == i {
                assert(b@[i].tx.id == x);
            } else {
                assert(b@[w].tx.id == x);
            }
        }
    };
    assert forall|x: u32| x != id implies #[trigger] b.marks_of(x) == a.marks_of(x) by {
        if pool_has_id(a@, x) {
            let wa = a.idx_of(x);
            let wb = b.idx_of(x);
            assert(a@[wa].tx.id == x);
            assert(b@[wb].tx.id == x);
            assert(wa != i);
            assert(wb != i);
            assert(b@[wa].tx.id == x);
            assert(wb == wa);
        }
    };
}

/// After appending the entry of a fresh id, every other id reads as before.
proof fn lemma_pool_frame_push(a: WaitingPool, b: WaitingPool, id: u32)
    requires
        a.wf(),
        b.wf(),
        b@.len() == a@.len() + 1,
        b@[a@.len() as int].tx.id == id,
        !pool_has_id(a@, id),
        forall|j: int| 0 <= j < a@.len() ==> b@[j] == a@[j],
    ensures
        forall|x: u32| #[trigger] pool_has_id(b@, x) <==> pool_has_id(a@, x) || x == id,
        forall|x: u32| x != id ==> #[trigger] b.marks_of(x) == a.marks_of(x),
{
    let n = a@.len() as int;
    assert forall|x: u32| #[trigger] pool_has_id(b@, x) <==> (pool_has_id(a@, x) || x == id) by {
        if pool_has_id(b@, x) {
            let w = choose|w: int| 0 <= w < b@.len() && b@[w].tx.id == x;
            if w < n {
                assert(a@[w].tx.id == x);
            }
        }
        if pool_has_id(a@, x) {
            let w = choose|w: int| 0 <= w < a@.len() && a@[w].tx.id == x;
            assert(b@[w].tx.id == x);
        }
        if x == id {
            assert(b@[n].tx.id == x);
        }
    };
    assert forall|x: u32| x != id implies #[trigger] b.marks_of(x) == a.marks_of(x) by {
        if pool_has_id(a@, x) {
            let wa = a.idx_of(x);
            let wb = b.idx_of(x);
            assert(a@[wa].tx.id == x);
            assert(b@[wb].tx.id == x);
            assert(wb < n);
            assert(b@[wa].tx.id == x);
            assert(wb == wa);
        }
    };
}

/// After removing the entry of one id, every other id reads as before.
proof fn lemma_pool_frame_remove(a: WaitingPool, b: WaitingPool, id: u32, i: int)
    requires
        a.wf(),
        b.wf(),
        0 <= i < a@.len(),
        b@ == a@.remove(i),
        a@[i].tx.id == id,
    ensures
        forall|x: u32|
            x != id ==> (#[trigger] pool_has_id(b@, x) <==> pool_has_id(a@, x)),
        forall|x: u32| x != id ==> #[trigger] b.marks_of(x) == a.marks_of(x),
{
    assert forall|x: u32| x != id implies (#[trigger] pool_has_id(b@, x) <==> pool_has_id(
        a@,
        x,
    )) by {
        if pool_has_id(b@, x) {
            let w = choose|w: int| 0 <= w < b@.len() && b@[w].tx.id == x;
            if w < i {
                assert(a@[w].tx.id == x);
            } else {
                assert(a@[w + 1].tx.id == x);
            }
        }
        if pool_has_id(a@, x) {
            let w = choose|w: int| 0 <= w < a@.len() && a@[w].tx.id == x;
            assert(w != i);
            if w < i {
                assert(b@[w].tx.id == x);
            } else {
                assert(b@[w - 1].tx.id == x);
            }
        }
    };
    assert forall|x: u32| x != id implies #[trigger] b.marks_of(x) == a.marks_of(x) by {
        if pool_has_id(a@, x) {
            let wa = a.idx_of(x);
            assert(a@[wa].tx.id == x);
            assert(wa != i);
            let wb = b.idx_of(x);
            assert(pool_has_id(b@, x));
            assert(b@[wb].tx.id == x);
            if wa < i {
                assert(b@[wa] == a@[wa]);
                assert(wb == wa || b@[wb] == a@[wb]);
                if wb >= i {
                    assert(b@[wb] == a@[wb + 1]);
                    assert(a@[wb + 1].tx.id == x);
                    assert(false);
                }
                assert(b@[wb] == a@[wb]);
                assert(wb == wa);
                assert(b.marks_of(x) == a.marks_of(x));
            } else {
                assert(b@[wa - 1] == a@[wa]);
                if wb < i {
                    assert(b@[wb] == a@[wb]);
                    assert(a@[wb].tx.id == x);
                    assert(false);
                }
                assert(b@[wb] == a@[wb + 1]);
                assert(wb + 1 == wa);
                assert(b.marks_of(x) == a.marks_of(x));
            }
        }
    };
}

} // verus!
