use vstd::prelude::*;
use crate::qc::{Qc, QcView};
use crate::transaction::{Shard, Transaction, TxView, txs_view};

verus! {

broadcast use vstd::seq_lib::group_seq_properties;

/// A block of the chain: authored by one committee's leader, carrying the
/// three lifecycle buckets of transactions and the certificate that justifies
/// extending the chain here.
#[derive(Debug)]
pub struct Block {
    pub id: u32,
    pub parent_id: u32,
    pub shard: Shard,
    pub justify: Qc,
    pub height: u32,
    pub proposed_by: u32,
    pub prepare_txs: Vec<Transaction>,
    pub precommit_txs: Vec<Transaction>,
    pub commit_txs: Vec<Transaction>,
}

/// Mathematical model of a block.
#[verifier::ext_equal]
pub ghost struct BlockView {
    pub id: u32,
    pub parent_id: u32,
    pub shard: Shard,
    pub justify: QcView,
    pub height: u32,
    pub proposed_by: u32,
    pub prepare_txs: Seq<TxView>,
    pub precommit_txs: Seq<TxView>,
    pub commit_txs: Seq<TxView>,
}

impl View for Block {
    type V = BlockView;

    open spec fn view(&self) -> BlockView {
        BlockView {
            id: self.id,
            parent_id: self.parent_id,
            shard: self.shard,
            justify: self.justify@,
            height: self.height,
            proposed_by: self.proposed_by,
            prepare_txs: txs_view(self.prepare_txs@),
            precommit_txs: txs_view(self.precommit_txs@),
            commit_txs: txs_view(self.commit_txs@),
        }
    }
}

/// The model of the genesis block: id 0, its own parent, justified by the
/// genesis certificate.
pub open spec fn genesis_block_view() -> BlockView {
    BlockView {
        id: 0,
        parent_id: 0,
        shard: Shard(0),
        justify: QcView { id: 0, block_id: 0, votes: Seq::<u32>::empty(), block_height: 0 },
        height: 0,
        proposed_by: 0,
        prepare_txs: Seq::<TxView>::empty(),
        precommit_txs: Seq::<TxView>::empty(),
        commit_txs: Seq::<TxView>::empty(),
    }
}

/// Whether some transaction of `txs` touches shard `s`.
pub open spec fn txs_touch(txs: Seq<TxView>, s: Shard) -> bool {
    exists|i: int| 0 <= i < txs.len() && txs[i].shards.contains(s)
}

/// Whether shard `s` is involved in block `b`: some transaction of the
/// prepare or precommit bucket touches it.
pub open spec fn involved(b: BlockView, s: Shard) -> bool {
    txs_touch(b.prepare_txs, s) || txs_touch(b.precommit_txs, s)
}

/// Whether `v` holds the given shard.
pub fn shards_contain(v: &Vec<Shard>, s: Shard) -> (r: bool)
    ensures
        r == v@.contains(s),
{
    let mut i: usize = 0;
    while i < v.len()
        invariant
            i <= v@.len(),
            forall|j: int| 0 <= j < i ==> v@[j] != s,
        decreases v@.len() - i,
    {
        if v[i] == s {
            return true;
        }
        i = i + 1;
    }
    false
}

/// Add to `acc` every shard of every transaction of `txs` that it does not
/// hold yet, never introducing a duplicate.
fn collect_tx_shards(acc: &mut Vec<Shard>, txs: &Vec<Transaction>)
    requires
        forall|i: int, j: int| 0 <= i < j < old(acc)@.len() ==> old(acc)@[i] != old(acc)@[j],
    ensures
        forall|i: int, j: int| 0 <= i < j < final(acc)@.len() ==> final(acc)@[i] != final(acc)@[j],
        forall|s: Shard|
            final(acc)@.contains(s) <==> old(acc)@.contains(s) || txs_touch(txs_view(txs@), s),
{
    let ghost all: Seq<TxView> = txs_view(txs@);
    let mut t: usize = 0;
    while t < txs.len()
        invariant
            t <= txs@.len(),
            all == txs_view(txs@),
            forall|p: int, q: int| 0 <= p < q < acc@.len() ==> acc@[p] != acc@[q],
            forall|s: Shard| #[trigger]
                acc@.contains(s) ==> old(acc)@.contains(s) || exists|k: int|
                    0 <= k < t && all[k].shards.contains(s),
            forall|s: Shard| old(acc)@.contains(s) ==> #[trigger] acc@.contains(s),
            forall|k: int, s: Shard|
                0 <= k < t && #[trigger] all[k].shards.contains(s) ==> acc@.contains(s),
        decreases txs@.len() - t,
    {
        let tx = &txs[t];
        let ghost acc_entry: Seq<Shard> = acc@;
        let mut i: usize = 0;
        while i < tx.shards.len()
            invariant
                i <= tx.shards@.len(),
                forall|p: int, q: int| 0 <= p < q < acc@.len() ==> acc@[p] != acc@[q],
                forall|s: Shard| #[trigger]
                    acc@.contains(s) ==> acc_entry.contains(s) || exists|k: int|
                        0 <= k < i && tx.shards@[k] == s,
                forall|s: Shard| acc_entry.contains(s) ==> #[trigger] acc@.contains(s),
                forall|k: int| 0 <= k < i ==> acc@.contains(#[trigger] tx.shards@[k]),
            decreases tx.shards@.len() - i,
        {
            let s = tx.shards[i];
            let ghost acc_prev: Seq<Shard> = acc@;
            if !shards_contain(acc, s) {
                acc.push(s);
                proof {
                    assert forall|x: Shard| #[trigger]
                        acc@.contains(x) implies (acc_prev.contains(x) || x == s) by {
                        assert(acc_prev.push(s).contains(x) <==> s == x || acc_prev.contains(x));
                    };
                    assert forall|x: Shard| acc_prev.contains(x) implies #[trigger]
                        acc@.contains(x) by {
                        assert(acc_prev.push(s).contains(x) <==> s == x || acc_prev.contains(x));
                    };
                    assert(acc@.contains(s));
                }
            }
            i = i + 1;
        }
        proof {
            assert(all[t as int] == txs@[t as int]@);
            assert(all[t as int].shards == tx.shards@);
            assert forall|s: Shard| #[trigger]
                acc@.contains(s) implies (old(acc)@.contains(s) || exists|k: int|
                0 <= k < t + 1 && all[k].shards.contains(s)) by {
                if !old(acc)@.contains(s) && !acc_entry.contains(s) {
                    let k = choose|k: int| 0 <= k < i && tx.shards@[k] == s;
                    assert(all[t as int].shards[k] == s);
                    assert(all[t as int].shards.contains(s));
                }
            };
            assert forall|k: int, s: Shard|
                0 <= k < t + 1 && #[trigger] all[k].shards.contains(s) implies acc@.contains(
                s,
            ) by {
                if k == t {
                    let j = choose|j: int| 0 <= j < tx.shards@.len() && tx.shards@[j] == s;
                    assert(acc@.contains(tx.shards@[j]));
                } else {
                    assert(acc_entry.contains(s));
                }
            };
        }
        t = t + 1;
    }
    proof {
        assert forall|s: Shard|
            acc@.contains(s) <==> (old(acc)@.contains(s) || txs_touch(txs_view(txs@), s)) by {
            if txs_touch(all, s) {
                let k = choose|k: int| 0 <= k < all.len() && all[k].shards.contains(s);
                assert(all[k].shards.contains(s));
            }
        };
    }
}

impl Block {
    pub fn new(
        id: u32,
        parent_id: u32,
        shard: Shard,
        justify: Qc,
        height: u32,
        proposed_by: u32,
        prepare_txs: Vec<Transaction>,
        precommit_txs: Vec<Transaction>,
        commit_txs: Vec<Transaction>,
    ) -> (r: Self)
        ensures
            r@ == (BlockView {
                id,
                parent_id,
                shard,
                justify: justify@,
                height,
                proposed_by,
                prepare_txs: txs_view(prepare_txs@),
                precommit_txs: txs_view(precommit_txs@),
                commit_txs: txs_view(commit_txs@),
            }),
    {
        Self {
            id,
            parent_id,
            shard,
            justify,
            height,
            proposed_by,
            prepare_txs,
            precommit_txs,
            commit_txs,
        }
    }

    pub fn genesis() -> (r: Self)
        ensures
            r@ == genesis_block_view(),
    {
        let r = Self {
            id: 0,
            parent_id: 0,
            shard: Shard(0),
            justify: Qc::genesis(),
            height: 0,
            proposed_by: 0,
            prepare_txs: Vec::new(),
            precommit_txs: Vec::new(),
            commit_txs: Vec::new(),
        };
        proof {
            assert(r@ =~= genesis_block_view());
        }
        r
    }

    /// Every shard touched by a transaction of the prepare or precommit
    /// bucket, each exactly once.
    pub fn involved_shards(&self) -> (r: Vec<Shard>)
        ensures
            forall|s: Shard| r@.contains(s) <==> involved(self@, s),
            forall|i: int, j: int| 0 <= i < j < r@.len() ==> r@[i] != r@[j],
    {
        let mut res: Vec<Shard> = Vec::new();
        collect_tx_shards(&mut res, &self.prepare_txs);
        collect_tx_shards(&mut res, &self.precommit_txs);
        res
    }
}

/// Copy a transaction list element by element.
pub fn clone_txs(v: &Vec<Transaction>) -> (r: Vec<Transaction>)
    ensures
        txs_view(r@) == txs_view(v@),
{
    let mut r: Vec<Transaction> = Vec::new();
    let mut i: usize = 0;
    while i < v.len()
        invariant
            i <= v@.len(),
            r@.len() == i,
            forall|j: int| 0 <= j < i ==> #[trigger] r@[j]@ == v@[j]@,
        decreases v@.len() - i,
    {
        r.push(v[i].clone());
        i = i + 1;
    }
    proof {
        assert(txs_view(r@) =~= txs_view(v@));
    }
    r
}

impl Clone for Block {
    fn clone(&self) -> (res: Self)
        ensures
            res@ == self@,
    {
        let res = Block {
            id: self.id,
            parent_id: self.parent_id,
            shard: self.shard,
            justify: self.justify.clone(),
            height: self.height,
            proposed_by: self.proposed_by,
            prepare_txs: clone_txs(&self.prepare_txs),
            precommit_txs: clone_txs(&self.precommit_txs),
            commit_txs: clone_txs(&self.commit_txs),
        };
        proof {
            assert(res@ =~= self@);
        }
        res
    }
}

} // verus!
