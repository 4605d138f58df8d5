use vstd::prelude::*;

verus! {

/// Identifier of a committee of validators. A validator belongs to exactly
/// one shard for its lifetime; a transaction names every shard it touches.
#[derive(Clone, Copy, Debug, PartialEq, Eq, Hash, Structural)]
pub struct Shard(pub u32);

/// A transaction: a monotonic id, the non-empty set of shards whose state it
/// touches, and the fee that orders it inside the mempools.
#[derive(Debug)]
pub struct Transaction {
    pub id: u32,
    pub shards: Vec<Shard>,
    pub effective_fee: u32,
}

/// Mathematical model of a transaction.
#[verifier::ext_equal]
pub ghost struct TxView {
    pub id: u32,
    pub shards: Seq<Shard>,
    pub effective_fee: u32,
}

impl View for Transaction {
    type V = TxView;

    open spec fn view(&self) -> TxView {
        TxView { id: self.id, shards: self.shards@, effective_fee: self.effective_fee }
    }
}

/// Mempool priority order: by fee, ties broken by id ascending.
pub open spec fn tx_le(a: TxView, b: TxView) -> bool {
    a.effective_fee < b.effective_fee || (a.effective_fee == b.effective_fee && a.id <= b.id)
}

/// The view of a sequence of transactions.
pub open spec fn txs_view(s: Seq<Transaction>) -> Seq<TxView> {
    s.map_values(|t: Transaction| t@)
}

/// Whether some transaction in `s` carries the id.
pub open spec fn seq_has_tx_id(s: Seq<TxView>, id: u32) -> bool {
    exists|i: int| 0 <= i < s.len() && s[i].id == id
}

impl Transaction {
    /// Whether this transaction touches the given shard.
    pub fn involves_shard(&self, shard: Shard) -> (r: bool)
        ensures
            r == self@.shards.contains(shard),
    {
        let mut i: usize = 0;
        while i < self.shards.len()
            invariant
                i <= self.shards@.len(),
                forall|j: int| 0 <= j < i ==> self.shards@[j] != shard,
            decreases self.shards@.len() - i,
        {
            if self.shards[i] == shard {
                return true;
            }
            i = i + 1;
        }
        false
    }
}

impl Clone for Transaction {
    fn clone(&self) -> (res: Self)
        ensures
            res@ == self@,
    {
        let mut shards: Vec<Shard> = Vec::new();
        let mut i: usize = 0;
        while i < self.shards.len()
            invariant
                i <= self.shards@.len(),
                shards@ == self.shards@.take(i as int),
            decreases self.shards@.len() - i,
        {
            shards.push(self.shards[i]);
            proof {
                assert(shards@ =~= self.shards@.take(i + 1));
            }
            i = i + 1;
        }
        proof {
            assert(shards@ =~= self.shards@);
        }
        Transaction { id: self.id, shards, effective_fee: self.effective_fee }
    }
}

/// Whether any transaction in `txs` carries the given id.
pub fn txs_contain_id(txs: &Vec<Transaction>, id: u32) -> (r: bool)
    ensures
        r == seq_has_tx_id(txs_view(txs@), id),
{
    let mut i: usize = 0;
    while i < txs.len()
        invariant
            i <= txs@.len(),
            forall|j: int| 0 <= j < i ==> txs_view(txs@)[j].id != id,
        decreases txs@.len() - i,
    {
        if txs[i].id == id {
            assert(txs_view(txs@)[i as int].id == id);
            return true;
        }
        i = i + 1;
    }
    false
}

/// Appending a transaction adds exactly its id to the ids a pool holds.
pub proof fn lemma_has_id_push(s: Seq<TxView>, v: TxView, x: u32)
    ensures
        seq_has_tx_id(s.push(v), x) <==> seq_has_tx_id(s, x) || v.id == x,
{
    if seq_has_tx_id(s.push(v), x) {
        let w = choose|w: int| 0 <= w < s.push(v).len() && s.push(v)[w].id == x;
        if w < s.len() {
            assert(s[w].id == x);
        }
    }
    if seq_has_tx_id(s, x) {
        let w = choose|w: int| 0 <= w < s.len() && s[w].id == x;
        assert(s.push(v)[w].id == x);
    }
    if v.id == x {
        assert(s.push(v)[s.len() as int].id == x);
    }
}

/// A transaction paired with the fee key it is ranked by.
#[derive(Debug)]
pub struct SortableByFeeTransaction {
    pub tx: Transaction,
    pub fee: u32,
}

impl PartialEq for SortableByFeeTransaction {
    fn eq(&self, other: &Self) -> (r: bool)
        ensures
            r == (self.fee == other.fee && self.tx.id == other.tx.id),
    {
        self.fee == other.fee && self.tx.id == other.tx.id
    }
}

impl vstd::std_specs::cmp::PartialEqSpecImpl for SortableByFeeTransaction {
    open spec fn obeys_eq_spec() -> bool {
        true
    }

    open spec fn eq_spec(&self, other: &Self) -> bool {
        self.fee == other.fee && self.tx.id == other.tx.id
    }
}

impl Eq for SortableByFeeTransaction {}

impl PartialOrd for SortableByFeeTransaction {
    fn partial_cmp(&self, other: &Self) -> (r: Option<core::cmp::Ordering>)
    {
        if self.fee < other.fee {
            Some(core::cmp::Ordering::Less)
        } else if self.fee > other.fee {
            Some(core::cmp::Ordering::Greater)
        } else if self.tx.id < other.tx.id {
            Some(core::cmp::Ordering::Less)
        } else if self.tx.id > other.tx.id {
            Some(core::cmp::Ordering::Greater)
        } else {
            Some(core::cmp::Ordering::Equal)
        }
    }
}

impl vstd::std_specs::cmp::PartialOrdSpecImpl for SortableByFeeTransaction {
    open spec fn obeys_partial_cmp_spec() -> bool {
        true
    }

    open spec fn partial_cmp_spec(&self, other: &Self) -> Option<core::cmp::Ordering> {
        if self.fee < other.fee {
            Some(core::cmp::Ordering::Less)
        } else if self.fee > other.fee {
            Some(core::cmp::Ordering::Greater)
        } else if self.tx.id < other.tx.id {
            Some(core::cmp::Ordering::Less)
        } else if self.tx.id > other.tx.id {
            Some(core::cmp::Ordering::Greater)
        } else {
            Some(core::cmp::Ordering::Equal)
        }
    }
}

} // verus!
