use vstd::prelude::*;
use crate::cli::Cli;
use crate::id_provider::IdProvider;
use crate::rng::random_u32;
use crate::transaction::{Shard, Transaction};

verus! {

broadcast use vstd::seq_lib::group_seq_properties;

/// The shard a single random draw selects.
pub open spec fn shard_of_draw(d: u32, ns: u32) -> Shard {
    Shard(((d as int) % (ns as int)) as u32)
}

/// Whether some draw of `draws` selects shard `s`.
pub open spec fn from_some_draw(draws: Seq<u32>, ns: u32, s: Shard) -> bool {
    exists|i: int| 0 <= i < draws.len() && s == shard_of_draw(#[trigger] draws[i], ns)
}

/// Turn random draws into the set of distinct shards they select: exactly
/// one entry per distinct value of `draw % num_shards`, first occurrence
/// first.
fn build_shards(draws: &Vec<u32>, num_shards: u32) -> (r: Vec<Shard>)
    requires
        num_shards >= 1,
        draws@.len() >= 1,
    ensures
        1 <= r@.len() <= draws@.len(),
        forall|i: int, j: int| 0 <= i < j < r@.len() ==> r@[i] != r@[j],
        forall|i: int|
            0 <= i < draws@.len() ==> r@.contains(shard_of_draw(#[trigger] draws@[i], num_shards)),
        forall|j: int|
            0 <= j < r@.len() ==> from_some_draw(draws@, num_shards, #[trigger] r@[j]),
        forall|i: int| 0 <= i < r@.len() ==> (#[trigger] r@[i]).0 < num_shards,
    {
    let mut r: Vec<Shard> = Vec::new();
    let mut i: usize = 0;
    while i < draws.len()
        invariant
            i <= draws@.len(),
            num_shards >= 1,
            r@.len() <= i,
            i >= 1 ==> r@.len() >= 1,
            forall|p: int, q: int| 0 <= p < q < r@.len() ==> r@[p] != r@[q],
            forall|p: int|
                0 <= p < i ==> r@.contains(shard_of_draw(#[trigger] draws@[p], num_shards)),
            forall|j: int|
                0 <= j < r@.len() ==> from_some_draw(draws@, num_shards, #[trigger] r@[j]),
            forall|p: int| 0 <= p < r@.len() ==> (#[trigger] r@[p]).0 < num_shards,
        decreases draws@.len() - i,
    {
        let s = Shard(draws[i] % num_shards);
        proof {
            assert(s == shard_of_draw(draws@[i as int], num_shards));
        }
        if !crate::block::shards_contain(&r, s) {
            let ghost prev = r@;
            r.push(s);
            proof {
                assert forall|p: int, q: int|
                    0 <= p < q < r@.len() implies r@[p] != r@[q] by {
                    if q == prev.len() {
                        assert(r@[q] == s);
                        assert(r@[p] == prev[p]);
                        assert(prev.contains(prev[p]));
                    }
                };
                assert(r@[prev.len() as int] == s);
                assert(r@.contains(s));
                assert forall|p: int|
                    0 <= p < i + 1 implies r@.contains(shard_of_draw(
                    #[trigger] draws@[p],
                    num_shards,
                )) by {
                    if p < i {
                        let w = choose|w: int|
                            0 <= w < prev.len() && prev[w] == shard_of_draw(
                                draws@[p],
                                num_shards,
                            );
                        assert(r@[w] == prev[w]);
                    }
                };
                assert forall|j: int|
                    0 <= j < r@.len() implies from_some_draw(
                    draws@,
                    num_shards,
                    #[trigger] r@[j],
                ) by {
                    if j < prev.len() {
                        assert(r@[j] == prev[j]);
                    } else {
                        assert(r@[j] == shard_of_draw(draws@[i as int], num_shards));
                        assert(from_some_draw(draws@, num_shards, r@[j]));
                    }
                };
            }
        }
        i = i + 1;
    }
    r
}

/// The external producer of transactions: it draws the shard spread of each
/// transaction at random, following the configured probabilities, and stops
/// after the configured count.
pub struct TransactionGenerator {
    pub static_transactions: Vec<Transaction>,
    pub current_index: usize,
    pub num_transactions: usize,
    pub config: Cli,
}

impl TransactionGenerator {
    pub fn new(idp: &mut IdProvider, num_transactions: usize, config: Cli) -> (r: Self)
        ensures
            r.current_index == 0,
            r.num_transactions == num_transactions,
            r.config == config,
    {
        let mut static_transactions: Vec<Transaction> = Vec::new();
        let mut shards01: Vec<Shard> = Vec::new();
        shards01.push(Shard(0));
        shards01.push(Shard(1));
        static_transactions.push(
            Transaction { id: idp.next(), shards: shards01, effective_fee: 1 },
        );
        let mut shards0: Vec<Shard> = Vec::new();
        shards0.push(Shard(0));
        static_transactions.push(Transaction { id: idp.next(), shards: shards0, effective_fee: 2 });
        Self { static_transactions, current_index: 0, num_transactions, config }
    }

    /// The next transaction, or `None` once the configured count has been
    /// produced. The shards are drawn at random; whatever is drawn, a
    /// transaction touches at least one and at most five distinct shards
    /// below the configured shard count, and its fee equals the size of the
    /// drawn spread before deduplication.
    pub fn next(&mut self, idp: &mut IdProvider) -> (r: Option<Transaction>)
        requires
            old(self).config.num_shards >= 1,
        ensures
            r is Some <==> old(self).current_index < old(self).num_transactions,
            r is None ==> *final(self) == *old(self),
            r matches Some(tx) ==> {
                &&& *final(self) == (TransactionGenerator {
                    current_index: final(self).current_index,
                    ..*old(self)
                })
                &&& final(self).current_index == old(self).current_index + 1
                &&& tx@.id == old(idp).next_id
                &&& 1 <= tx@.shards.len() <= 5
                &&& forall|i: int, j: int|
                    0 <= i < j < tx@.shards.len() ==> tx@.shards[i] != tx@.shards[j]
                &&& forall|i: int|
                    0 <= i < tx@.shards.len() ==> (#[trigger] tx@.shards[i]).0 < old(
                        self,
                    ).config.num_shards
                &&& 1 <= tx@.effective_fee <= 5
                &&& tx@.shards.len() <= tx@.effective_fee
            },
    {
        if self.current_index >= self.num_transactions {
            return None;
        }
        self.current_index = self.current_index + 1;
        let ns = self.config.num_shards;
        if random_u32() % 100 < self.config.probability_5_shards {
            let mut draws: Vec<u32> = Vec::new();
            draws.push(random_u32());
            draws.push(random_u32());
            draws.push(random_u32());
            draws.push(random_u32());
            draws.push(random_u32());
            let shards = build_shards(&draws, ns);
            return Some(Transaction { id: idp.next(), shards, effective_fee: 5 });
        }
        if random_u32() % 100 < self.config.probability_2_shards {
            let mut draws: Vec<u32> = Vec::new();
            draws.push(random_u32());
            draws.push(random_u32());
            let shards = build_shards(&draws, ns);
            return Some(Transaction { id: idp.next(), shards, effective_fee: 2 });
        }
        if random_u32() % 100 < self.config.probability_3_shards {
            let mut draws: Vec<u32> = Vec::new();
            draws.push(random_u32());
            draws.push(random_u32());
            draws.push(random_u32());
            let shards = build_shards(&draws, ns);
            return Some(Transaction { id: idp.next(), shards, effective_fee: 3 });
        }
        if random_u32() % 100 < self.config.probability_4_shards {
            let mut draws: Vec<u32> = Vec::new();
            draws.push(random_u32());
            draws.push(random_u32());
            draws.push(random_u32());
            draws.push(random_u32());
            let shards = build_shards(&draws, ns);
            return Some(Transaction { id: idp.next(), shards, effective_fee: 4 });
        }
        // otherwise the transaction stays on a single shard
        let mut draws: Vec<u32> = Vec::new();
        draws.push(random_u32());
        let shards = build_shards(&draws, ns);
        Some(Transaction { id: idp.next(), shards, effective_fee: 1 })
    }
}

} // verus!
