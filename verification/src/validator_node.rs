use vstd::prelude::*;
use crate::block::{Block, genesis_block_view, involved};
use crate::block_store::BlockStore;
use crate::cli::Cli;
use crate::committee_manager::{CommitteeManager, next_leader_spec, quorum, quorum_size};
use crate::id_provider::IdProvider;
use crate::mempool::{FeeMempool, ShardMark, WaitingPool, marks_have_shard, pool_has_id};
use crate::message::{Message, MessageView};
use crate::qc::{Qc, QcView};
use crate::subscriber::{Event, Subscriber};
use crate::transaction::{Shard, Transaction, TxView, tx_le, txs_view, seq_has_tx_id};
use crate::vote_book::VoteBook;

verus! {

broadcast use vstd::seq_lib::group_seq_properties;

/// A sequence of voter ids without repetition.
pub open spec fn distinct_seq(s: Seq<u32>) -> bool {
    forall|p: int, q: int| 0 <= p < q < s.len() ==> s[p] != s[q]
}

/// `v` is a legitimate recipient of a proposal of block `bv` made by a
/// member of `home`'s committee: a member of the home committee, or of the
/// committee of a foreign shard the block involves.
pub open spec fn proposal_recipient(
    cm: CommitteeManager,
    home: Shard,
    bv: crate::block::BlockView,
    v: u32,
) -> bool {
    cm.members_of(home).contains(v) || exists|s: Shard|
        involved(bv, s) && s != home && cm.has_shard(s) && (#[trigger] cm.members_of(s)).contains(
            v,
        )
}

/// The headline numbers of one validator's state, as its status line
/// reports them.
#[derive(Clone, Copy, Debug, PartialEq, Eq, Structural)]
pub struct NodeSummary {
    pub id: u32,
    pub shard: Shard,
    pub current_leader: u32,
    pub current_height: u32,
    pub b_leaf_height: u32,
    pub b_exec_height: u32,
    pub locked_height: u32,
    pub high_qc_height: u32,
    pub new_tx: usize,
    pub prepare_waiting: usize,
    pub prepare_ready: usize,
    pub precommit_waiting: usize,
    pub precommit_ready: usize,
}

/// One validator: the consensus state machine of the HotStuff family,
/// pipelined over three chained phases, with the cross-shard transaction
/// mempools beside it.
pub struct ValidatorNode {
    pub id: u32,
    pub shard: Shard,
    pub incoming_messages: Vec<(u64, Message)>,
    pub current_height: u32,
    pub current_leader: u32,
    pub last_proposed_round: Option<u32>,
    pub config: Cli,
    pub blocks: BlockStore,
    pub b_leaf: Block,
    pub locked_node: Block,
    pub high_qc: Qc,
    pub last_voted_height: u32,
    pub subscriber: Subscriber,
    pub committee_manager: CommitteeManager,
    pub votes: VoteBook,
    pub time_last_proposal_received: u64,
    pub b_exec: Block,
    /// Messages put aside until the block id they miss arrives:
    /// `(missing block id, arrival time, message)`.
    pub snoozed_messages: Vec<(u32, u64, Message)>,
    pub base_latency: u64,
    pub new_view_votes: VoteBook,
    pub new_tx_mempool: FeeMempool,
    pub waiting_prepared_mempool: WaitingPool,
    pub ready_prepared_mempool: FeeMempool,
    pub waiting_pre_committed_mempool: WaitingPool,
    pub ready_pre_committed_mempool: FeeMempool,
    /// Every transaction id ever observed in the prepare bucket of a
    /// certified or foreign block.
    pub prepared_seen: Ghost<Set<u32>>,
    /// Every transaction id ever observed in the precommit bucket of a
    /// certified block.
    pub precommitted_seen: Ghost<Set<u32>>,
    /// Every quorum certificate this validator has formed, in order.
    pub formed_qcs: Ghost<Seq<QcView>>,
}

impl ValidatorNode {
    /// The size of this validator's committee.
    pub open spec fn committee_n(self) -> int {
        self.committee_manager.members_of(self.shard).len() as int
    }

    /// A transaction sits in at most one ready mempool at a time.
    pub open spec fn ready_exclusive(self) -> bool {
        forall|id: u32|
            !(seq_has_tx_id(self.ready_prepared_mempool@, id) && seq_has_tx_id(
                self.ready_pre_committed_mempool@,
                id,
            ))
    }

    /// Every transaction a mempool holds was observed in the matching
    /// lifecycle bucket of some block.
    pub open spec fn lifecycle_tracked(self) -> bool {
        &&& forall|id: u32| #[trigger]
            seq_has_tx_id(self.ready_prepared_mempool@, id) ==> self.prepared_seen@.contains(id)
        &&& forall|id: u32| #[trigger]
            pool_has_id(self.waiting_prepared_mempool@, id) ==> self.prepared_seen@.contains(id)
        &&& forall|id: u32| #[trigger]
            seq_has_tx_id(self.ready_pre_committed_mempool@, id)
                ==> self.precommitted_seen@.contains(id)
        &&& forall|id: u32| #[trigger]
            pool_has_id(self.waiting_pre_committed_mempool@, id)
                ==> self.precommitted_seen@.contains(id)
    }

    /// Every certificate this validator formed carries a quorum of distinct
    /// votes, and no block ever received two of them.
    pub open spec fn qc_history_ok(self) -> bool {
        &&& forall|i: int|
            0 <= i < self.formed_qcs@.len() ==> (#[trigger] self.formed_qcs@[i]).votes.len()
                >= quorum(self.committee_n())
        &&& forall|i: int|
            0 <= i < self.formed_qcs@.len() ==> distinct_seq(
                (#[trigger] self.formed_qcs@[i]).votes,
            )
        &&& forall|i: int|
            0 <= i < self.formed_qcs@.len() ==> self.votes.voters_of(
                (#[trigger] self.formed_qcs@[i]).block_id,
            ).len() >= quorum(self.committee_n())
        &&& forall|i: int, j: int|
            0 <= i < j < self.formed_qcs@.len() ==> self.formed_qcs@[i].block_id
                != self.formed_qcs@[j].block_id
    }

    pub open spec fn wf(self) -> bool {
        &&& self.committee_manager.wf()
        &&& self.committee_manager.has_committee(self.shard)
        &&& self.blocks.wf()
        &&& self.votes.wf()
        &&& self.new_view_votes.wf()
        &&& self.waiting_prepared_mempool.wf()
        &&& self.waiting_pre_committed_mempool.wf()
        &&& self.subscriber.wf()
        &&& self.ready_exclusive()
        &&& self.lifecycle_tracked()
        &&& self.qc_history_ok()
    }

    pub fn new(
        id: u32,
        shard: Shard,
        config: Cli,
        genesis: Block,
        committee_manager: CommitteeManager,
        subscriber: Subscriber,
        base_latency: u64,
    ) -> (r: Self)
        requires
            committee_manager.wf(),
            committee_manager.has_committee(shard),
            subscriber.wf(),
            genesis@ == genesis_block_view(),
        ensures
            r.wf(),
            r.id == id,
            r.shard == shard,
            r.config == config,
            r.committee_manager == committee_manager,
            r.subscriber == subscriber,
            r.base_latency == base_latency,
            r.current_height == 0,
            r.current_leader == 0,
            r.last_proposed_round is None,
            r.last_voted_height == 0,
            r.time_last_proposal_received == 0,
            r.incoming_messages@.len() == 0,
            r.b_leaf@ == genesis_block_view(),
            r.locked_node@ == genesis_block_view(),
            r.b_exec@ == genesis_block_view(),
            r.high_qc@ == genesis_block_view().justify,
            r.blocks.has_block(0),
            r.blocks.spec_get(0) == genesis_block_view(),
            forall|x: u32| #[trigger] r.blocks.has_block(x) ==> x == 0,
            r.new_tx_mempool@.len() == 0,
            r.ready_prepared_mempool@.len() == 0,
            r.ready_pre_committed_mempool@.len() == 0,
            r.waiting_prepared_mempool@.len() == 0,
            r.waiting_pre_committed_mempool@.len() == 0,
            r.snoozed_messages@.len() == 0,
            r.prepared_seen@ == Set::<u32>::empty(),
            r.precommitted_seen@ == Set::<u32>::empty(),
            r.formed_qcs@ == Seq::<QcView>::empty(),
            forall|k: u32| #[trigger] r.votes.voters_of(k) == Seq::<u32>::empty(),
            forall|k: u32| #[trigger] r.new_view_votes.voters_of(k) == Seq::<u32>::empty(),
    {
        let high_qc = genesis.justify.clone();
        let b_leaf = genesis.clone();
        let locked_node = genesis.clone();
        let b_exec = genesis.clone();
        let ghost gv = genesis@;
        let blocks = BlockStore::new(genesis);
        let r = Self {
            id,
            shard,
            incoming_messages: Vec::new(),
            current_height: 0,
            current_leader: 0,
            last_proposed_round: None,
            config,
            blocks,
            b_leaf,
            locked_node,
            high_qc,
            last_voted_height: 0,
            subscriber,
            committee_manager,
            votes: VoteBook::new(),
            time_last_proposal_received: 0,
            b_exec,
            snoozed_messages: Vec::new(),
            base_latency,
            new_view_votes: VoteBook::new(),
            new_tx_mempool: FeeMempool::new(),
            waiting_prepared_mempool: WaitingPool::new(),
            ready_prepared_mempool: FeeMempool::new(),
            waiting_pre_committed_mempool: WaitingPool::new(),
            ready_pre_committed_mempool: FeeMempool::new(),
            prepared_seen: Ghost(Set::<u32>::empty()),
            precommitted_seen: Ghost(Set::<u32>::empty()),
            formed_qcs: Ghost(Seq::<QcView>::empty()),
        };
        proof {
            assert(r.blocks.has_block(0)) by {
                assert(gv.id == 0);
            };
        }
        r
    }

    /// Accept a transaction of this validator's shard into the fresh-
    /// transaction mempool; one of another shard is dropped.
    pub fn add_transaction(&mut self, transaction: Transaction, at_time: u64)
        requires
            old(self).wf(),
        ensures
            final(self).wf(),
            transaction@.shards.contains(old(self).shard) ==> *final(self) == (ValidatorNode {
                new_tx_mempool: final(self).new_tx_mempool,
                ..*old(self)
            }) && final(self).new_tx_mempool@ == old(self).new_tx_mempool@.push(transaction@),
            !transaction@.shards.contains(old(self).shard) ==> *final(self) == *old(self),
    {
        if transaction.involves_shard(self.shard) {
            self.new_tx_mempool.push(transaction);
        }
        // a transaction of a foreign shard is logged and dropped by the
        // program around the library
    }

    /// Queue a message for the next `update`.
    pub fn deliver_message(&mut self, message: Message, at_time: u64)
        ensures
            *final(self) == (ValidatorNode {
                incoming_messages: final(self).incoming_messages,
                ..*old(self)
            }),
            final(self).incoming_messages@.len() == old(self).incoming_messages@.len() + 1,
            forall|i: int|
                0 <= i < old(self).incoming_messages@.len() ==> final(self).incoming_messages@[i]
                    == old(self).incoming_messages@[i],
            final(self).incoming_messages@[old(self).incoming_messages@.len() as int].0 == at_time,
            final(self).incoming_messages@[old(self).incoming_messages@.len() as int].1@
                == message@,
    {
        self.incoming_messages.push((at_time, message));
    }

    /// Whether `block` directly extends `ancestor`.
    pub fn does_extend(&self, block: &Block, ancestor: &Block) -> (r: bool)
        ensures
            r == (block@.parent_id == ancestor@.id),
    {
        block.parent_id == ancestor.id
    }

    /// Adopt `qc` as the highest certificate when it certifies a greater
    /// height and its block is known; the proposal tip follows it.
    pub fn update_high_qc(&mut self, qc: Qc)
        requires
            old(self).wf(),
        ensures
            final(self).wf(),
            *final(self) == (ValidatorNode {
                b_leaf: final(self).b_leaf,
                high_qc: final(self).high_qc,
                ..*old(self)
            }),
            qc@.block_height > old(self).high_qc@.block_height && old(self).blocks.has_block(
                qc@.block_id,
            ) ==> final(self).high_qc@ == qc@ && final(self).b_leaf@ == old(self).blocks.spec_get(
                qc@.block_id,
            ),
            !(qc@.block_height > old(self).high_qc@.block_height && old(self).blocks.has_block(
                qc@.block_id,
            )) ==> final(self).high_qc == old(self).high_qc && final(self).b_leaf == old(self).b_leaf,
            final(self).high_qc@.block_height >= old(self).high_qc@.block_height,
    {
        if qc.block_height > self.high_qc.block_height {
            let found = match self.blocks.get(qc.block_id) {
                Some(node) => {
                    let b = node.clone();
                    Some(b)
                },
                None => None,
            };
            // a certificate for an unknown block cannot move the tip
            if let Some(b) = found {
                self.b_leaf = b;
                self.high_qc = qc;
            }
        }
    }

    /// Walk the parent chain from `block` down to the executed tip. The
    /// commit effects themselves are published in `apply_qc`; this walk only
    /// mirrors the traversal, so the state is untouched.
    pub fn on_commit(&mut self, block: &Block)
        requires
            old(self).wf(),
        ensures
            *final(self) == *old(self),
    {
        let mut cur: Block = block.clone();
        while self.b_exec.height < cur.height
            invariant
                *self == *old(self),
                old(self).wf(),
            decreases cur.height,
        {
            let next = match self.blocks.get(cur.parent_id) {
                Some(p) => {
                    if p.height < cur.height {
                        Some(p.clone())
                    } else {
                        None
                    }
                },
                None => None,
            };
            match next {
                Some(p) => {
                    cur = p;
                },
                None => {
                    return;
                },
            }
        }
    }

    /// Reclassify one transaction of a certified block's prepare bucket
    /// (spec of the prepare half of the lifecycle): a single-shard local
    /// transaction becomes ready at once; a cross-shard one accumulates this
    /// shard's evidence and becomes ready when every shard has evidenced it.
    fn process_prepared_tx(&mut self, tx: &Transaction, qc: &Qc, t: u64, justified_block_id: u32)
        requires
            old(self).wf(),
        ensures
            final(self).wf(),
            *final(self) == (ValidatorNode {
                ready_prepared_mempool: final(self).ready_prepared_mempool,
                waiting_prepared_mempool: final(self).waiting_prepared_mempool,
                subscriber: final(self).subscriber,
                prepared_seen: final(self).prepared_seen,
                ..*old(self)
            }),
            final(self).prepared_seen@ == old(self).prepared_seen@.insert(tx.id),
            crate::subscriber::extends_events(
                old(self).subscriber.events@,
                final(self).subscriber.events@,
            ),
            final(self).subscriber.stats@ == old(self).subscriber.stats@,
            forall|e: int|
                old(self).subscriber.events@.len() <= e < final(self).subscriber.events@.len()
                    ==> !crate::subscriber::is_commit_event(#[trigger] final(self).subscriber.events@[e]),
            final(self).ready_prepared_mempool@ == old(self).ready_prepared_mempool@ || final(self).ready_prepared_mempool@ == old(self).ready_prepared_mempool@.push(tx@),
            forall|x: u32| #[trigger]
                pool_has_id(final(self).waiting_prepared_mempool@, x) ==> pool_has_id(
                    old(self).waiting_prepared_mempool@,
                    x,
                ) || x == tx.id,
            tx@.shards.len() == 1 && tx@.shards.contains(old(self).shard) ==> seq_has_tx_id(
                final(self).ready_prepared_mempool@,
                tx.id,
            ) || seq_has_tx_id(old(self).ready_pre_committed_mempool@, tx.id),
            forall|x: u32|
                x != tx.id ==> #[trigger] final(self).waiting_prepared_mempool.marks_of(x) == old(self).waiting_prepared_mempool.marks_of(x),
            forall|x: u32|
                x != tx.id ==> (#[trigger] pool_has_id(final(self).waiting_prepared_mempool@, x)
                    <==> pool_has_id(old(self).waiting_prepared_mempool@, x)),
            // the exact routing of this transaction
            ({
                let had = pool_has_id(old(self).waiting_prepared_mempool@, tx.id);
                let m_old = old(self).waiting_prepared_mempool.marks_of(tx.id);
                let marked = marks_have_shard(m_old, old(self).shard);
                let cnt = if !had {
                    1int
                } else if marked {
                    m_old.len() as int
                } else {
                    m_old.len() as int + 1
                };
                let in_pools = seq_has_tx_id(old(self).ready_prepared_mempool@, tx.id)
                    || seq_has_tx_id(old(self).ready_pre_committed_mempool@, tx.id);
                let single_local = tx@.shards.len() == 1 && tx@.shards.contains(old(self).shard);
                &&& in_pools ==> final(self).ready_prepared_mempool@ == old(self).ready_prepared_mempool@ && final(self).waiting_prepared_mempool == old(self).waiting_prepared_mempool && final(self).subscriber == old(self).subscriber
                &&& single_local && !in_pools ==> final(self).ready_prepared_mempool@ == old(self).ready_prepared_mempool@.push(tx@) && final(self).waiting_prepared_mempool == old(self).waiting_prepared_mempool && final(self).subscriber.events@ == old(self).subscriber.events@.push(
                    Event::TransactionPreparedReady {
                        tx_id: tx.id,
                        shard: old(self).shard,
                        qc_id: qc@.id,
                        t,
                    },
                )
                &&& !single_local && !in_pools && cnt == tx@.shards.len() ==> !pool_has_id(
                    final(self).waiting_prepared_mempool@,
                    tx.id,
                ) && final(self).ready_prepared_mempool@ == old(self).ready_prepared_mempool@.push(tx@) && final(self).subscriber.events@ == old(self).subscriber.events@.push(
                    Event::TransactionPreparedReady {
                        tx_id: tx.id,
                        shard: old(self).shard,
                        qc_id: qc@.id,
                        t,
                    },
                )
                &&& !single_local && !in_pools && cnt != tx@.shards.len() ==> pool_has_id(
                    final(self).waiting_prepared_mempool@,
                    tx.id,
                ) && final(self).waiting_prepared_mempool.marks_of(tx.id) == (if !had {
                    seq![ShardMark { shard: old(self).shard, block_id: justified_block_id }]
                } else if marked {
                    m_old
                } else {
                    m_old.push(ShardMark { shard: old(self).shard, block_id: justified_block_id })
                }) && final(self).ready_prepared_mempool@ == old(self).ready_prepared_mempool@
                    && final(self).subscriber.events@ == old(self).subscriber.events@.push(
                    Event::TransactionPreparedWaiting {
                        tx_id: tx.id,
                        shard: old(self).shard,
                        qc_id: qc@.id,
                        t,
                    },
                )
            }),
    {
        let id = tx.id;
        proof {
            self.prepared_seen@ = self.prepared_seen@.insert(id);
            assert(self.wf());
        }
        let single = tx.shards.len() == 1;
        let local = tx.involves_shard(self.shard);
        if single && local {
            if !self.ready_prepared_mempool.contains_id(id)
                && !self.ready_pre_committed_mempool.contains_id(id) {
                let ghost mid = *self;
                let ghost pool0 = self.ready_prepared_mempool@;
                self.ready_prepared_mempool.push(tx.clone());
                self.subscriber.on_transaction_prepared_ready(id, self.shard, qc.id, t);
                proof {
                    lemma_ready_prepared_push_wf(mid, *self, tx@);
                }
            }
        } else {
            if !self.ready_prepared_mempool.contains_id(id)
                && !self.ready_pre_committed_mempool.contains_id(id) {
                let cnt = self.waiting_prepared_mempool.register_mark(
                    tx,
                    self.shard,
                    justified_block_id,
                );
                proof {
                    assert(self.wf());
                }
                if cnt == tx.shards.len() {
                    self.waiting_prepared_mempool.remove(id);
                    let ghost mid = *self;
                    self.ready_prepared_mempool.push(tx.clone());
                    self.subscriber.on_transaction_prepared_ready(id, self.shard, qc.id, t);
                    proof {
                        lemma_ready_prepared_push_wf(mid, *self, tx@);
                    }
                } else {
                    self.subscriber.on_transaction_prepared_waiting(id, self.shard, qc.id, t);
                }
            }
        }
    }

    /// The prepare half of certified-block ingestion: reclassify every
    /// transaction of the certified block's prepare bucket.
    fn apply_prepare_phase(&mut self, qc: &Qc, t: u64, justified_node: &Block)
        requires
            old(self).wf(),
        ensures
            final(self).wf(),
            *final(self) == (ValidatorNode {
                ready_prepared_mempool: final(self).ready_prepared_mempool,
                waiting_prepared_mempool: final(self).waiting_prepared_mempool,
                subscriber: final(self).subscriber,
                prepared_seen: final(self).prepared_seen,
                ..*old(self)
            }),
            old(self).prepared_seen@.subset_of(final(self).prepared_seen@),
            forall|i: int|
                0 <= i < justified_node@.prepare_txs.len() ==> final(self).prepared_seen@.contains(
                    (#[trigger] justified_node@.prepare_txs[i]).id,
                ),
            crate::subscriber::extends_events(
                old(self).subscriber.events@,
                final(self).subscriber.events@,
            ),
            final(self).subscriber.stats@ == old(self).subscriber.stats@,
            forall|e: int|
                old(self).subscriber.events@.len() <= e < final(self).subscriber.events@.len()
                    ==> !crate::subscriber::is_commit_event(#[trigger] final(self).subscriber.events@[e]),
            forall|x: u32| #[trigger]
                pool_has_id(final(self).waiting_prepared_mempool@, x) ==> pool_has_id(
                    old(self).waiting_prepared_mempool@,
                    x,
                ) || seq_has_tx_id(justified_node@.prepare_txs, x),
            forall|x: u32| #[trigger]
                seq_has_tx_id(final(self).ready_prepared_mempool@, x) ==> seq_has_tx_id(
                    old(self).ready_prepared_mempool@,
                    x,
                ) || seq_has_tx_id(justified_node@.prepare_txs, x),
            // a single-shard local transaction of the bucket is ready at
            // once (unless the later phase already holds it)
            forall|i: int|
                0 <= i < justified_node@.prepare_txs.len() && (#[trigger] justified_node@.prepare_txs[i]).shards.len() == 1 && justified_node@.prepare_txs[i].shards.contains(old(self).shard)
                    ==> seq_has_tx_id(
                    final(self).ready_prepared_mempool@,
                    justified_node@.prepare_txs[i].id,
                ) || seq_has_tx_id(
                    old(self).ready_pre_committed_mempool@,
                    justified_node@.prepare_txs[i].id,
                ),
    {
        let mut i: usize = 0;
        let n = justified_node.prepare_txs.len();
        while i < n
            invariant
                i <= n,
                n == justified_node@.prepare_txs.len(),
                self.wf(),
                *self == (ValidatorNode {
                    ready_prepared_mempool: self.ready_prepared_mempool,
                    waiting_prepared_mempool: self.waiting_prepared_mempool,
                    subscriber: self.subscriber,
                    prepared_seen: self.prepared_seen,
                    ..*old(self)
                }),
                old(self).prepared_seen@.subset_of(self.prepared_seen@),
                forall|j: int|
                    0 <= j < i ==> self.prepared_seen@.contains(
                        (#[trigger] justified_node@.prepare_txs[j]).id,
                    ),
                crate::subscriber::extends_events(
                    old(self).subscriber.events@,
                    self.subscriber.events@,
                ),
                self.subscriber.stats@ == old(self).subscriber.stats@,
                forall|x: u32| #[trigger]
                    pool_has_id(self.waiting_prepared_mempool@, x) ==> pool_has_id(
                        old(self).waiting_prepared_mempool@,
                        x,
                    ) || seq_has_tx_id(justified_node@.prepare_txs, x),
                forall|x: u32| #[trigger]
                    seq_has_tx_id(self.ready_prepared_mempool@, x) ==> seq_has_tx_id(
                        old(self).ready_prepared_mempool@,
                        x,
                    ) || seq_has_tx_id(justified_node@.prepare_txs, x),
                forall|e: int|
                    old(self).subscriber.events@.len() <= e < self.subscriber.events@.len()
                        ==> !crate::subscriber::is_commit_event(#[trigger] self.subscriber.events@[e]),
                self.ready_pre_committed_mempool == old(self).ready_pre_committed_mempool,
                forall|j: int|
                    0 <= j < i && (#[trigger] justified_node@.prepare_txs[j]).shards.len() == 1 && justified_node@.prepare_txs[j].shards.contains(old(self).shard)
                        ==> seq_has_tx_id(
                        self.ready_prepared_mempool@,
                        justified_node@.prepare_txs[j].id,
                    ) || seq_has_tx_id(
                        old(self).ready_pre_committed_mempool@,
                        justified_node@.prepare_txs[j].id,
                    ),
            decreases n - i,
        {
            let tx = &justified_node.prepare_txs[i];
            let ghost pre = *self;
            self.process_prepared_tx(tx, qc, t, justified_node.id);
            proof {
                assert(tx@ == justified_node@.prepare_txs[i as int]);
                assert(seq_has_tx_id(justified_node@.prepare_txs, tx.id)) by {
                    assert(justified_node@.prepare_txs[i as int].id == tx.id);
                };
                if self.ready_prepared_mempool@ == pre.ready_prepared_mempool@.push(tx@) {
                    assert forall|x: u32| #[trigger]
                        seq_has_tx_id(self.ready_prepared_mempool@, x) implies (seq_has_tx_id(
                        old(self).ready_prepared_mempool@,
                        x,
                    ) || seq_has_tx_id(justified_node@.prepare_txs, x)) by {
                        crate::transaction::lemma_has_id_push(pre.ready_prepared_mempool@, tx@, x);
                    };
                }
                assert forall|x: u32| #[trigger]
                    seq_has_tx_id(pre.ready_prepared_mempool@, x) implies seq_has_tx_id(
                    self.ready_prepared_mempool@,
                    x,
                ) by {
                    if self.ready_prepared_mempool@ == pre.ready_prepared_mempool@.push(tx@) {
                        crate::transaction::lemma_has_id_push(pre.ready_prepared_mempool@, tx@, x);
                    }
                };
                assert forall|j: int|
                    0 <= j < i + 1 && (#[trigger] justified_node@.prepare_txs[j]).shards.len() == 1 && justified_node@.prepare_txs[j].shards.contains(old(self).shard)
                        implies (seq_has_tx_id(
                        self.ready_prepared_mempool@,
                        justified_node@.prepare_txs[j].id,
                    ) || seq_has_tx_id(
                        old(self).ready_pre_committed_mempool@,
                        justified_node@.prepare_txs[j].id,
                    )) by {
                    if j == i {
                        assert(tx@ == justified_node@.prepare_txs[j]);
                        assert(pre.ready_pre_committed_mempool == old(self).ready_pre_committed_mempool);
                    }
                };
            }
            i = i + 1;
        }
    }

    /// Reclassify one transaction of a certified block's precommit bucket:
    /// the symmetric step one phase later.
    fn process_precommit_tx(&mut self, tx: &Transaction, qc: &Qc, t: u64, justified_block_id: u32)
        requires
            old(self).wf(),
        ensures
            final(self).wf(),
            *final(self) == (ValidatorNode {
                ready_pre_committed_mempool: final(self).ready_pre_committed_mempool,
                waiting_pre_committed_mempool: final(self).waiting_pre_committed_mempool,
                subscriber: final(self).subscriber,
                precommitted_seen: final(self).precommitted_seen,
                ..*old(self)
            }),
            final(self).precommitted_seen@ == old(self).precommitted_seen@.insert(tx.id),
            crate::subscriber::extends_events(
                old(self).subscriber.events@,
                final(self).subscriber.events@,
            ),
            final(self).subscriber.stats@ == old(self).subscriber.stats@,
            forall|e: int|
                old(self).subscriber.events@.len() <= e < final(self).subscriber.events@.len()
                    ==> !crate::subscriber::is_commit_event(#[trigger] final(self).subscriber.events@[e]),
            final(self).ready_pre_committed_mempool@ == old(self).ready_pre_committed_mempool@
                || final(self).ready_pre_committed_mempool@ == old(self).ready_pre_committed_mempool@.push(tx@),
            forall|x: u32| #[trigger]
                pool_has_id(final(self).waiting_pre_committed_mempool@, x) ==> pool_has_id(
                    old(self).waiting_pre_committed_mempool@,
                    x,
                ) || x == tx.id,
            tx@.shards.len() == 1 && tx@.shards.contains(old(self).shard) ==> seq_has_tx_id(
                final(self).ready_pre_committed_mempool@,
                tx.id,
            ) || seq_has_tx_id(old(self).ready_prepared_mempool@, tx.id),
            forall|x: u32|
                x != tx.id ==> #[trigger] final(self).waiting_pre_committed_mempool.marks_of(x) == old(self).waiting_pre_committed_mempool.marks_of(x),
            forall|x: u32|
                x != tx.id ==> (#[trigger] pool_has_id(
                    final(self).waiting_pre_committed_mempool@,
                    x,
                ) <==> pool_has_id(old(self).waiting_pre_committed_mempool@, x)),
            // the exact routing of this transaction, one phase later
            ({
                let had = pool_has_id(old(self).waiting_pre_committed_mempool@, tx.id);
                let m_old = old(self).waiting_pre_committed_mempool.marks_of(tx.id);
                let marked = marks_have_shard(m_old, old(self).shard);
                let cnt = if !had {
                    1int
                } else if marked {
                    m_old.len() as int
                } else {
                    m_old.len() as int + 1
                };
                let in_pools = seq_has_tx_id(old(self).ready_pre_committed_mempool@, tx.id)
                    || seq_has_tx_id(old(self).ready_prepared_mempool@, tx.id);
                let single_local = tx@.shards.len() == 1 && tx@.shards.contains(old(self).shard);
                &&& in_pools ==> final(self).ready_pre_committed_mempool@ == old(self).ready_pre_committed_mempool@ && final(self).waiting_pre_committed_mempool == old(self).waiting_pre_committed_mempool && final(self).subscriber == old(self).subscriber
                &&& single_local && !in_pools ==> final(self).ready_pre_committed_mempool@ == old(self).ready_pre_committed_mempool@.push(tx@) && final(self).waiting_pre_committed_mempool == old(self).waiting_pre_committed_mempool && final(self).subscriber.events@ == old(self).subscriber.events@.push(
                    Event::TransactionPrecommitReady {
                        tx_id: tx.id,
                        shard: old(self).shard,
                        qc_id: qc@.id,
                        t,
                    },
                )
                &&& !single_local && !in_pools && cnt == tx@.shards.len() ==> !pool_has_id(
                    final(self).waiting_pre_committed_mempool@,
                    tx.id,
                ) && final(self).ready_pre_committed_mempool@ == old(self).ready_pre_committed_mempool@.push(tx@) && final(self).subscriber.events@ == old(self).subscriber.events@.push(
                    Event::TransactionPrecommitReady {
                        tx_id: tx.id,
                        shard: old(self).shard,
                        qc_id: qc@.id,
                        t,
                    },
                )
                &&& !single_local && !in_pools && cnt != tx@.shards.len() ==> pool_has_id(
                    final(self).waiting_pre_committed_mempool@,
                    tx.id,
                ) && final(self).waiting_pre_committed_mempool.marks_of(tx.id) == (if !had {
                    seq![ShardMark { shard: old(self).shard, block_id: justified_block_id }]
                } else if marked {
                    m_old
                } else {
                    m_old.push(ShardMark { shard: old(self).shard, block_id: justified_block_id })
                }) && final(self).ready_pre_committed_mempool@ == old(self).ready_pre_committed_mempool@ && final(self).subscriber.events@ == old(self).subscriber.events@.push(
                    Event::TransactionPrecommitWaiting {
                        tx_id: tx.id,
                        shard: old(self).shard,
                        qc_id: qc@.id,
                        t,
                    },
                )
            }),
    {
        let id = tx.id;
        proof {
            self.precommitted_seen@ = self.precommitted_seen@.insert(id);
            assert(self.wf());
        }
        let single = tx.shards.len() == 1;
        let local = tx.involves_shard(self.shard);
        if single && local {
            if !self.ready_pre_committed_mempool.contains_id(id)
                && !self.ready_prepared_mempool.contains_id(id) {
                let ghost mid = *self;
                self.ready_pre_committed_mempool.push(tx.clone());
                self.subscriber.on_transaction_precommit_ready(id, self.shard, qc.id, t);
                proof {
                    lemma_ready_precommitted_push_wf(mid, *self, tx@);
                }
            }
        } else {
            if !self.ready_pre_committed_mempool.contains_id(id)
                && !self.ready_prepared_mempool.contains_id(id) {
                let cnt = self.waiting_pre_committed_mempool.register_mark(
                    tx,
                    self.shard,
                    justified_block_id,
                );
                proof {
                    assert(self.wf());
                }
                if cnt == tx.shards.len() {
                    self.waiting_pre_committed_mempool.remove(id);
                    let ghost mid = *self;
                    self.ready_pre_committed_mempool.push(tx.clone());
                    self.subscriber.on_transaction_precommit_ready(id, self.shard, qc.id, t);
                    proof {
                        lemma_ready_precommitted_push_wf(mid, *self, tx@);
                    }
                } else {
                    self.subscriber.on_transaction_precommit_waiting(id, self.shard, qc.id, t);
                }
            }
        }
    }

    /// The precommit half of certified-block ingestion.
    fn apply_precommit_phase(&mut self, qc: &Qc, t: u64, justified_node: &Block)
        requires
            old(self).wf(),
        ensures
            final(self).wf(),
            *final(self) == (ValidatorNode {
                ready_pre_committed_mempool: final(self).ready_pre_committed_mempool,
                waiting_pre_committed_mempool: final(self).waiting_pre_committed_mempool,
                subscriber: final(self).subscriber,
                precommitted_seen: final(self).precommitted_seen,
                ..*old(self)
            }),
            old(self).precommitted_seen@.subset_of(final(self).precommitted_seen@),
            forall|i: int|
                0 <= i < justified_node@.precommit_txs.len() ==> final(self).precommitted_seen@.contains((#[trigger] justified_node@.precommit_txs[i]).id),
            crate::subscriber::extends_events(
                old(self).subscriber.events@,
                final(self).subscriber.events@,
            ),
            final(self).subscriber.stats@ == old(self).subscriber.stats@,
            forall|e: int|
                old(self).subscriber.events@.len() <= e < final(self).subscriber.events@.len()
                    ==> !crate::subscriber::is_commit_event(#[trigger] final(self).subscriber.events@[e]),
            forall|x: u32| #[trigger]
                pool_has_id(final(self).waiting_pre_committed_mempool@, x) ==> pool_has_id(
                    old(self).waiting_pre_committed_mempool@,
                    x,
                ) || seq_has_tx_id(justified_node@.precommit_txs, x),
            forall|x: u32| #[trigger]
                seq_has_tx_id(final(self).ready_pre_committed_mempool@, x) ==> seq_has_tx_id(
                    old(self).ready_pre_committed_mempool@,
                    x,
                ) || seq_has_tx_id(justified_node@.precommit_txs, x),
    {
        let mut i: usize = 0;
        let n = justified_node.precommit_txs.len();
        while i < n
            invariant
                i <= n,
                n == justified_node@.precommit_txs.len(),
                self.wf(),
                *self == (ValidatorNode {
                    ready_pre_committed_mempool: self.ready_pre_committed_mempool,
                    waiting_pre_committed_mempool: self.waiting_pre_committed_mempool,
                    subscriber: self.subscriber,
                    precommitted_seen: self.precommitted_seen,
                    ..*old(self)
                }),
                old(self).precommitted_seen@.subset_of(self.precommitted_seen@),
                forall|j: int|
                    0 <= j < i ==> self.precommitted_seen@.contains(
                        (#[trigger] justified_node@.precommit_txs[j]).id,
                    ),
                crate::subscriber::extends_events(
                    old(self).subscriber.events@,
                    self.subscriber.events@,
                ),
                self.subscriber.stats@ == old(self).subscriber.stats@,
                forall|x: u32| #[trigger]
                    pool_has_id(self.waiting_pre_committed_mempool@, x) ==> pool_has_id(
                        old(self).waiting_pre_committed_mempool@,
                        x,
                    ) || seq_has_tx_id(justified_node@.precommit_txs, x),
                forall|x: u32| #[trigger]
                    seq_has_tx_id(self.ready_pre_committed_mempool@, x) ==> seq_has_tx_id(
                        old(self).ready_pre_committed_mempool@,
                        x,
                    ) || seq_has_tx_id(justified_node@.precommit_txs, x),
                forall|e: int|
                    old(self).subscriber.events@.len() <= e < self.subscriber.events@.len()
                        ==> !crate::subscriber::is_commit_event(#[trigger] self.subscriber.events@[e]),
            decreases n - i,
        {
            let tx = &justified_node.precommit_txs[i];
            let ghost pre = *self;
            self.process_precommit_tx(tx, qc, t, justified_node.id);
            proof {
                assert(tx@ == justified_node@.precommit_txs[i as int]);
                assert(seq_has_tx_id(justified_node@.precommit_txs, tx.id)) by {
                    assert(justified_node@.precommit_txs[i as int].id == tx.id);
                };
                if self.ready_pre_committed_mempool@ == pre.ready_pre_committed_mempool@.push(
                    tx@,
                ) {
                    assert forall|x: u32| #[trigger]
                        seq_has_tx_id(self.ready_pre_committed_mempool@, x) implies (seq_has_tx_id(
                        old(self).ready_pre_committed_mempool@,
                        x,
                    ) || seq_has_tx_id(justified_node@.precommit_txs, x)) by {
                        crate::transaction::lemma_has_id_push(
                            pre.ready_pre_committed_mempool@,
                            tx@,
                            x,
                        );
                    };
                }
            }
            i = i + 1;
        }
    }

    /// Publish the commit of every transaction of a certified block's commit
    /// bucket.
    fn commit_phase(&mut self, qc: &Qc, t: u64, justified_node: &Block)
        requires
            old(self).wf(),
        ensures
            final(self).wf(),
            *final(self) == (ValidatorNode { subscriber: final(self).subscriber, ..*old(self) }),
            final(self).subscriber.stats@ == old(self).subscriber.stats@,
            final(self).subscriber.events@.len() == old(self).subscriber.events@.len()
                + justified_node@.commit_txs.len(),
            crate::subscriber::extends_events(
                old(self).subscriber.events@,
                final(self).subscriber.events@,
            ),
            forall|i: int|
                0 <= i < justified_node@.commit_txs.len() ==> final(self).subscriber.events@[old(self).subscriber.events@.len() + i] == (Event::TransactionCommitted {
                    tx_id: (#[trigger] justified_node@.commit_txs[i]).id,
                    shard: old(self).shard,
                    qc_id: qc@.id,
                    t,
                }),
    {
        let mut i: usize = 0;
        let n = justified_node.commit_txs.len();
        while i < n
            invariant
                i <= n,
                n == justified_node@.commit_txs.len(),
                self.wf(),
                *self == (ValidatorNode { subscriber: self.subscriber, ..*old(self) }),
                self.subscriber.stats@ == old(self).subscriber.stats@,
                self.subscriber.events@.len() == old(self).subscriber.events@.len() + i,
                crate::subscriber::extends_events(
                    old(self).subscriber.events@,
                    self.subscriber.events@,
                ),
                forall|j: int|
                    0 <= j < i ==> self.subscriber.events@[old(self).subscriber.events@.len() + j]
                        == (Event::TransactionCommitted {
                        tx_id: (#[trigger] justified_node@.commit_txs[j]).id,
                        shard: old(self).shard,
                        qc_id: qc@.id,
                        t,
                    }),
            decreases n - i,
        {
            let tx_id = justified_node.commit_txs[i].id;
            proof {
                assert(justified_node@.commit_txs[i as int].id == tx_id);
            }
            self.subscriber.on_transaction_committed(tx_id, self.shard, qc.id, t);
            i = i + 1;
        }
    }

    /// Drop every waiting-prepared entry whose transaction is named in
    /// `txs`.
    fn remove_waiting_prepared_ids(&mut self, txs: &Vec<Transaction>)
        requires
            old(self).wf(),
        ensures
            final(self).wf(),
            *final(self) == (ValidatorNode {
                waiting_prepared_mempool: final(self).waiting_prepared_mempool,
                ..*old(self)
            }),
            forall|i: int|
                0 <= i < txs@.len() ==> !pool_has_id(
                    final(self).waiting_prepared_mempool@,
                    (#[trigger] txs@[i]).id,
                ),
            forall|x: u32| #[trigger]
                pool_has_id(final(self).waiting_prepared_mempool@, x) ==> pool_has_id(
                    old(self).waiting_prepared_mempool@,
                    x,
                ),
    {
        let mut i: usize = 0;
        let n = txs.len();
        while i < n
            invariant
                i <= n,
                n == txs@.len(),
                self.wf(),
                *self == (ValidatorNode {
                    waiting_prepared_mempool: self.waiting_prepared_mempool,
                    ..*old(self)
                }),
                forall|j: int|
                    0 <= j < i ==> !pool_has_id(
                        self.waiting_prepared_mempool@,
                        (#[trigger] txs@[j]).id,
                    ),
                forall|x: u32| #[trigger]
                    pool_has_id(self.waiting_prepared_mempool@, x) ==> pool_has_id(
                        old(self).waiting_prepared_mempool@,
                        x,
                    ),
            decreases n - i,
        {
            let id = txs[i].id;
            let ghost pre = self.waiting_prepared_mempool@;
            self.waiting_prepared_mempool.remove(id);
            proof {
                assert(txs@[i as int].id == id);
                assert forall|j: int|
                    0 <= j < i + 1 implies !pool_has_id(
                    self.waiting_prepared_mempool@,
                    (#[trigger] txs@[j]).id,
                ) by {
                    if j < i && txs@[j].id != id {
                        assert(!pool_has_id(pre, txs@[j].id));
                    }
                };
            }
            i = i + 1;
        }
    }

    /// Drop every waiting-precommitted entry whose transaction is named in
    /// `txs`.
    fn remove_waiting_precommitted_ids(&mut self, txs: &Vec<Transaction>)
        requires
            old(self).wf(),
        ensures
            final(self).wf(),
            *final(self) == (ValidatorNode {
                waiting_pre_committed_mempool: final(self).waiting_pre_committed_mempool,
                ..*old(self)
            }),
            forall|i: int|
                0 <= i < txs@.len() ==> !pool_has_id(
                    final(self).waiting_pre_committed_mempool@,
                    (#[trigger] txs@[i]).id,
                ),
            forall|x: u32| #[trigger]
                pool_has_id(final(self).waiting_pre_committed_mempool@, x) ==> pool_has_id(
                    old(self).waiting_pre_committed_mempool@,
                    x,
                ),
    {
        let mut i: usize = 0;
        let n = txs.len();
        while i < n
            invariant
                i <= n,
                n == txs@.len(),
                self.wf(),
                *self == (ValidatorNode {
                    waiting_pre_committed_mempool: self.waiting_pre_committed_mempool,
                    ..*old(self)
                }),
                forall|j: int|
                    0 <= j < i ==> !pool_has_id(
                        self.waiting_pre_committed_mempool@,
                        (#[trigger] txs@[j]).id,
                    ),
                forall|x: u32| #[trigger]
                    pool_has_id(self.waiting_pre_committed_mempool@, x) ==> pool_has_id(
                        old(self).waiting_pre_committed_mempool@,
                        x,
                    ),
            decreases n - i,
        {
            let id = txs[i].id;
            let ghost pre = self.waiting_pre_committed_mempool@;
            self.waiting_pre_committed_mempool.remove(id);
            proof {
                assert(txs@[i as int].id == id);
                assert forall|j: int|
                    0 <= j < i + 1 implies !pool_has_id(
                    self.waiting_pre_committed_mempool@,
                    (#[trigger] txs@[j]).id,
                ) by {
                    if j < i && txs@[j].id != id {
                        assert(!pool_has_id(pre, txs@[j].id));
                    }
                };
            }
            i = i + 1;
        }
    }

    /// Ingest the transaction-lifecycle effects of a certified block: its
    /// prepare bucket feeds the prepared pools and clears the fresh pool;
    /// its precommit bucket feeds the precommitted pools and clears the
    /// prepared pools; its commit bucket is published as committed and
    /// clears the precommitted pools.
    pub fn apply_qc(&mut self, qc: &Qc, current_time: u64, justified_node: &Block)
        requires
            old(self).wf(),
        ensures
            final(self).wf(),
            *final(self) == (ValidatorNode {
                new_tx_mempool: final(self).new_tx_mempool,
                ready_prepared_mempool: final(self).ready_prepared_mempool,
                waiting_prepared_mempool: final(self).waiting_prepared_mempool,
                ready_pre_committed_mempool: final(self).ready_pre_committed_mempool,
                waiting_pre_committed_mempool: final(self).waiting_pre_committed_mempool,
                subscriber: final(self).subscriber,
                prepared_seen: final(self).prepared_seen,
                precommitted_seen: final(self).precommitted_seen,
                ..*old(self)
            }),
            old(self).prepared_seen@.subset_of(final(self).prepared_seen@),
            old(self).precommitted_seen@.subset_of(final(self).precommitted_seen@),
            forall|i: int|
                0 <= i < justified_node@.prepare_txs.len() ==> final(self).prepared_seen@.contains(
                    (#[trigger] justified_node@.prepare_txs[i]).id,
                ),
            forall|i: int|
                0 <= i < justified_node@.precommit_txs.len() ==> final(self).precommitted_seen@.contains((#[trigger] justified_node@.precommit_txs[i]).id),
            forall|i: int|
                0 <= i < justified_node@.prepare_txs.len() ==> !seq_has_tx_id(
                    final(self).new_tx_mempool@,
                    (#[trigger] justified_node@.prepare_txs[i]).id,
                ),
            forall|i: int|
                0 <= i < justified_node@.precommit_txs.len() ==> !seq_has_tx_id(
                    final(self).ready_prepared_mempool@,
                    (#[trigger] justified_node@.precommit_txs[i]).id,
                ) && !pool_has_id(
                    final(self).waiting_prepared_mempool@,
                    justified_node@.precommit_txs[i].id,
                ),
            forall|i: int|
                0 <= i < justified_node@.commit_txs.len() ==> !seq_has_tx_id(
                    final(self).ready_pre_committed_mempool@,
                    (#[trigger] justified_node@.commit_txs[i]).id,
                ) && !pool_has_id(
                    final(self).waiting_pre_committed_mempool@,
                    justified_node@.commit_txs[i].id,
                ),
            crate::subscriber::extends_events(
                old(self).subscriber.events@,
                final(self).subscriber.events@,
            ),
            final(self).subscriber.stats@ == old(self).subscriber.stats@,
            forall|i: int|
                0 <= i < justified_node@.commit_txs.len() ==> committed_event_after(
                    final(self).subscriber.events@,
                    old(self).subscriber.events@.len() as int,
                    (#[trigger] justified_node@.commit_txs[i]).id,
                    old(self).shard,
                    qc@.id,
                    current_time,
                ),
            // a fresh transaction leaves the fresh pool only by being
            // observed as prepared
            forall|x: u32| #[trigger]
                seq_has_tx_id(old(self).new_tx_mempool@, x) ==> seq_has_tx_id(
                    final(self).new_tx_mempool@,
                    x,
                ) || final(self).prepared_seen@.contains(x),
            // a single-shard local transaction of the prepare bucket is
            // routed straight into the prepared pipeline
            forall|i: int|
                0 <= i < justified_node@.prepare_txs.len() && (#[trigger] justified_node@.prepare_txs[i]).shards.len() == 1 && justified_node@.prepare_txs[i].shards.contains(old(self).shard)
                    ==> seq_has_tx_id(
                    final(self).ready_prepared_mempool@,
                    justified_node@.prepare_txs[i].id,
                ) || seq_has_tx_id(
                    old(self).ready_pre_committed_mempool@,
                    justified_node@.prepare_txs[i].id,
                ) || final(self).precommitted_seen@.contains(justified_node@.prepare_txs[i].id),
            // the commit bucket is published exactly once, in order, and no
            // other commit event is published
            exists|off: int|
                old(self).subscriber.events@.len() <= off && off
                    + justified_node@.commit_txs.len() <= final(self).subscriber.events@.len()
                    && #[trigger] commit_block_at(
                    final(self).subscriber.events@,
                    off,
                    justified_node@.commit_txs,
                    old(self).shard,
                    qc@.id,
                    current_time,
                ) && only_commits_within(
                    final(self).subscriber.events@,
                    old(self).subscriber.events@.len() as int,
                    off,
                    justified_node@.commit_txs.len() as int,
                ),
    {
        self.apply_prepare_phase(qc, current_time, justified_node);
        let ghost s1 = *self;
        self.new_tx_mempool.retain_not_in(&justified_node.prepare_txs);
        proof {
            crate::mempool::lemma_retained_ids(
                s1.new_tx_mempool@,
                txs_view(justified_node.prepare_txs@),
            );
            crate::mempool::lemma_kept_ids(
                s1.new_tx_mempool@,
                txs_view(justified_node.prepare_txs@),
            );
            assert(self.wf());
            assert forall|x: u32| #[trigger]
                seq_has_tx_id(old(self).new_tx_mempool@, x) implies (seq_has_tx_id(
                self.new_tx_mempool@,
                x,
            ) || self.prepared_seen@.contains(x)) by {
                if seq_has_tx_id(txs_view(justified_node.prepare_txs@), x) {
                    let w = choose|w: int|
                        0 <= w < txs_view(justified_node.prepare_txs@).len() && txs_view(
                            justified_node.prepare_txs@,
                        )[w].id == x;
                    assert(justified_node@.prepare_txs[w].id == x);
                    assert(self.prepared_seen@.contains(x));
                }
            };
        }
        let ghost s2 = *self;
        self.ready_prepared_mempool.retain_not_in(&justified_node.precommit_txs);
        proof {
            crate::mempool::lemma_retained_ids(
                s2.ready_prepared_mempool@,
                txs_view(justified_node.precommit_txs@),
            );
            crate::mempool::lemma_kept_ids(
                s2.ready_prepared_mempool@,
                txs_view(justified_node.precommit_txs@),
            );
            lemma_shrunk_ready_prepared_wf(s2, *self);
        }
        let ghost s3 = *self;
        self.remove_waiting_prepared_ids(&justified_node.precommit_txs);
        let ghost s4 = *self;
        self.apply_precommit_phase(qc, current_time, justified_node);
        let ghost s5 = *self;
        self.commit_phase(qc, current_time, justified_node);
        let ghost s6 = *self;
        self.ready_pre_committed_mempool.retain_not_in(&justified_node.commit_txs);
        proof {
            crate::mempool::lemma_retained_ids(
                s6.ready_pre_committed_mempool@,
                txs_view(justified_node.commit_txs@),
            );
            lemma_shrunk_ready_precommitted_wf(s6, *self);
        }
        let ghost s7 = *self;
        self.remove_waiting_precommitted_ids(&justified_node.commit_txs);
        proof {
            // prepare bucket ids are out of the fresh pool for good
            assert forall|i: int|
                0 <= i < justified_node@.prepare_txs.len() implies !seq_has_tx_id(
                final(self).new_tx_mempool@,
                (#[trigger] justified_node@.prepare_txs[i]).id,
            ) by {
                let id = justified_node@.prepare_txs[i].id;
                assert(seq_has_tx_id(txs_view(justified_node.prepare_txs@), id)) by {
                    assert(txs_view(justified_node.prepare_txs@)[i].id == id);
                };
                assert(self.new_tx_mempool@ == s2.new_tx_mempool@);
            };
            // precommit bucket ids are out of both prepared pools
            assert forall|i: int|
                0 <= i < justified_node@.precommit_txs.len() implies !seq_has_tx_id(
                final(self).ready_prepared_mempool@,
                (#[trigger] justified_node@.precommit_txs[i]).id,
            ) && !pool_has_id(
                final(self).waiting_prepared_mempool@,
                justified_node@.precommit_txs[i].id,
            ) by {
                let id = justified_node@.precommit_txs[i].id;
                assert(seq_has_tx_id(txs_view(justified_node.precommit_txs@), id)) by {
                    assert(txs_view(justified_node.precommit_txs@)[i].id == id);
                };
                assert(self.ready_prepared_mempool@ == s3.ready_prepared_mempool@);
                assert(justified_node.precommit_txs@[i].id == id);
                assert(!pool_has_id(s4.waiting_prepared_mempool@, id));
                assert(self.waiting_prepared_mempool@ == s4.waiting_prepared_mempool@);
            };
            // commit bucket ids are out of both precommitted pools
            assert forall|i: int|
                0 <= i < justified_node@.commit_txs.len() implies !seq_has_tx_id(
                final(self).ready_pre_committed_mempool@,
                (#[trigger] justified_node@.commit_txs[i]).id,
            ) && !pool_has_id(
                final(self).waiting_pre_committed_mempool@,
                justified_node@.commit_txs[i].id,
            ) by {
                let id = justified_node@.commit_txs[i].id;
                assert(seq_has_tx_id(txs_view(justified_node.commit_txs@), id)) by {
                    assert(txs_view(justified_node.commit_txs@)[i].id == id);
                };
                assert(self.ready_pre_committed_mempool@ == s7.ready_pre_committed_mempool@);
                assert(justified_node.commit_txs@[i].id == id);
            };
            // a single-shard local prepare transaction went into the pipeline
            assert forall|i: int|
                0 <= i < justified_node@.prepare_txs.len() && (#[trigger] justified_node@.prepare_txs[i]).shards.len() == 1 && justified_node@.prepare_txs[i].shards.contains(old(self).shard)
                    implies (seq_has_tx_id(
                    final(self).ready_prepared_mempool@,
                    justified_node@.prepare_txs[i].id,
                ) || seq_has_tx_id(
                    old(self).ready_pre_committed_mempool@,
                    justified_node@.prepare_txs[i].id,
                ) || final(self).precommitted_seen@.contains(
                    justified_node@.prepare_txs[i].id,
                )) by {
                let id = justified_node@.prepare_txs[i].id;
                if !seq_has_tx_id(old(self).ready_pre_committed_mempool@, id) {
                    assert(seq_has_tx_id(s1.ready_prepared_mempool@, id));
                    assert(s2.ready_prepared_mempool@ == s1.ready_prepared_mempool@);
                    if seq_has_tx_id(txs_view(justified_node.precommit_txs@), id) {
                        let w = choose|w: int|
                            0 <= w < txs_view(justified_node.precommit_txs@).len() && txs_view(
                                justified_node.precommit_txs@,
                            )[w].id == id;
                        assert(justified_node@.precommit_txs[w].id == id);
                        assert(final(self).precommitted_seen@.contains(id));
                    } else {
                        assert(seq_has_tx_id(s3.ready_prepared_mempool@, id));
                        assert(seq_has_tx_id(final(self).ready_prepared_mempool@, id));
                    }
                }
            };
            // exactly the commit bucket was published as committed
            let off = s5.subscriber.events@.len() as int;
            let k = justified_node@.commit_txs.len() as int;
            assert(final(self).subscriber.events@ == s6.subscriber.events@);
            assert(commit_block_at(
                final(self).subscriber.events@,
                off,
                justified_node@.commit_txs,
                old(self).shard,
                qc@.id,
                current_time,
            ));
            assert(s4.subscriber.events@ == s1.subscriber.events@);
            assert forall|e: int|
                old(self).subscriber.events@.len() <= e < final(self).subscriber.events@.len()
                    && crate::subscriber::is_commit_event(#[trigger] final(self).subscriber.events@[e]) implies off <= e < off + k by {
                if e < s1.subscriber.events@.len() as int {
                    assert(s5.subscriber.events@[e] == s4.subscriber.events@[e]);
                    assert(s6.subscriber.events@[e] == s5.subscriber.events@[e]);
                    assert(!crate::subscriber::is_commit_event(s1.subscriber.events@[e]));
                    assert(false);
                } else if e < s5.subscriber.events@.len() as int {
                    assert(s6.subscriber.events@[e] == s5.subscriber.events@[e]);
                    assert(!crate::subscriber::is_commit_event(s5.subscriber.events@[e]));
                    assert(false);
                }
            };
            assert(only_commits_within(
                final(self).subscriber.events@,
                old(self).subscriber.events@.len() as int,
                off,
                k,
            ));
            // the commit publications stand after every earlier event
            assert(crate::subscriber::extends_events(
                old(self).subscriber.events@,
                final(self).subscriber.events@,
            ));
            assert forall|i: int|
                0 <= i < justified_node@.commit_txs.len() implies committed_event_after(
                final(self).subscriber.events@,
                old(self).subscriber.events@.len() as int,
                (#[trigger] justified_node@.commit_txs[i]).id,
                old(self).shard,
                qc@.id,
                current_time,
            ) by {
                let e = s5.subscriber.events@.len() as int + i;
                assert(s6.subscriber.events@[e] == (Event::TransactionCommitted {
                    tx_id: justified_node@.commit_txs[i].id,
                    shard: old(self).shard,
                    qc_id: qc@.id,
                    t: current_time,
                }));
                assert(final(self).subscriber.events@[e] == s6.subscriber.events@[e]);
                assert(old(self).subscriber.events@.len() <= e);
            };
        }
    }

    /// The three-chain rule: ingest the proposed block's certificate, move
    /// the locked block up when the certified chain passes it, and execute
    /// the tail of a three-chain of directly linked blocks.
    pub fn update_blocks(&mut self, block: &Block, current_time: u64)
        requires
            old(self).wf(),
            old(self).blocks.has_block(block.justify.block_id),
        ensures
            final(self).wf(),
            *final(self) == (ValidatorNode {
                current_height: final(self).current_height,
                new_tx_mempool: final(self).new_tx_mempool,
                ready_prepared_mempool: final(self).ready_prepared_mempool,
                waiting_prepared_mempool: final(self).waiting_prepared_mempool,
                ready_pre_committed_mempool: final(self).ready_pre_committed_mempool,
                waiting_pre_committed_mempool: final(self).waiting_pre_committed_mempool,
                subscriber: final(self).subscriber,
                prepared_seen: final(self).prepared_seen,
                precommitted_seen: final(self).precommitted_seen,
                high_qc: final(self).high_qc,
                b_leaf: final(self).b_leaf,
                locked_node: final(self).locked_node,
                b_exec: final(self).b_exec,
                ..*old(self)
            }),
            final(self).current_height == block.height,
            final(self).high_qc@.block_height >= old(self).high_qc@.block_height,
            final(self).locked_node@.height >= old(self).locked_node@.height,
            final(self).b_exec == old(self).b_exec || final(self).b_exec@.height > old(self).b_exec@.height,
            // the proposal's certificate is adopted exactly when it is
            // higher and certifies a known block
            block@.justify.block_height > old(self).high_qc@.block_height && old(self).blocks.has_block(block@.justify.block_id) ==> final(self).high_qc@
                == block@.justify,
            !(block@.justify.block_height > old(self).high_qc@.block_height) ==> final(self).high_qc == old(self).high_qc,
            // the locked block climbs to the grandparent certificate's
            // block when that is higher
            ({
                let b2v = old(self).blocks.spec_get(block@.justify.block_id);
                old(self).blocks.has_block(b2v.justify.block_id) ==> {
                    let b1v = old(self).blocks.spec_get(b2v.justify.block_id);
                    (b1v.height > old(self).locked_node@.height ==> final(self).locked_node@
                        == b1v) && (!(b1v.height > old(self).locked_node@.height) ==> final(self).locked_node == old(self).locked_node)
                }
            }),
            // the certificate's lifecycle effects are applied to the
            // justified block's three buckets
            old(self).prepared_seen@.subset_of(final(self).prepared_seen@),
            old(self).precommitted_seen@.subset_of(final(self).precommitted_seen@),
            forall|x: u32| #[trigger]
                seq_has_tx_id(old(self).new_tx_mempool@, x) ==> seq_has_tx_id(
                    final(self).new_tx_mempool@,
                    x,
                ) || final(self).prepared_seen@.contains(x),
            ({
                let b2v = old(self).blocks.spec_get(block@.justify.block_id);
                &&& forall|i: int|
                    0 <= i < b2v.prepare_txs.len() ==> final(self).prepared_seen@.contains(
                        (#[trigger] b2v.prepare_txs[i]).id,
                    )
                &&& forall|i: int|
                    0 <= i < b2v.prepare_txs.len() ==> !seq_has_tx_id(
                        final(self).new_tx_mempool@,
                        (#[trigger] b2v.prepare_txs[i]).id,
                    )
                &&& forall|i: int|
                    0 <= i < b2v.precommit_txs.len() ==> final(self).precommitted_seen@.contains(
                        (#[trigger] b2v.precommit_txs[i]).id,
                    )
                &&& forall|i: int|
                    0 <= i < b2v.precommit_txs.len() ==> !seq_has_tx_id(
                        final(self).ready_prepared_mempool@,
                        (#[trigger] b2v.precommit_txs[i]).id,
                    ) && !pool_has_id(
                        final(self).waiting_prepared_mempool@,
                        b2v.precommit_txs[i].id,
                    )
                &&& forall|i: int|
                    0 <= i < b2v.commit_txs.len() ==> !seq_has_tx_id(
                        final(self).ready_pre_committed_mempool@,
                        (#[trigger] b2v.commit_txs[i]).id,
                    ) && !pool_has_id(
                        final(self).waiting_pre_committed_mempool@,
                        b2v.commit_txs[i].id,
                    )
                &&& forall|i: int|
                    0 <= i < b2v.commit_txs.len() ==> committed_event_after(
                        final(self).subscriber.events@,
                        old(self).subscriber.events@.len() as int,
                        (#[trigger] b2v.commit_txs[i]).id,
                        old(self).shard,
                        block@.justify.id,
                        current_time,
                    )
            }),
            // the decide rule: a three-chain of directly linked blocks
            // executes its tail
            ({
                let b2v = old(self).blocks.spec_get(block@.justify.block_id);
                old(self).blocks.has_block(b2v.justify.block_id) ==> {
                    let b1v = old(self).blocks.spec_get(b2v.justify.block_id);
                    old(self).blocks.has_block(b1v.justify.block_id) ==> {
                        let b0v = old(self).blocks.spec_get(b1v.justify.block_id);
                        (b2v.parent_id == b1v.id && b1v.parent_id == b0v.id && b0v.height > old(self).b_exec@.height ==> final(self).b_exec@ == b0v) && (!(b2v.parent_id
                            == b1v.id && b1v.parent_id == b0v.id && b0v.height > old(self).b_exec@.height) ==> final(self).b_exec == old(self).b_exec)
                    }
                }
            }),
            // an incomplete chain moves no pointer
            ({
                let b2v = old(self).blocks.spec_get(block@.justify.block_id);
                (!old(self).blocks.has_block(b2v.justify.block_id) ==> final(self).locked_node
                    == old(self).locked_node && final(self).b_exec == old(self).b_exec)
                    && (old(self).blocks.has_block(b2v.justify.block_id)
                    && !old(self).blocks.has_block(
                    old(self).blocks.spec_get(b2v.justify.block_id).justify.block_id,
                ) ==> final(self).b_exec == old(self).b_exec)
            }),
            // the pointer order high_qc >= locked >= executed is preserved
            // whenever the stored justify chain is height-consistent
            ({
                let b2v = old(self).blocks.spec_get(block@.justify.block_id);
                (old(self).high_qc@.block_height >= old(self).locked_node@.height && old(self).locked_node@.height >= old(self).b_exec@.height && block@.justify.block_height
                    == b2v.height && b2v.height >= b2v.justify.block_height && (old(self).blocks.has_block(b2v.justify.block_id) ==> {
                    let b1v = old(self).blocks.spec_get(b2v.justify.block_id);
                    b2v.justify.block_height == b1v.height && b1v.height
                        >= b1v.justify.block_height && (old(self).blocks.has_block(
                        b1v.justify.block_id,
                    ) ==> b1v.justify.block_height == old(self).blocks.spec_get(
                        b1v.justify.block_id,
                    ).height)
                })) ==> final(self).high_qc@.block_height >= final(self).locked_node@.height
                    && final(self).locked_node@.height >= final(self).b_exec@.height
            }),
            crate::subscriber::extends_events(
                old(self).subscriber.events@,
                final(self).subscriber.events@,
            ),
    {
        self.current_height = block.height;
        let b2 = match self.blocks.get(block.justify.block_id) {
            Some(node) => node.clone(),
            None => {
                proof {
                    assert(false);
                }
                return ;
            },
        };
        let ghost pre_apply = *self;
        self.apply_qc(&block.justify, current_time, &b2);
        proof {
            assert(pre_apply.new_tx_mempool == old(self).new_tx_mempool);
            assert forall|x: u32| #[trigger]
                seq_has_tx_id(old(self).new_tx_mempool@, x) implies (seq_has_tx_id(
                self.new_tx_mempool@,
                x,
            ) || self.prepared_seen@.contains(x)) by {
                assert(seq_has_tx_id(pre_apply.new_tx_mempool@, x));
                assert(seq_has_tx_id(self.new_tx_mempool@, x) || self.prepared_seen@.contains(x));
            };
        }
        self.update_high_qc(block.justify.clone());
        let b1 = match self.blocks.get(b2.justify.block_id) {
            Some(node) => node.clone(),
            None => {
                // the chain below the certified block is not local yet
                return ;
            },
        };
        if b1.height > self.locked_node.height {
            self.locked_node = b1.clone();
        }
        let b0 = match self.blocks.get(b1.justify.block_id) {
            Some(node) => node.clone(),
            None => {
                return ;
            },
        };
        if b2.parent_id == b1.id && b1.parent_id == b0.id && b0.height > self.b_exec.height {
            self.on_commit(&b0);
            self.b_exec = b0;
        }
    }

    /// Record a vote for a block; on the first time the distinct votes for
    /// it reach the quorum, form the certificate, ingest it, and report that
    /// a new certificate exists. A repeated vote neither grows the vote set
    /// nor re-forms a certificate; a vote below the current height is
    /// dropped.
    pub fn on_receive_vote(
        &mut self,
        idp: &mut IdProvider,
        block_id: u32,
        block_height: u32,
        vote_by: u32,
        current_time: u64,
    ) -> (formed: bool)
        requires
            old(self).wf(),
        ensures
            final(self).wf(),
            block_height < old(self).current_height ==> *final(self) == *old(self) && !formed,
            block_height >= old(self).current_height ==> {
                &&& !old(self).votes.voters_of(block_id).contains(vote_by) ==> final(self).votes.voters_of(block_id) == old(self).votes.voters_of(block_id).push(vote_by)
                &&& old(self).votes.voters_of(block_id).contains(vote_by) ==> final(self).votes
                    == old(self).votes
                &&& forall|k: u32|
                    k != block_id ==> #[trigger] final(self).votes.voters_of(k) == old(self).votes.voters_of(k)
                &&& formed == (!old(self).votes.voters_of(block_id).contains(vote_by) && old(self).votes.voters_of(block_id).len() + 1 == quorum(old(self).committee_n()) && old(self).blocks.has_block(block_id))
            },
            !formed ==> *final(self) == (ValidatorNode {
                votes: final(self).votes,
                subscriber: final(self).subscriber,
                ..*old(self)
            }),
            // a repeated vote publishes nothing
            block_height >= old(self).current_height && old(self).votes.voters_of(
                block_id,
            ).contains(vote_by) ==> final(self).subscriber == old(self).subscriber,
            // a fresh vote below the quorum publishes exactly the vote event
            block_height >= old(self).current_height && !old(self).votes.voters_of(
                block_id,
            ).contains(vote_by) && !formed ==> final(self).subscriber.events@ == old(self).subscriber.events@.push(Event::Vote { vn_id: vote_by, block_id, t: current_time })
                && final(self).subscriber.stats@ == old(self).subscriber.stats@,
            formed ==> *final(self) == (ValidatorNode {
                votes: final(self).votes,
                subscriber: final(self).subscriber,
                new_tx_mempool: final(self).new_tx_mempool,
                ready_prepared_mempool: final(self).ready_prepared_mempool,
                waiting_prepared_mempool: final(self).waiting_prepared_mempool,
                ready_pre_committed_mempool: final(self).ready_pre_committed_mempool,
                waiting_pre_committed_mempool: final(self).waiting_pre_committed_mempool,
                prepared_seen: final(self).prepared_seen,
                precommitted_seen: final(self).precommitted_seen,
                formed_qcs: final(self).formed_qcs,
                high_qc: final(self).high_qc,
                b_leaf: final(self).b_leaf,
                ..*old(self)
            }),
            formed ==> final(self).formed_qcs@.len() == old(self).formed_qcs@.len() + 1
                && final(self).formed_qcs@[old(self).formed_qcs@.len() as int].block_id == block_id
                && final(self).formed_qcs@[old(self).formed_qcs@.len() as int].votes == final(self).votes.voters_of(block_id),
            !formed ==> final(self).formed_qcs == old(self).formed_qcs,
            final(self).high_qc@.block_height >= old(self).high_qc@.block_height,
            final(self).b_exec == old(self).b_exec,
            final(self).current_height == old(self).current_height,
            final(self).last_voted_height == old(self).last_voted_height,
            final(self).new_view_votes == old(self).new_view_votes,
            forall|k: u32, c: u32|
                old(self).votes.voters_of(k).contains(c) ==> #[trigger] final(self).votes.voters_of(k).contains(c),
            old(self).prepared_seen@.subset_of(final(self).prepared_seen@),
            forall|x: u32| #[trigger]
                seq_has_tx_id(old(self).new_tx_mempool@, x) ==> seq_has_tx_id(
                    final(self).new_tx_mempool@,
                    x,
                ) || final(self).prepared_seen@.contains(x),
            crate::subscriber::extends_events(
                old(self).subscriber.events@,
                final(self).subscriber.events@,
            ),
    {
        if block_height < self.current_height {
            // a vote for a block that is too old: dropped
            return false;
        }
        let ghost old_voters = self.votes.voters_of(block_id);
        let added = self.votes.insert(block_id, vote_by);
        if added {
            self.subscriber.on_vote(vote_by, block_id, current_time);
        }
        proof {
            assert(self.wf()) by {
                lemma_votes_grow_wf(*old(self), *self, block_id);
            };
        }
        let n = self.committee_manager.committee_size(self.shard);
        let q = quorum_size(n);
        let cnt = self.votes.count(block_id);
        if added && cnt == q {
            let qc_block = match self.blocks.get(block_id) {
                Some(node) => node.clone(),
                None => {
                    // the certified block is not local: record the vote but
                    // form no certificate
                    return false;
                },
            };
            let voters = self.votes.voters_clone(block_id);
            let qc_id = idp.next();
            let qc = Qc::new(qc_id, block_id, block_height, voters);
            let ghost qv = qc@;
            self.subscriber.on_qc_created(qc.id, current_time, qc.block_id);
            let ghost pre_apply = *self;
            self.apply_qc(&qc, current_time, &qc_block);
            proof {
                assert(pre_apply.new_tx_mempool == old(self).new_tx_mempool);
                assert forall|x: u32| #[trigger]
                    seq_has_tx_id(old(self).new_tx_mempool@, x) implies (seq_has_tx_id(
                    self.new_tx_mempool@,
                    x,
                ) || self.prepared_seen@.contains(x)) by {
                    assert(seq_has_tx_id(pre_apply.new_tx_mempool@, x));
                    assert(seq_has_tx_id(self.new_tx_mempool@, x) || self.prepared_seen@.contains(
                        x,
                    ));
                };
                let pre = *self;
                crate::vote_book::lemma_voters_distinct(pre.votes, block_id);
                assert(qv.votes == pre.votes.voters_of(block_id));
                assert(qv.votes.len() == quorum(pre.committee_n()));
                assert forall|i: int|
                    0 <= i < pre.formed_qcs@.len() implies (#[trigger] pre.formed_qcs@[i]).block_id
                    != block_id by {
                    assert(old(self).votes.voters_of(pre.formed_qcs@[i].block_id).len() >= quorum(
                        old(self).committee_n(),
                    ));
                    if pre.formed_qcs@[i].block_id == block_id {
                        assert(old(self).votes.voters_of(block_id).len() + 1 == quorum(
                            old(self).committee_n(),
                        ));
                        assert(false);
                    }
                };
                self.formed_qcs@ = self.formed_qcs@.push(qv);
                lemma_formed_qc_wf(pre, *self, qv);
            }
            self.update_high_qc(qc);
            true
        } else {
            false
        }
    }

    /// Advance the view after a leader timeout: note the failure, rotate the
    /// leader, step one height up and tell the new leader with this
    /// validator's highest certificate.
    pub fn on_next_sync_view(&mut self, idp: &mut IdProvider) -> (out: Vec<(u32, Message)>)
        requires
            old(self).wf(),
        ensures
            final(self).wf(),
            old(self).current_height == u32::MAX ==> *final(self) == *old(self) && out@.len()
                == 0,
            old(self).current_height < u32::MAX ==> {
                &&& final(self).current_leader == next_leader_spec(
                    old(self).committee_manager.members_of(old(self).shard),
                    old(self).current_leader,
                )
                &&& final(self).current_height == old(self).current_height + 1
                &&& *final(self) == (ValidatorNode {
                    current_leader: final(self).current_leader,
                    current_height: final(self).current_height,
                    subscriber: final(self).subscriber,
                    ..*old(self)
                })
                &&& out@.len() == 1
                &&& out@[0].0 == final(self).current_leader
                &&& out@[0].1@ == (MessageView::NewView {
                    id: old(idp).next_id,
                    height: final(self).current_height,
                    high_qc: old(self).high_qc@,
                    from: old(self).id,
                })
                // a leader failure is observed exactly when this is not the
                // genesis start-up
                &&& (old(self).current_height != 0 ==> final(self).subscriber.events@ == old(self).subscriber.events@.push(Event::LeaderFailure { vn_id: old(self).id })
                    && crate::subscriber::stats_of(
                    final(self).subscriber.stats@,
                    old(self).id,
                ).leader_failures == (if crate::subscriber::stats_of(
                    old(self).subscriber.stats@,
                    old(self).id,
                ).leader_failures < usize::MAX {
                    crate::subscriber::stats_of(
                        old(self).subscriber.stats@,
                        old(self).id,
                    ).leader_failures + 1
                } else {
                    usize::MAX as int
                }) && (forall|v: u32|
                    v != old(self).id ==> #[trigger] crate::subscriber::stats_of(
                        final(self).subscriber.stats@,
                        v,
                    ) == crate::subscriber::stats_of(old(self).subscriber.stats@, v)))
                &&& (old(self).current_height == 0 ==> final(self).subscriber == old(self).subscriber)
            },
            crate::subscriber::extends_events(
                old(self).subscriber.events@,
                final(self).subscriber.events@,
            ),
    {
        if self.current_height == u32::MAX {
            return Vec::new();
        }
        if self.current_height != 0 {
            self.subscriber.on_leader_failure(self.id);
        }
        let next_leader = self.committee_manager.next_leader(self.shard, self.current_leader);
        self.current_leader = next_leader;
        self.current_height = self.current_height + 1;
        let mut out: Vec<(u32, Message)> = Vec::new();
        let msg = Message::NewView {
            id: idp.next(),
            height: self.current_height,
            high_qc: self.high_qc.clone(),
            from: self.id,
        };
        out.push((next_leader, msg));
        out
    }

    /// Ingest a view-change vote: adopt its certificate when higher, record
    /// the sender, and report whether the recorded senders for that height
    /// reach the quorum.
    pub fn handle_new_view(&mut self, height: u32, high_qc: Qc, from: u32) -> (can_propose: bool)
        requires
            old(self).wf(),
        ensures
            final(self).wf(),
            *final(self) == (ValidatorNode {
                b_leaf: final(self).b_leaf,
                high_qc: final(self).high_qc,
                new_view_votes: final(self).new_view_votes,
                ..*old(self)
            }),
            final(self).high_qc@.block_height >= old(self).high_qc@.block_height,
            high_qc@.block_height > old(self).high_qc@.block_height && old(self).blocks.has_block(
                high_qc@.block_id,
            ) ==> final(self).high_qc@ == high_qc@,
            !(high_qc@.block_height > old(self).high_qc@.block_height) ==> final(self).high_qc
                == old(self).high_qc,
            height < old(self).current_height ==> final(self).new_view_votes == old(self).new_view_votes && !can_propose,
            forall|k: u32, c: u32|
                old(self).new_view_votes.voters_of(k).contains(c) ==> #[trigger] final(self).new_view_votes.voters_of(k).contains(c),
            height >= old(self).current_height ==> {
                &&& !old(self).new_view_votes.voters_of(height).contains(from) ==> final(self).new_view_votes.voters_of(height) == old(self).new_view_votes.voters_of(
                    height,
                ).push(from)
                &&& old(self).new_view_votes.voters_of(height).contains(from) ==> final(self).new_view_votes == old(self).new_view_votes
                &&& can_propose == (final(self).new_view_votes.voters_of(height).len() >= quorum(
                    old(self).committee_n(),
                ))
            },
    {
        self.update_high_qc(high_qc);
        if height >= self.current_height {
            let _added = self.new_view_votes.insert(height, from);
            let n = self.committee_manager.committee_size(self.shard);
            let q = quorum_size(n);
            let cnt = self.new_view_votes.count(height);
            cnt >= q
        } else {
            false
        }
    }

    /// Answer a peer's request for a block this validator holds.
    pub fn handle_request_block(
        &self,
        idp: &mut IdProvider,
        block_id: u32,
        request_by: u32,
    ) -> (out: Option<(u32, Message)>)
        requires
            self.wf(),
        ensures
            out is Some <==> self.blocks.has_block(block_id),
            out matches Some(p) ==> p.0 == request_by && p.1@ == (MessageView::RequestBlockResponse {
                id: old(idp).next_id,
                block: self.blocks.spec_get(block_id),
            }),
    {
        match self.blocks.get(block_id) {
            Some(node) => {
                let block = node.clone();
                Some((request_by, Message::RequestBlockResponse { id: idp.next(), block }))
            },
            None => None,
        }
    }

    /// Ingest a block received on request: store it when new and replay, to
    /// this validator itself, every message snoozed on its id.
    pub fn handle_request_block_response(&mut self, block: Block) -> (out: Vec<(u32, Message)>)
        requires
            old(self).wf(),
        ensures
            final(self).wf(),
            old(self).blocks.has_block(block.id) ==> *final(self) == *old(self) && out@.len()
                == 0,
            !old(self).blocks.has_block(block.id) ==> {
                &&& *final(self) == (ValidatorNode {
                    blocks: final(self).blocks,
                    snoozed_messages: final(self).snoozed_messages,
                    ..*old(self)
                })
                &&& final(self).blocks.has_block(block.id)
                &&& final(self).blocks.spec_get(block.id) == block@
                &&& forall|x: u32| #[trigger]
                    final(self).blocks.has_block(x) <==> old(self).blocks.has_block(x) || x
                        == block.id
                &&& forall|x: u32| #[trigger]
                    old(self).blocks.has_block(x) ==> final(self).blocks.spec_get(x) == old(self).blocks.spec_get(x)
                &&& forall|j: int|
                    0 <= j < final(self).snoozed_messages@.len() ==> (#[trigger] final(self).snoozed_messages@[j]).0 != block.id
                &&& forall|i: int| 0 <= i < out@.len() ==> (#[trigger] out@[i]).0 == old(self).id
                &&& forall|j: int|
                    0 <= j < old(self).snoozed_messages@.len() && (#[trigger] old(self).snoozed_messages@[j]).0 == block.id ==> exists|x: int|
                        0 <= x < out@.len() && (#[trigger] out@[x]).1@ == old(self).snoozed_messages@[j].2@
                &&& forall|x: int|
                    0 <= x < out@.len() ==> snoozed_source(
                        old(self).snoozed_messages@,
                        block.id,
                        (#[trigger] out@[x]).1@,
                    )
            },
    {
        let ghost bid = block.id;
        if self.blocks.contains(block.id) {
            return Vec::new();
        }
        let block_id = block.id;
        self.blocks.insert(block);
        // replay the messages that waited for this block
        let mut out: Vec<(u32, Message)> = Vec::new();
        let mut remaining: Vec<(u32, u64, Message)> = Vec::new();
        let mut i: usize = 0;
        let n = self.snoozed_messages.len();
        let ghost snoozed0 = self.snoozed_messages@;
        while i < n
            invariant
                i <= n,
                n == self.snoozed_messages@.len(),
                block_id == bid,
                snoozed0 == self.snoozed_messages@,
                forall|j: int| 0 <= j < remaining@.len() ==> (#[trigger] remaining@[j]).0 != bid,
                forall|j: int| 0 <= j < out@.len() ==> (#[trigger] out@[j]).0 == self.id,
                forall|j: int|
                    0 <= j < i && (#[trigger] snoozed0[j]).0 == bid ==> exists|x: int|
                        0 <= x < out@.len() && (#[trigger] out@[x]).1@ == snoozed0[j].2@,
                forall|x: int|
                    0 <= x < out@.len() ==> snoozed_source(snoozed0, bid, (#[trigger] out@[x]).1@),
            decreases n - i,
        {
            let key = self.snoozed_messages[i].0;
            let time = self.snoozed_messages[i].1;
            let msg = self.snoozed_messages[i].2.clone();
            if key == block_id {
                let ghost out_pre = out@;
                out.push((self.id, msg));
                proof {
                    assert(out@[out_pre.len() as int].1@ == snoozed0[i as int].2@);
                    assert forall|j: int|
                        0 <= j < i + 1 && (#[trigger] snoozed0[j]).0 == bid implies exists|x: int|
                        0 <= x < out@.len() && (#[trigger] out@[x]).1@ == snoozed0[j].2@ by {
                        if j < i {
                            let x0 = choose|x: int|
                                0 <= x < out_pre.len() && (#[trigger] out_pre[x]).1@ == snoozed0[j].2@;
                            assert(out@[x0] == out_pre[x0]);
                        }
                    };
                    assert forall|x: int|
                        0 <= x < out@.len() implies snoozed_source(
                        snoozed0,
                        bid,
                        (#[trigger] out@[x]).1@,
                    ) by {
                        if x < out_pre.len() {
                            assert(out@[x] == out_pre[x]);
                        } else {
                            assert(snoozed0[i as int].0 == bid && snoozed0[i as int].2@
                                == out@[x].1@);
                        }
                    };
                }
            } else {
                remaining.push((key, time, msg));
            }
            i = i + 1;
        }
        self.snoozed_messages = remaining;
        out
    }

    /// Take a foreign committee's proposal of `tx` as evidence that its
    /// shard prepared it; promote the transaction once every one of its
    /// shards has evidenced it.
    fn observe_foreign_prepare_tx(&mut self, tx: &Transaction, block_shard: Shard, block_id: u32, current_time: u64)
        requires
            old(self).wf(),
        ensures
            final(self).wf(),
            *final(self) == (ValidatorNode {
                ready_prepared_mempool: final(self).ready_prepared_mempool,
                waiting_prepared_mempool: final(self).waiting_prepared_mempool,
                subscriber: final(self).subscriber,
                prepared_seen: final(self).prepared_seen,
                ..*old(self)
            }),
            final(self).prepared_seen@ == old(self).prepared_seen@.insert(tx.id),
            crate::subscriber::extends_events(
                old(self).subscriber.events@,
                final(self).subscriber.events@,
            ),
            final(self).subscriber.stats@ == old(self).subscriber.stats@,
            final(self).ready_prepared_mempool@ == old(self).ready_prepared_mempool@ || final(self).ready_prepared_mempool@ == old(self).ready_prepared_mempool@.push(tx@),
            forall|x: u32| #[trigger]
                pool_has_id(final(self).waiting_prepared_mempool@, x) ==> pool_has_id(
                    old(self).waiting_prepared_mempool@,
                    x,
                ) || x == tx.id,
            forall|x: u32|
                x != tx.id ==> #[trigger] final(self).waiting_prepared_mempool.marks_of(x) == old(self).waiting_prepared_mempool.marks_of(x),
            forall|x: u32|
                x != tx.id ==> (#[trigger] pool_has_id(final(self).waiting_prepared_mempool@, x)
                    <==> pool_has_id(old(self).waiting_prepared_mempool@, x)),
            // the exact outcome: evidence recorded, and promotion exactly
            // when every shard of the transaction has evidenced it
            ({
                let had = pool_has_id(old(self).waiting_prepared_mempool@, tx.id);
                let m_old = old(self).waiting_prepared_mempool.marks_of(tx.id);
                let marked = marks_have_shard(m_old, block_shard);
                let cnt = if !had {
                    1int
                } else if marked {
                    m_old.len() as int
                } else {
                    m_old.len() as int + 1
                };
                let in_pools = seq_has_tx_id(old(self).ready_prepared_mempool@, tx.id)
                    || seq_has_tx_id(old(self).ready_pre_committed_mempool@, tx.id);
                &&& cnt != tx@.shards.len() ==> pool_has_id(
                    final(self).waiting_prepared_mempool@,
                    tx.id,
                ) && final(self).waiting_prepared_mempool.marks_of(tx.id) == (if !had {
                    seq![ShardMark { shard: block_shard, block_id }]
                } else if marked {
                    m_old
                } else {
                    m_old.push(ShardMark { shard: block_shard, block_id })
                }) && final(self).ready_prepared_mempool@ == old(self).ready_prepared_mempool@
                    && final(self).subscriber == old(self).subscriber
                &&& cnt == tx@.shards.len() ==> !pool_has_id(
                    final(self).waiting_prepared_mempool@,
                    tx.id,
                ) && (!in_pools ==> final(self).ready_prepared_mempool@ == old(self).ready_prepared_mempool@.push(tx@) && final(self).subscriber.events@ == old(self).subscriber.events@.push(
                    Event::TransactionMovedToPrepareReady {
                        tx_id: tx.id,
                        in_vn: old(self).id,
                        t: current_time,
                        in_block: block_id,
                    },
                )) && (in_pools ==> final(self).ready_prepared_mempool@ == old(self).ready_prepared_mempool@ && final(self).subscriber == old(self).subscriber)
            }),
    {
        let id = tx.id;
        proof {
            self.prepared_seen@ = self.prepared_seen@.insert(id);
            assert(self.wf());
        }
        let cnt = self.waiting_prepared_mempool.register_mark(tx, block_shard, block_id);
        proof {
            assert(self.wf());
        }
        if cnt == tx.shards.len() {
            // evidence is complete: the transaction is prepared everywhere
            self.waiting_prepared_mempool.remove(id);
            if !self.ready_prepared_mempool.contains_id(id)
                && !self.ready_pre_committed_mempool.contains_id(id) {
                let ghost mid = *self;
                self.ready_prepared_mempool.push(tx.clone());
                self.subscriber.on_transaction_moved_to_prepare_ready(
                    id,
                    self.id,
                    current_time,
                    block_id,
                );
                proof {
                    lemma_ready_prepared_push_wf(mid, *self, tx@);
                }
            }
        }
    }

    /// React to a proposed block. A block of this shard whose justify
    /// certificate points at an unknown block is snoozed and the block is
    /// requested from its proposer. A known justify leads to the HotStuff
    /// safety check and, when it passes, a vote to the next leader and the
    /// three-chain update. A foreign shard's block is only mined for
    /// prepare evidence; it never draws a vote.
    pub fn on_receive_proposal(
        &mut self,
        idp: &mut IdProvider,
        block: &Block,
        current_time: u64,
        original_message: (u64, Message),
    ) -> (out: Vec<(u32, Message)>)
        requires
            old(self).wf(),
        ensures
            final(self).wf(),
            crate::subscriber::extends_events(
                old(self).subscriber.events@,
                final(self).subscriber.events@,
            ),
            final(self).last_voted_height >= old(self).last_voted_height,
            final(self).high_qc@.block_height >= old(self).high_qc@.block_height,
            final(self).b_exec == old(self).b_exec || final(self).b_exec@.height > old(self).b_exec@.height,
            final(self).blocks == old(self).blocks,
            old(self).prepared_seen@.subset_of(final(self).prepared_seen@),
            forall|x: u32| #[trigger]
                seq_has_tx_id(old(self).new_tx_mempool@, x) ==> seq_has_tx_id(
                    final(self).new_tx_mempool@,
                    x,
                ) || final(self).prepared_seen@.contains(x),
            // this committee's block with an unknown justify: snooze and ask
            block.shard == old(self).shard && !old(self).blocks.has_block(block@.justify.block_id)
                ==> {
                &&& *final(self) == (ValidatorNode {
                    snoozed_messages: final(self).snoozed_messages,
                    subscriber: final(self).subscriber,
                    ..*old(self)
                })
                &&& out@.len() == 1
                &&& out@[0].0 == block.proposed_by
                &&& out@[0].1@ == (MessageView::RequestBlock {
                    id: old(idp).next_id,
                    block_id: block@.justify.block_id,
                    request_by: old(self).id,
                })
                &&& final(self).snoozed_messages@.len() == old(self).snoozed_messages@.len() + 1
                &&& final(self).snoozed_messages@[old(self).snoozed_messages@.len() as int].0
                    == block@.justify.block_id
                &&& final(self).snoozed_messages@[old(self).snoozed_messages@.len() as int].2@
                    == original_message.1@
                &&& final(self).subscriber.events@ == old(self).subscriber.events@.push(
                    Event::RequestBlock { vn_id: old(self).id },
                )
                &&& crate::subscriber::stats_of(
                    final(self).subscriber.stats@,
                    old(self).id,
                ).request_block == (if crate::subscriber::stats_of(
                    old(self).subscriber.stats@,
                    old(self).id,
                ).request_block < usize::MAX {
                    crate::subscriber::stats_of(
                        old(self).subscriber.stats@,
                        old(self).id,
                    ).request_block + 1
                } else {
                    usize::MAX as int
                })
            },
            // this committee's block with a known justify: the safety rule
            block.shard == old(self).shard && old(self).blocks.has_block(block@.justify.block_id)
                ==> {
                let votes_it = block@.height > old(self).last_voted_height && (block@.parent_id
                    == old(self).locked_node@.id || old(self).blocks.spec_get(
                    block@.justify.block_id,
                ).height > old(self).locked_node@.height);
                &&& votes_it ==> out@.len() == 1 && out@[0].0 == next_leader_spec(
                    old(self).committee_manager.members_of(old(self).shard),
                    block.proposed_by,
                ) && out@[0].1@ == (MessageView::Vote {
                    id: old(idp).next_id,
                    block_id: block@.id,
                    block_height: block@.height,
                    vote_by: old(self).id,
                }) && final(self).last_voted_height == block@.height && final(self).current_height
                    == block@.height
                &&& votes_it ==> *final(self) == (ValidatorNode {
                    current_height: final(self).current_height,
                    last_voted_height: final(self).last_voted_height,
                    new_tx_mempool: final(self).new_tx_mempool,
                    ready_prepared_mempool: final(self).ready_prepared_mempool,
                    waiting_prepared_mempool: final(self).waiting_prepared_mempool,
                    ready_pre_committed_mempool: final(self).ready_pre_committed_mempool,
                    waiting_pre_committed_mempool: final(self).waiting_pre_committed_mempool,
                    subscriber: final(self).subscriber,
                    prepared_seen: final(self).prepared_seen,
                    precommitted_seen: final(self).precommitted_seen,
                    high_qc: final(self).high_qc,
                    b_leaf: final(self).b_leaf,
                    locked_node: final(self).locked_node,
                    b_exec: final(self).b_exec,
                    ..*old(self)
                })
                &&& !votes_it ==> out@.len() == 0 && *final(self) == *old(self)
            },
            // a foreign committee's block: evidence only, no vote
            block.shard != old(self).shard ==> {
                &&& out@.len() == 0
                &&& *final(self) == (ValidatorNode {
                    ready_prepared_mempool: final(self).ready_prepared_mempool,
                    waiting_prepared_mempool: final(self).waiting_prepared_mempool,
                    subscriber: final(self).subscriber,
                    prepared_seen: final(self).prepared_seen,
                    ..*old(self)
                })
                &&& old(self).prepared_seen@.subset_of(final(self).prepared_seen@)
                &&& forall|x: u32| #[trigger]
                    pool_has_id(final(self).waiting_prepared_mempool@, x) ==> pool_has_id(
                        old(self).waiting_prepared_mempool@,
                        x,
                    ) || seq_has_tx_id(block@.prepare_txs, x)
                // every transaction of the bucket sits in the prepared
                // pipeline afterwards, unless a ready pool already held it
                &&& forall|i: int|
                    0 <= i < block@.prepare_txs.len() ==> seq_has_tx_id(
                        final(self).ready_prepared_mempool@,
                        (#[trigger] block@.prepare_txs[i]).id,
                    ) || pool_has_id(
                        final(self).waiting_prepared_mempool@,
                        block@.prepare_txs[i].id,
                    ) || seq_has_tx_id(
                        old(self).ready_prepared_mempool@,
                        block@.prepare_txs[i].id,
                    ) || seq_has_tx_id(
                        old(self).ready_pre_committed_mempool@,
                        block@.prepare_txs[i].id,
                    )
                // when the bucket names each transaction once, one whose
                // last missing shard this block supplies is promoted: into
                // the ready pool, out of the waiting pool, and published
                &&& (forall|p: int, q: int|
                    0 <= p < q < block@.prepare_txs.len() ==> block@.prepare_txs[p].id
                        != block@.prepare_txs[q].id) ==> forall|i: int|
                    0 <= i < block@.prepare_txs.len() ==> ({
                        let id = (#[trigger] block@.prepare_txs[i]).id;
                        let m_old = old(self).waiting_prepared_mempool.marks_of(id);
                        pool_has_id(old(self).waiting_prepared_mempool@, id)
                            && !marks_have_shard(m_old, block.shard) && m_old.len() + 1
                            == block@.prepare_txs[i].shards.len() && !seq_has_tx_id(
                            old(self).ready_prepared_mempool@,
                            id,
                        ) && !seq_has_tx_id(old(self).ready_pre_committed_mempool@, id)
                    }) ==> seq_has_tx_id(final(self).ready_prepared_mempool@, (#[trigger] block@.prepare_txs[i]).id) && !pool_has_id(
                        final(self).waiting_prepared_mempool@,
                        block@.prepare_txs[i].id,
                    ) && moved_event_after(
                        final(self).subscriber.events@,
                        old(self).subscriber.events@.len() as int,
                        block@.prepare_txs[i].id,
                        old(self).id,
                        block@.id,
                    )
            },
    {
        let mut out: Vec<(u32, Message)> = Vec::new();
        if block.shard == self.shard {
            let justify_id = block.justify.block_id;
            let justify_node = match self.blocks.get(justify_id) {
                Some(node) => Some(node.clone()),
                None => None,
            };
            match justify_node {
                None => {
                    self.subscriber.on_request_block(self.id);
                    let (msg_time, msg) = original_message;
                    self.snoozed_messages.push((justify_id, msg_time, msg));
                    out.push(
                        (
                            block.proposed_by,
                            Message::RequestBlock {
                                id: idp.next(),
                                block_id: justify_id,
                                request_by: self.id,
                            },
                        ),
                    );
                    out
                },
                Some(jn) => {
                    let extends = self.does_extend(block, &self.locked_node);
                    if block.height > self.last_voted_height && (extends || jn.height
                        > self.locked_node.height) {
                        self.last_voted_height = block.height;
                        let next = self.committee_manager.next_leader(
                            self.shard,
                            block.proposed_by,
                        );
                        out.push(
                            (
                                next,
                                Message::Vote {
                                    id: idp.next(),
                                    block_id: block.id,
                                    block_height: block.height,
                                    vote_by: self.id,
                                },
                            ),
                        );
                        self.update_blocks(block, current_time);
                    }
                    out
                },
            }
        } else {
            // a foreign committee's block certifies that its shard prepared
            // these transactions
            let ghost bucket = block@.prepare_txs;
            let ghost distinct = forall|p: int, q: int|
                0 <= p < q < bucket.len() ==> bucket[p].id != bucket[q].id;
            let mut i: usize = 0;
            let n = block.prepare_txs.len();
            while i < n
                invariant
                    i <= n,
                    n == block@.prepare_txs.len(),
                    bucket == block@.prepare_txs,
                    distinct == (forall|p: int, q: int|
                        0 <= p < q < bucket.len() ==> bucket[p].id != bucket[q].id),
                    self.wf(),
                    *self == (ValidatorNode {
                        ready_prepared_mempool: self.ready_prepared_mempool,
                        waiting_prepared_mempool: self.waiting_prepared_mempool,
                        subscriber: self.subscriber,
                        prepared_seen: self.prepared_seen,
                        ..*old(self)
                    }),
                    old(self).prepared_seen@.subset_of(self.prepared_seen@),
                    crate::subscriber::extends_events(
                        old(self).subscriber.events@,
                        self.subscriber.events@,
                    ),
                    forall|x: u32| #[trigger]
                        pool_has_id(self.waiting_prepared_mempool@, x) ==> pool_has_id(
                            old(self).waiting_prepared_mempool@,
                            x,
                        ) || seq_has_tx_id(block@.prepare_txs, x),
                    forall|x: u32| #[trigger]
                        seq_has_tx_id(old(self).ready_prepared_mempool@, x) ==> seq_has_tx_id(
                            self.ready_prepared_mempool@,
                            x,
                        ),
                    forall|x: u32| #[trigger]
                        seq_has_tx_id(self.ready_prepared_mempool@, x) ==> seq_has_tx_id(
                            old(self).ready_prepared_mempool@,
                            x,
                        ) || seq_has_tx_id(bucket.take(i as int), x),
                    forall|x: u32|
                        !seq_has_tx_id(bucket.take(i as int), x) ==> #[trigger] self.waiting_prepared_mempool.marks_of(x) == old(self).waiting_prepared_mempool.marks_of(x),
                    forall|x: u32|
                        !seq_has_tx_id(bucket.take(i as int), x) ==> (#[trigger] pool_has_id(
                            self.waiting_prepared_mempool@,
                            x,
                        ) <==> pool_has_id(old(self).waiting_prepared_mempool@, x)),
                    forall|j: int|
                        0 <= j < i ==> seq_has_tx_id(
                            self.ready_prepared_mempool@,
                            (#[trigger] bucket[j]).id,
                        ) || pool_has_id(self.waiting_prepared_mempool@, bucket[j].id)
                            || seq_has_tx_id(old(self).ready_prepared_mempool@, bucket[j].id)
                            || seq_has_tx_id(
                            old(self).ready_pre_committed_mempool@,
                            bucket[j].id,
                        ),
                    distinct ==> forall|j: int|
                        0 <= j < i ==> ({
                            let id = (#[trigger] bucket[j]).id;
                            let m_old = old(self).waiting_prepared_mempool.marks_of(id);
                            pool_has_id(old(self).waiting_prepared_mempool@, id)
                                && !marks_have_shard(m_old, block.shard) && m_old.len() + 1
                                == bucket[j].shards.len() && !seq_has_tx_id(
                                old(self).ready_prepared_mempool@,
                                id,
                            ) && !seq_has_tx_id(old(self).ready_pre_committed_mempool@, id)
                        }) ==> seq_has_tx_id(self.ready_prepared_mempool@, (#[trigger] bucket[j]).id)
                            && !pool_has_id(self.waiting_prepared_mempool@, bucket[j].id)
                            && moved_event_after(
                            self.subscriber.events@,
                            old(self).subscriber.events@.len() as int,
                            bucket[j].id,
                            old(self).id,
                            block@.id,
                        ),
                decreases n - i,
            {
                let tx = &block.prepare_txs[i];
                let ghost pre = *self;
                self.observe_foreign_prepare_tx(tx, block.shard, block.id, current_time);
                proof {
                    assert(seq_has_tx_id(block@.prepare_txs, tx.id)) by {
                        assert(block@.prepare_txs[i as int].id == tx.id);
                    };
                    assert(bucket.take(i + 1) =~= bucket.take(i as int).push(bucket[i as int]));
                    assert forall|x: u32|
                        seq_has_tx_id(bucket.take(i + 1), x) <==> (seq_has_tx_id(
                        bucket.take(i as int),
                        x,
                    ) || x == tx.id) by {
                        crate::transaction::lemma_has_id_push(
                            bucket.take(i as int),
                            bucket[i as int],
                            x,
                        );
                    };
                    if self.ready_prepared_mempool@ == pre.ready_prepared_mempool@.push(tx@) {
                        assert forall|x: u32| #[trigger]
                            seq_has_tx_id(self.ready_prepared_mempool@, x) implies (seq_has_tx_id(
                            pre.ready_prepared_mempool@,
                            x,
                        ) || x == tx.id) by {
                            crate::transaction::lemma_has_id_push(
                                pre.ready_prepared_mempool@,
                                tx@,
                                x,
                            );
                        };
                    }
                    assert forall|x: u32| #[trigger]
                        seq_has_tx_id(pre.ready_prepared_mempool@, x) implies seq_has_tx_id(
                        self.ready_prepared_mempool@,
                        x,
                    ) by {
                        if self.ready_prepared_mempool@ == pre.ready_prepared_mempool@.push(
                            tx@,
                        ) {
                            crate::transaction::lemma_has_id_push(
                                pre.ready_prepared_mempool@,
                                tx@,
                                x,
                            );
                        }
                    };
                    assert forall|x: u32|
                        !seq_has_tx_id(bucket.take(i + 1), x) implies #[trigger] self.waiting_prepared_mempool.marks_of(x) == old(self).waiting_prepared_mempool.marks_of(x) by {
                        assert(x != tx.id);
                        assert(!seq_has_tx_id(bucket.take(i as int), x));
                        assert(self.waiting_prepared_mempool.marks_of(x)
                            == pre.waiting_prepared_mempool.marks_of(x));
                    };
                    assert forall|x: u32|
                        !seq_has_tx_id(bucket.take(i + 1), x) implies (#[trigger] pool_has_id(
                        self.waiting_prepared_mempool@,
                        x,
                    ) <==> pool_has_id(old(self).waiting_prepared_mempool@, x)) by {
                        assert(x != tx.id);
                        assert(!seq_has_tx_id(bucket.take(i as int), x));
                        assert(pool_has_id(self.waiting_prepared_mempool@, x) <==> pool_has_id(
                            pre.waiting_prepared_mempool@,
                            x,
                        ));
                    };
                    assert forall|j: int|
                        0 <= j < i + 1 implies (seq_has_tx_id(
                        self.ready_prepared_mempool@,
                        (#[trigger] bucket[j]).id,
                    ) || pool_has_id(self.waiting_prepared_mempool@, bucket[j].id)
                        || seq_has_tx_id(old(self).ready_prepared_mempool@, bucket[j].id)
                        || seq_has_tx_id(
                        old(self).ready_pre_committed_mempool@,
                        bucket[j].id,
                    )) by {
                        let id = bucket[j].id;
                        let had = pool_has_id(pre.waiting_prepared_mempool@, id);
                        let m_old = pre.waiting_prepared_mempool.marks_of(id);
                        let marked = marks_have_shard(m_old, block.shard);
                        let cnt = if !had {
                            1int
                        } else if marked {
                            m_old.len() as int
                        } else {
                            m_old.len() as int + 1
                        };
                        if j < i {
                            if seq_has_tx_id(pre.ready_prepared_mempool@, id) {
                            } else if pool_has_id(pre.waiting_prepared_mempool@, id) {
                                if id == tx.id {
                                    if cnt == tx@.shards.len() {
                                        if seq_has_tx_id(pre.ready_prepared_mempool@, id)
                                            || seq_has_tx_id(
                                            pre.ready_pre_committed_mempool@,
                                            id,
                                        ) {
                                        } else {
                                            crate::transaction::lemma_has_id_push(
                                                pre.ready_prepared_mempool@,
                                                tx@,
                                                id,
                                            );
                                        }
                                    }
                                } else {
                                    assert(pool_has_id(self.waiting_prepared_mempool@, id)
                                        <==> pool_has_id(pre.waiting_prepared_mempool@, id));
                                }
                            }
                        } else {
                            assert(bucket[j] == tx@);
                            if cnt == tx@.shards.len() {
                                if seq_has_tx_id(pre.ready_prepared_mempool@, id)
                                    || seq_has_tx_id(pre.ready_pre_committed_mempool@, id) {
                                } else {
                                    crate::transaction::lemma_has_id_push(
                                        pre.ready_prepared_mempool@,
                                        tx@,
                                        id,
                                    );
                                }
                            }
                        }
                    };
                    if distinct {
                        assert forall|j: int|
                            0 <= j < i + 1 implies ({
                            let id = (#[trigger] bucket[j]).id;
                            let m_old = old(self).waiting_prepared_mempool.marks_of(id);
                            pool_has_id(old(self).waiting_prepared_mempool@, id)
                                && !marks_have_shard(m_old, block.shard) && m_old.len() + 1
                                == bucket[j].shards.len() && !seq_has_tx_id(
                                old(self).ready_prepared_mempool@,
                                id,
                            ) && !seq_has_tx_id(old(self).ready_pre_committed_mempool@, id)
                        }) ==> (seq_has_tx_id(self.ready_prepared_mempool@, (#[trigger] bucket[j]).id)
                            && !pool_has_id(self.waiting_prepared_mempool@, bucket[j].id)
                            && moved_event_after(
                            self.subscriber.events@,
                            old(self).subscriber.events@.len() as int,
                            bucket[j].id,
                            old(self).id,
                            block@.id,
                        )) by {
                            let id = bucket[j].id;
                            let m_old0 = old(self).waiting_prepared_mempool.marks_of(id);
                            if pool_has_id(old(self).waiting_prepared_mempool@, id)
                                && !marks_have_shard(m_old0, block.shard) && m_old0.len() + 1
                                == bucket[j].shards.len() && !seq_has_tx_id(
                                old(self).ready_prepared_mempool@,
                                id,
                            ) && !seq_has_tx_id(old(self).ready_pre_committed_mempool@, id) {
                                if j < i {
                                    assert(id != tx.id);
                                    assert(seq_has_tx_id(pre.ready_prepared_mempool@, id));
                                    assert(seq_has_tx_id(self.ready_prepared_mempool@, id));
                                    assert(pool_has_id(self.waiting_prepared_mempool@, id)
                                        <==> pool_has_id(pre.waiting_prepared_mempool@, id));
                                    assert(moved_event_after(
                                        pre.subscriber.events@,
                                        old(self).subscriber.events@.len() as int,
                                        id,
                                        old(self).id,
                                        block@.id,
                                    ));
                                    let e = choose|e: int|
                                        old(self).subscriber.events@.len() <= e
                                            < pre.subscriber.events@.len() && ((#[trigger] pre.subscriber.events@[e]) matches Event::TransactionMovedToPrepareReady { tx_id: t, in_vn: v, in_block: b, .. } && t == id && v == old(self).id && b == block@.id);
                                    assert(self.subscriber.events@[e] == pre.subscriber.events@[e]);
                                } else {
                                    assert(bucket[j] == tx@);
                                    assert(!seq_has_tx_id(bucket.take(i as int), id));
                                    assert(pre.waiting_prepared_mempool.marks_of(id) == m_old0);
                                    assert(pool_has_id(pre.waiting_prepared_mempool@, id));
                                    assert(!seq_has_tx_id(pre.ready_prepared_mempool@, id));
                                    assert(pre.ready_pre_committed_mempool == old(self).ready_pre_committed_mempool);
                                    assert(!seq_has_tx_id(pre.ready_pre_committed_mempool@, id));
                                    assert(self.ready_prepared_mempool@
                                        == pre.ready_prepared_mempool@.push(tx@));
                                    crate::transaction::lemma_has_id_push(
                                        pre.ready_prepared_mempool@,
                                        tx@,
                                        id,
                                    );
                                    assert(self.subscriber.events@
                                        == pre.subscriber.events@.push(
                                        Event::TransactionMovedToPrepareReady {
                                            tx_id: id,
                                            in_vn: old(self).id,
                                            t: current_time,
                                            in_block: block@.id,
                                        },
                                    ));
                                    assert(self.subscriber.events@[pre.subscriber.events@.len() as int] matches Event::TransactionMovedToPrepareReady { tx_id: t, in_vn: v, in_block: b, .. } && t == id && v == old(self).id && b == block@.id);
                                    assert(old(self).subscriber.events@.len()
                                        <= pre.subscriber.events@.len());
                                }
                            }
                        };
                    }
                }
                i = i + 1;
            }
            proof {
                assert(bucket.take(n as int) =~= bucket);
            }
            out
        }
    }

    /// Ingest a freshly broadcast proposal: a block already known is
    /// ignored, the first delivery wins; a new one is stored and handled.
    pub fn handle_block_proposal(
        &mut self,
        idp: &mut IdProvider,
        msg_time: u64,
        block: Block,
        current_time: u64,
        message: Message,
    ) -> (out: Vec<(u32, Message)>)
        requires
            old(self).wf(),
        ensures
            final(self).wf(),
            final(self).id == old(self).id,
            final(self).shard == old(self).shard,
            crate::subscriber::extends_events(
                old(self).subscriber.events@,
                final(self).subscriber.events@,
            ),
            final(self).last_voted_height >= old(self).last_voted_height,
            final(self).high_qc@.block_height >= old(self).high_qc@.block_height,
            final(self).b_exec == old(self).b_exec || final(self).b_exec@.height > old(self).b_exec@.height,
            final(self).time_last_proposal_received == current_time,
            final(self).incoming_messages == old(self).incoming_messages,
            forall|x: u32| #[trigger]
                old(self).blocks.has_block(x) ==> final(self).blocks.has_block(x) && final(self).blocks.spec_get(x) == old(self).blocks.spec_get(x),
            old(self).prepared_seen@.subset_of(final(self).prepared_seen@),
            forall|x: u32| #[trigger]
                seq_has_tx_id(old(self).new_tx_mempool@, x) ==> seq_has_tx_id(
                    final(self).new_tx_mempool@,
                    x,
                ) || final(self).prepared_seen@.contains(x),
            final(self).votes == old(self).votes,
            final(self).new_view_votes == old(self).new_view_votes,
            // a re-delivered proposal changes nothing but the timeout clock
            old(self).blocks.has_block(block.id) ==> out@.len() == 0 && *final(self)
                == (ValidatorNode {
                time_last_proposal_received: current_time,
                ..*old(self)
            }),
            // a proposal that cannot be processed yet is not stored: it is
            // snoozed and will be handled as new once its ancestor arrives
            !old(self).blocks.has_block(block.id) && block.shard == old(self).shard && !old(self).blocks.has_block(block@.justify.block_id) ==> final(self).blocks == old(self).blocks,
            !old(self).blocks.has_block(block.id) && !(block.shard == old(self).shard && !old(self).blocks.has_block(block@.justify.block_id)) ==> final(self).blocks.has_block(block.id)
                && final(self).blocks.spec_get(block.id) == block@,
    {
        self.time_last_proposal_received = current_time;
        if self.blocks.contains(block.id) {
            // a duplicate proposal: the first delivery won
            return Vec::new();
        }
        if block.shard == self.shard && !self.blocks.contains(block.justify.block_id) {
            return self.on_receive_proposal(idp, &block, current_time, (msg_time, message));
        }
        let stored = block.clone();
        self.blocks.insert(stored);
        self.on_receive_proposal(idp, &block, current_time, (msg_time, message))
    }

    /// Build the next leaf: take up to the configured cap of the highest
    /// `(fee, id)` transactions from each of the fresh, ready-prepared and
    /// ready-precommitted pools into the prepare, precommit and commit
    /// buckets, and publish the leaf's creation.
    pub fn create_leaf(
        &mut self,
        idp: &mut IdProvider,
        parent_id: u32,
        qc: Qc,
        height: u32,
        current_time: u64,
    ) -> (block: Block)
        requires
            old(self).wf(),
        ensures
            final(self).wf(),
            *final(self) == (ValidatorNode {
                new_tx_mempool: final(self).new_tx_mempool,
                ready_prepared_mempool: final(self).ready_prepared_mempool,
                ready_pre_committed_mempool: final(self).ready_pre_committed_mempool,
                subscriber: final(self).subscriber,
                ..*old(self)
            }),
            block@.id == old(idp).next_id,
            block@.parent_id == parent_id,
            block@.shard == old(self).shard,
            block@.justify == qc@,
            block@.height == height,
            block@.proposed_by == old(self).id,
            block@.prepare_txs.len() == if old(self).new_tx_mempool@.len() < old(self).config.max_tx_per_step_per_block {
                old(self).new_tx_mempool@.len() as int
            } else {
                old(self).config.max_tx_per_step_per_block as int
            },
            old(self).new_tx_mempool@.to_multiset() == final(self).new_tx_mempool@.to_multiset().add(block@.prepare_txs.to_multiset()),
            forall|p: int, q: int|
                0 <= p < q < block@.prepare_txs.len() ==> tx_le(
                    #[trigger] block@.prepare_txs[q],
                    #[trigger] block@.prepare_txs[p],
                ),
            forall|p: int, j: int|
                0 <= p < block@.prepare_txs.len() && 0 <= j < final(self).new_tx_mempool@.len()
                    ==> tx_le(
                    #[trigger] final(self).new_tx_mempool@[j],
                    #[trigger] block@.prepare_txs[p],
                ),
            block@.precommit_txs.len() == if old(self).ready_prepared_mempool@.len() < old(self).config.max_tx_per_step_per_block {
                old(self).ready_prepared_mempool@.len() as int
            } else {
                old(self).config.max_tx_per_step_per_block as int
            },
            old(self).ready_prepared_mempool@.to_multiset() == final(self).ready_prepared_mempool@.to_multiset().add(block@.precommit_txs.to_multiset()),
            block@.commit_txs.len() == if old(self).ready_pre_committed_mempool@.len() < old(self).config.max_tx_per_step_per_block {
                old(self).ready_pre_committed_mempool@.len() as int
            } else {
                old(self).config.max_tx_per_step_per_block as int
            },
            old(self).ready_pre_committed_mempool@.to_multiset() == final(self).ready_pre_committed_mempool@.to_multiset().add(block@.commit_txs.to_multiset()),
            forall|i: int|
                0 <= i < block@.precommit_txs.len() ==> old(self).prepared_seen@.contains(
                    (#[trigger] block@.precommit_txs[i]).id,
                ),
            forall|i: int|
                0 <= i < block@.commit_txs.len() ==> old(self).precommitted_seen@.contains(
                    (#[trigger] block@.commit_txs[i]).id,
                ),
            final(self).subscriber.events@ == old(self).subscriber.events@.push(
                Event::CreateLeaf {
                    block_id: block@.id,
                    parent_id,
                    height,
                    proposed_by: old(self).id,
                    justify_qc_id: qc@.id,
                    t: current_time,
                },
            ),
    {
        let cap = self.config.max_tx_per_step_per_block;
        let prepare_txs = self.new_tx_mempool.take_top(cap);
        let ghost s1 = *self;
        let precommit_txs = self.ready_prepared_mempool.take_top(cap);
        proof {
            lemma_shrunk_ready_prepared_wf(s1, *self);
            assert forall|i: int|
                0 <= i < txs_view(precommit_txs@).len() implies old(self).prepared_seen@.contains(
                (#[trigger] txs_view(precommit_txs@)[i]).id,
            ) by {
                assert(seq_has_tx_id(
                    s1.ready_prepared_mempool@,
                    txs_view(precommit_txs@)[i].id,
                ));
            };
        }
        let ghost s2 = *self;
        let commit_txs = self.ready_pre_committed_mempool.take_top(cap);
        proof {
            lemma_shrunk_ready_precommitted_wf(s2, *self);
            assert forall|i: int|
                0 <= i < txs_view(commit_txs@).len() implies old(self).precommitted_seen@.contains((#[trigger] txs_view(commit_txs@)[i]).id) by {
                assert(seq_has_tx_id(
                    s2.ready_pre_committed_mempool@,
                    txs_view(commit_txs@)[i].id,
                ));
            };
        }
        let id = idp.next();
        let proposed_by = self.id;
        let shard = self.shard;
        let block = Block::new(
            id,
            parent_id,
            shard,
            qc,
            height,
            proposed_by,
            prepare_txs,
            precommit_txs,
            commit_txs,
        );
        self.subscriber.on_create_leaf(
            block.id,
            block.parent_id,
            block.height,
            block.proposed_by,
            block.justify.id,
            current_time,
        );
        block
    }

    /// Propose the next leaf on top of the current tip and broadcast it to
    /// every validator of every involved shard and of this committee.
    pub fn on_propose(&mut self, idp: &mut IdProvider, current_time: u64) -> (out: Vec<
        (u32, Message),
    >)
        requires
            old(self).wf(),
        ensures
            final(self).wf(),
            old(self).b_leaf.height == u32::MAX ==> *final(self) == *old(self) && out@.len() == 0,
            old(self).b_leaf.height < u32::MAX ==> {
                &&& *final(self) == (ValidatorNode {
                    new_tx_mempool: final(self).new_tx_mempool,
                    ready_prepared_mempool: final(self).ready_prepared_mempool,
                    ready_pre_committed_mempool: final(self).ready_pre_committed_mempool,
                    subscriber: final(self).subscriber,
                    b_leaf: final(self).b_leaf,
                    last_proposed_round: final(self).last_proposed_round,
                    ..*old(self)
                })
                &&& final(self).b_leaf@.parent_id == old(self).b_leaf@.id
                &&& final(self).b_leaf@.height == old(self).b_leaf@.height + 1
                &&& final(self).b_leaf@.shard == old(self).shard
                &&& final(self).b_leaf@.proposed_by == old(self).id
                &&& final(self).b_leaf@.justify == old(self).high_qc@
                &&& final(self).last_proposed_round == Some(old(self).current_height)
                &&& forall|i: int|
                    0 <= i < out@.len() ==> ((#[trigger] out@[i]).1@ matches
                        MessageView::BlockProposal { block: b, .. } && b == final(self).b_leaf@)
                &&& forall|v: u32|
                    old(self).committee_manager.members_of(old(self).shard).contains(v)
                        ==> exists|i: int| 0 <= i < out@.len() && (#[trigger] out@[i]).0 == v
                &&& forall|i: int|
                    0 <= i < out@.len() ==> proposal_recipient(
                        old(self).committee_manager,
                        old(self).shard,
                        final(self).b_leaf@,
                        (#[trigger] out@[i]).0,
                    )
                &&& forall|s2: Shard, v: u32|
                    involved(final(self).b_leaf@, s2) && s2 != old(self).shard && old(self).committee_manager.has_shard(s2) && (#[trigger] old(self).committee_manager.members_of(s2).contains(v))
                        ==> exists|i: int| 0 <= i < out@.len() && (#[trigger] out@[i]).0 == v
                &&& final(self).subscriber.events@ == old(self).subscriber.events@.push(
                    Event::CreateLeaf {
                        block_id: final(self).b_leaf@.id,
                        parent_id: old(self).b_leaf@.id,
                        height: (old(self).b_leaf@.height + 1) as u32,
                        proposed_by: old(self).id,
                        justify_qc_id: old(self).high_qc@.id,
                        t: current_time,
                    },
                )
                &&& final(self).b_leaf@.prepare_txs.len() == (if old(self).new_tx_mempool@.len()
                    < old(self).config.max_tx_per_step_per_block {
                    old(self).new_tx_mempool@.len() as int
                } else {
                    old(self).config.max_tx_per_step_per_block as int
                })
                &&& old(self).new_tx_mempool@.to_multiset() == final(self).new_tx_mempool@.to_multiset().add(final(self).b_leaf@.prepare_txs.to_multiset())
                &&& forall|p: int, q: int|
                    0 <= p < q < final(self).b_leaf@.prepare_txs.len() ==> tx_le(
                        #[trigger] final(self).b_leaf@.prepare_txs[q],
                        #[trigger] final(self).b_leaf@.prepare_txs[p],
                    )
                &&& forall|p: int, j: int|
                    0 <= p < final(self).b_leaf@.prepare_txs.len() && 0 <= j < final(self).new_tx_mempool@.len() ==> tx_le(
                        #[trigger] final(self).new_tx_mempool@[j],
                        #[trigger] final(self).b_leaf@.prepare_txs[p],
                    )
                &&& forall|i: int|
                    0 <= i < final(self).b_leaf@.precommit_txs.len() ==> old(self).prepared_seen@.contains((#[trigger] final(self).b_leaf@.precommit_txs[i]).id)
                &&& forall|i: int|
                    0 <= i < final(self).b_leaf@.commit_txs.len() ==> old(self).precommitted_seen@.contains((#[trigger] final(self).b_leaf@.commit_txs[i]).id)
                &&& forall|x: u32| #[trigger]
                    seq_has_tx_id(old(self).new_tx_mempool@, x) ==> seq_has_tx_id(
                        final(self).new_tx_mempool@,
                        x,
                    ) || seq_has_tx_id(final(self).b_leaf@.prepare_txs, x)
            },
            crate::subscriber::extends_events(
                old(self).subscriber.events@,
                final(self).subscriber.events@,
            ),
    {
        if self.b_leaf.height == u32::MAX {
            return Vec::new();
        }
        let high_qc = self.high_qc.clone();
        let parent_id = self.b_leaf.id;
        let height = self.b_leaf.height + 1;
        let block = self.create_leaf(idp, parent_id, high_qc, height, current_time);
        self.last_proposed_round = Some(self.current_height);
        let ghost bv = block@;
        let ghost mid = *self;
        let ghost home = self.shard;
        let involved_shards = block.involved_shards();
        let mut out: Vec<(u32, Message)> = Vec::new();
        let mut s: usize = 0;
        let n = involved_shards.len();
        while s < n
            invariant
                s <= n,
                n == involved_shards@.len(),
                mid.wf(),
                *self == mid,
                home == old(self).shard,
                mid.shard == home,
                mid.committee_manager == old(self).committee_manager,
                bv == block@,
                forall|x: Shard| involved_shards@.contains(x) <==> involved(bv, x),
                forall|i: int|
                    0 <= i < out@.len() ==> ((#[trigger] out@[i]).1@ matches
                        MessageView::BlockProposal { block: b, .. } && b == bv),
                forall|i: int|
                    0 <= i < out@.len() ==> proposal_recipient(
                        old(self).committee_manager,
                        home,
                        bv,
                        (#[trigger] out@[i]).0,
                    ),
                forall|j: int, v: u32|
                    0 <= j < s && involved_shards@[j] != home && old(self).committee_manager.has_shard(involved_shards@[j]) && (#[trigger] old(self).committee_manager.members_of(involved_shards@[j]).contains(v))
                        ==> exists|i: int| 0 <= i < out@.len() && (#[trigger] out@[i]).0 == v,
            decreases n - s,
        {
            let shard = involved_shards[s];
            if shard.0 != self.shard.0 {
                if self.committee_manager.contains_shard(shard) {
                    let committee = self.committee_manager.get_committee(shard);
                    proof {
                        assert(involved_shards@[s as int] == shard);
                        assert(involved_shards@.contains(shard));
                        assert(involved(bv, shard));
                        assert(shard != home);
                    }
                    let mut k: usize = 0;
                    let m = committee.len();
                    while k < m
                        invariant
                            k <= m,
                            m == committee@.len(),
                            mid.wf(),
                            *self == mid,
                            home == old(self).shard,
                            mid.committee_manager == old(self).committee_manager,
                            bv == block@,
                            involved(bv, shard),
                            shard != home,
                            old(self).committee_manager.has_shard(shard),
                            committee@ == old(self).committee_manager.members_of(shard),
                            forall|x: Shard| involved_shards@.contains(x) <==> involved(bv, x),
                            forall|i: int|
                                0 <= i < out@.len() ==> ((#[trigger] out@[i]).1@ matches
                                    MessageView::BlockProposal { block: b, .. } && b == bv),
                            forall|i: int|
                                0 <= i < out@.len() ==> proposal_recipient(
                                    old(self).committee_manager,
                                    home,
                                    bv,
                                    (#[trigger] out@[i]).0,
                                ),
                            forall|j: int, v: u32|
                                0 <= j < s && involved_shards@[j] != home && old(self).committee_manager.has_shard(involved_shards@[j]) && (#[trigger] old(self).committee_manager.members_of(involved_shards@[j]).contains(v))
                                    ==> exists|i: int| 0 <= i < out@.len() && (#[trigger] out@[i]).0 == v,
                            forall|kk: int|
                                0 <= kk < k ==> exists|i: int|
                                    0 <= i < out@.len() && (#[trigger] out@[i]).0 == (#[trigger] committee@[kk]),
                        decreases m - k,
                    {
                        let ghost out_pre = out@;
                        out.push(
                            (
                                committee[k],
                                Message::BlockProposal { id: idp.next(), block: block.clone() },
                            ),
                        );
                        proof {
                            assert(out@[out_pre.len() as int].0 == committee@[k as int]);
                            assert(forall|w: int| 0 <= w < out_pre.len() ==> out@[w] == out_pre[w]);
                            assert(proposal_recipient(
                                old(self).committee_manager,
                                home,
                                bv,
                                committee@[k as int],
                            )) by {
                                assert(old(self).committee_manager.members_of(shard).contains(
                                    committee@[k as int],
                                ));
                            };
                            assert forall|j: int, v: u32|
                                0 <= j < s && involved_shards@[j] != home && old(self).committee_manager.has_shard(involved_shards@[j]) && (#[trigger] old(self).committee_manager.members_of(involved_shards@[j]).contains(v))
                                    implies exists|i: int|
                                0 <= i < out@.len() && (#[trigger] out@[i]).0 == v by {
                                let w = choose|w: int|
                                    0 <= w < out_pre.len() && out_pre[w].0 == v;
                                assert(out@[w].0 == v);
                            };
                            assert forall|kk: int|
                                0 <= kk < k + 1 implies exists|i: int|
                                0 <= i < out@.len() && (#[trigger] out@[i]).0 == (#[trigger] committee@[kk]) by {
                                if kk < k {
                                    let w = choose|w: int|
                                        0 <= w < out_pre.len() && out_pre[w].0 == committee@[kk];
                                    assert(out@[w].0 == committee@[kk]);
                                } else {
                                    assert(out@[out_pre.len() as int].0 == committee@[kk]);
                                }
                            };
                        }
                        k = k + 1;
                    }
                    proof {
                        assert forall|j: int, v: u32|
                            0 <= j < s + 1 && involved_shards@[j] != home && old(self).committee_manager.has_shard(involved_shards@[j]) && (#[trigger] old(self).committee_manager.members_of(involved_shards@[j]).contains(v))
                                implies exists|i: int|
                            0 <= i < out@.len() && (#[trigger] out@[i]).0 == v by {
                            if j == s {
                                assert(involved_shards@[j] == shard);
                                let kk = choose|kk: int|
                                    0 <= kk < committee@.len() && committee@[kk] == v;
                                assert(exists|i: int|
                                    0 <= i < out@.len() && (#[trigger] out@[i]).0 == committee@[kk]);
                            }
                        };
                    }
                } else {
                    proof {
                        assert forall|j: int, v: u32|
                            0 <= j < s + 1 && involved_shards@[j] != home && old(self).committee_manager.has_shard(involved_shards@[j]) && (#[trigger] old(self).committee_manager.members_of(involved_shards@[j]).contains(v))
                                implies exists|i: int|
                            0 <= i < out@.len() && (#[trigger] out@[i]).0 == v by {
                            if j == s {
                                assert(involved_shards@[j] == shard);
                                assert(false);
                            }
                        };
                    }
                }
            } else {
                proof {
                    assert(involved_shards@[s as int] == shard);
                    assert forall|j: int, v: u32|
                        0 <= j < s + 1 && involved_shards@[j] != home && old(self).committee_manager.has_shard(involved_shards@[j]) && (#[trigger] old(self).committee_manager.members_of(involved_shards@[j]).contains(v))
                            implies exists|i: int|
                        0 <= i < out@.len() && (#[trigger] out@[i]).0 == v by {
                        if j == s {
                            assert(involved_shards@[j] == shard);
                            assert(shard == home);
                            assert(false);
                        }
                    };
                }
            }
            s = s + 1;
        }
        let committee = self.committee_manager.get_committee(self.shard);
        let ghost members = self.committee_manager.members_of(self.shard);
        let mut k: usize = 0;
        let m = committee.len();
        while k < m
            invariant
                k <= m,
                m == members.len(),
                committee@ == members,
                mid.wf(),
                *self == mid,
                home == old(self).shard,
                mid.shard == home,
                mid.committee_manager == old(self).committee_manager,
                members == old(self).committee_manager.members_of(home),
                bv == block@,
                forall|x: Shard| involved_shards@.contains(x) <==> involved(bv, x),
                forall|i: int|
                    0 <= i < out@.len() ==> ((#[trigger] out@[i]).1@ matches
                        MessageView::BlockProposal { block: b, .. } && b == bv),
                forall|i: int|
                    0 <= i < out@.len() ==> proposal_recipient(
                        old(self).committee_manager,
                        home,
                        bv,
                        (#[trigger] out@[i]).0,
                    ),
                forall|j: int, v: u32|
                    0 <= j < involved_shards@.len() && involved_shards@[j] != home && old(self).committee_manager.has_shard(involved_shards@[j]) && (#[trigger] old(self).committee_manager.members_of(involved_shards@[j]).contains(v))
                        ==> exists|i: int| 0 <= i < out@.len() && (#[trigger] out@[i]).0 == v,
                forall|j: int|
                    0 <= j < k ==> exists|i: int|
                        0 <= i < out@.len() && (#[trigger] out@[i]).0 == (#[trigger] members[j]),
            decreases m - k,
        {
            let ghost out_pre = out@;
            out.push(
                (committee[k], Message::BlockProposal { id: idp.next(), block: block.clone() }),
            );
            proof {
                assert(out@[out_pre.len() as int].0 == members[k as int]);
                assert(forall|w: int| 0 <= w < out_pre.len() ==> out@[w] == out_pre[w]);
                assert(proposal_recipient(
                    old(self).committee_manager,
                    home,
                    bv,
                    members[k as int],
                )) by {
                    assert(old(self).committee_manager.members_of(home).contains(
                        members[k as int],
                    ));
                };
                assert forall|j: int, v: u32|
                    0 <= j < involved_shards@.len() && involved_shards@[j] != home && old(self).committee_manager.has_shard(involved_shards@[j]) && (#[trigger] old(self).committee_manager.members_of(involved_shards@[j]).contains(v))
                        implies exists|i: int|
                    0 <= i < out@.len() && (#[trigger] out@[i]).0 == v by {
                    let w = choose|w: int| 0 <= w < out_pre.len() && out_pre[w].0 == v;
                    assert(out@[w].0 == v);
                };
                assert forall|j: int|
                    0 <= j < k + 1 implies exists|i: int|
                    0 <= i < out@.len() && (#[trigger] out@[i]).0 == (#[trigger] members[j]) by {
                    if j < k {
                        let w = choose|w: int|
                            0 <= w < out_pre.len() && out_pre[w].0 == members[j];
                        assert(out@[w].0 == members[j]);
                    } else {
                        assert(out@[out_pre.len() as int].0 == members[j]);
                    }
                };
            }
            k = k + 1;
        }
        proof {
            assert forall|s2: Shard, v: u32|
                involved(bv, s2) && s2 != home && old(self).committee_manager.has_shard(s2)
                    && (#[trigger] old(self).committee_manager.members_of(s2).contains(v))
                    implies exists|i: int|
                0 <= i < out@.len() && (#[trigger] out@[i]).0 == v by {
                assert(involved_shards@.contains(s2));
                let j = choose|j: int|
                    0 <= j < involved_shards@.len() && involved_shards@[j] == s2;
                assert(old(self).committee_manager.members_of(involved_shards@[j]).contains(v));
            };
        }
        self.b_leaf = block;
        proof {
            lemma_has_id_split(
                old(self).new_tx_mempool@,
                self.new_tx_mempool@,
                self.b_leaf@.prepare_txs,
            );
        }
        out
    }

    /// One turn of this validator: drain the inbox and dispatch every
    /// message, then either propose (as leader, on a fresh certificate or
    /// quorum of view changes, or early after half the timeout) or start a
    /// view change once the timeout budget is spent.
    pub fn update(&mut self, idp: &mut IdProvider, current_time: u64) -> (out: Vec<(u32, Message)>)
        requires
            old(self).wf(),
        ensures
            final(self).wf(),
            final(self).id == old(self).id,
            final(self).shard == old(self).shard,
            final(self).incoming_messages@.len() == 0,
            final(self).last_voted_height >= old(self).last_voted_height,
            final(self).high_qc@.block_height >= old(self).high_qc@.block_height,
            final(self).b_exec == old(self).b_exec || final(self).b_exec@.height > old(self).b_exec@.height,
            final(self).b_exec@.height >= old(self).b_exec@.height,
            crate::subscriber::extends_events(
                old(self).subscriber.events@,
                final(self).subscriber.events@,
            ),
            // at start-up a validator announces itself to the first leader
            old(self).incoming_messages@.len() == 0 && old(self).current_height == 0 ==> exists|
                i: int,
            |
                0 <= i < out@.len() && (#[trigger] out@[i]).0 == next_leader_spec(
                    old(self).committee_manager.members_of(old(self).shard),
                    old(self).current_leader,
                ) && (out@[i].1@ matches MessageView::NewView { height, high_qc, from, .. }
                    && height == 1 && high_qc == old(self).high_qc@ && from == old(self).id),
            // a quiet turn changes nothing: no message, no timeout, no action
            old(self).incoming_messages@.len() == 0 && old(self).current_height != 0 && (old(self).config.delta / 2 > current_time || old(self).time_last_proposal_received
                > current_time - old(self).config.delta / 2) ==> *final(self) == *old(self)
                && out@.len() == 0,
            // the block graph only grows
            forall|x: u32| #[trigger]
                old(self).blocks.has_block(x) ==> final(self).blocks.has_block(x) && final(self).blocks.spec_get(x) == old(self).blocks.spec_get(x),
            old(self).prepared_seen@.subset_of(final(self).prepared_seen@),
            // every queued request for a held block is answered with it
            forall|i: int|
                0 <= i < old(self).incoming_messages@.len() ==> ((#[trigger] old(self).incoming_messages@[i]).1@ matches MessageView::RequestBlock { block_id, request_by, .. }
                    ==> (old(self).blocks.has_block(block_id) ==> response_in(
                    out@,
                    request_by,
                    old(self).blocks.spec_get(block_id),
                ))),
            // every queued transaction of this shard enters the pipeline:
            // the fresh pool, the prepared pipeline, or the new leaf
            forall|i: int|
                0 <= i < old(self).incoming_messages@.len() ==> ((#[trigger] old(self).incoming_messages@[i]).1@ matches MessageView::Transaction { tx, .. }
                    ==> (tx.shards.contains(old(self).shard) ==> seq_has_tx_id(
                    final(self).new_tx_mempool@,
                    tx.id,
                ) || final(self).prepared_seen@.contains(tx.id) || seq_has_tx_id(
                    final(self).b_leaf@.prepare_txs,
                    tx.id,
                ))),
            // with no proposal queued the height is stable during dispatch,
            // so every queued vote and view-change at or above it is counted
            (forall|i: int|
                0 <= i < old(self).incoming_messages@.len() ==> !((#[trigger] old(self).incoming_messages@[i]).1@ is BlockProposal)) ==> {
                &&& forall|i: int|
                    0 <= i < old(self).incoming_messages@.len() ==> ((#[trigger] old(self).incoming_messages@[i]).1@ matches MessageView::Vote { block_id, block_height, vote_by, .. }
                        ==> (block_height >= old(self).current_height ==> final(self).votes.voters_of(block_id).contains(vote_by)))
                &&& forall|i: int|
                    0 <= i < old(self).incoming_messages@.len() ==> ((#[trigger] old(self).incoming_messages@[i]).1@ matches MessageView::NewView { height, from, .. }
                        ==> (height >= old(self).current_height ==> final(self).new_view_votes.voters_of(height).contains(from)))
            },
    {
        let mut out: Vec<(u32, Message)> = Vec::new();
        let mut has_new_qc_or_can_propose = false;
        let ghost inbox0 = old(self).incoming_messages@;
        let ghost no_props = forall|i: int|
            0 <= i < inbox0.len() ==> !((#[trigger] inbox0[i]).1@ is BlockProposal);
        while self.incoming_messages.len() > 0
            invariant
                self.wf(),
                self.id == old(self).id,
                self.shard == old(self).shard,
                old(self).incoming_messages@.len() == 0 ==> *self == *old(self) && out@.len() == 0
                    && !has_new_qc_or_can_propose,
                self.last_voted_height >= old(self).last_voted_height,
                self.high_qc@.block_height >= old(self).high_qc@.block_height,
                self.b_exec == old(self).b_exec || self.b_exec@.height > old(self).b_exec@.height,
                crate::subscriber::extends_events(
                    old(self).subscriber.events@,
                    self.subscriber.events@,
                ),
                inbox0 == old(self).incoming_messages@,
                no_props == (forall|i: int|
                    0 <= i < inbox0.len() ==> !((#[trigger] inbox0[i]).1@ is BlockProposal)),
                self.incoming_messages@.len() <= inbox0.len(),
                self.incoming_messages@ == inbox0.skip(
                    inbox0.len() - self.incoming_messages@.len(),
                ),
                forall|x: u32| #[trigger]
                    old(self).blocks.has_block(x) ==> self.blocks.has_block(x)
                        && self.blocks.spec_get(x) == old(self).blocks.spec_get(x),
                old(self).prepared_seen@.subset_of(self.prepared_seen@),
                forall|i: int|
                    0 <= i < inbox0.len() - self.incoming_messages@.len() ==> ((#[trigger] inbox0[i]).1@ matches MessageView::RequestBlock { block_id, request_by, .. }
                        ==> (old(self).blocks.has_block(block_id) ==> response_in(
                        out@,
                        request_by,
                        old(self).blocks.spec_get(block_id),
                    ))),
                forall|i: int|
                    0 <= i < inbox0.len() - self.incoming_messages@.len() ==> ((#[trigger] inbox0[i]).1@ matches MessageView::Transaction { tx, .. }
                        ==> (tx.shards.contains(old(self).shard) ==> seq_has_tx_id(
                        self.new_tx_mempool@,
                        tx.id,
                    ) || self.prepared_seen@.contains(tx.id))),
                no_props ==> self.current_height == old(self).current_height,
                no_props ==> forall|i: int|
                    0 <= i < inbox0.len() - self.incoming_messages@.len() ==> ((#[trigger] inbox0[i]).1@ matches MessageView::Vote { block_id, block_height, vote_by, .. }
                        ==> (block_height >= old(self).current_height ==> self.votes.voters_of(
                        block_id,
                    ).contains(vote_by))),
                no_props ==> forall|i: int|
                    0 <= i < inbox0.len() - self.incoming_messages@.len() ==> ((#[trigger] inbox0[i]).1@ matches MessageView::NewView { height, from, .. }
                        ==> (height >= old(self).current_height ==> self.new_view_votes.voters_of(
                        height,
                    ).contains(from))),
            decreases self.incoming_messages@.len(),
        {
            let ghost done = inbox0.len() - self.incoming_messages@.len();
            let ghost entry_state = *self;
            let (msg_time, message) = self.incoming_messages.remove(0);
            proof {
                assert(inbox0.skip(done as int)[0] == inbox0[done as int]);
                assert(message == inbox0[done as int].1);
                assert(self.incoming_messages@ =~= inbox0.skip(done as int + 1));
            }
            let ghost out_entry = out@;
            match message {
                Message::Transaction { id: _, tx } => {
                    let ghost txv = tx@;
                    let ghost pool_entry = self.new_tx_mempool@;
                    self.add_transaction(tx, msg_time);
                    proof {
                        if txv.shards.contains(old(self).shard) {
                            assert(self.new_tx_mempool@ == pool_entry.push(txv));
                            crate::transaction::lemma_has_id_push(pool_entry, txv, txv.id);
                            assert(seq_has_tx_id(self.new_tx_mempool@, txv.id));
                        }
                        assert forall|x: u32| #[trigger]
                            seq_has_tx_id(pool_entry, x) implies seq_has_tx_id(
                            self.new_tx_mempool@,
                            x,
                        ) by {
                            if self.new_tx_mempool@ == pool_entry.push(txv) {
                                crate::transaction::lemma_has_id_push(pool_entry, txv, x);
                            }
                        };
                    }
                },
                Message::BlockProposal { id, block } => {
                    let original = Message::BlockProposal { id, block: block.clone() };
                    let mut msgs = self.handle_block_proposal(
                        idp,
                        msg_time,
                        block,
                        current_time,
                        original,
                    );
                    out.append(&mut msgs);
                },
                Message::NewView { id: _, height, high_qc, from } => {
                    let can = self.handle_new_view(height, high_qc, from);
                    if can {
                        has_new_qc_or_can_propose = true;
                    }
                },
                Message::Vote { id: _, block_id, block_height, vote_by } => {
                    let formed = self.on_receive_vote(
                        idp,
                        block_id,
                        block_height,
                        vote_by,
                        current_time,
                    );
                    if formed {
                        has_new_qc_or_can_propose = true;
                    }
                },
                Message::RequestBlock { id: _, block_id, request_by } => {
                    match self.handle_request_block(idp, block_id, request_by) {
                        Some(resp) => {
                            out.push(resp);
                            proof {
                                if old(self).blocks.has_block(block_id) {
                                    assert(out@[out_entry.len() as int] == resp);
                                    assert(resp.1@ matches MessageView::RequestBlockResponse {
                                        block: b,
                                        ..
                                    } && b == old(self).blocks.spec_get(block_id));
                                    assert(response_in(
                                        out@,
                                        request_by,
                                        old(self).blocks.spec_get(block_id),
                                    ));
                                }
                            }
                        },
                        None => {
                            proof {
                                assert(!old(self).blocks.has_block(block_id));
                            }
                        },
                    }
                },
                Message::RequestBlockResponse { id: _, block } => {
                    let mut msgs = self.handle_request_block_response(block);
                    out.append(&mut msgs);
                },
            }
            proof {
                assert(forall|w: int| 0 <= w < out_entry.len() ==> out@[w] == out_entry[w]);
                assert forall|i: int|
                    0 <= i < done + 1 implies ((#[trigger] inbox0[i]).1@ matches
                    MessageView::RequestBlock { block_id, request_by, .. } ==> (old(self).blocks.has_block(block_id) ==> response_in(
                    out@,
                    request_by,
                    old(self).blocks.spec_get(block_id),
                ))) by {
                    if i < done {
                        match inbox0[i].1@ {
                            MessageView::RequestBlock { block_id, request_by, .. } => {
                                if old(self).blocks.has_block(block_id) {
                                    lemma_response_in_grow(
                                        out_entry,
                                        out@,
                                        request_by,
                                        old(self).blocks.spec_get(block_id),
                                    );
                                }
                            },
                            _ => {},
                        }
                    }
                };
                assert forall|i: int|
                    0 <= i < done + 1 implies ((#[trigger] inbox0[i]).1@ matches
                    MessageView::Transaction { tx, .. } ==> (tx.shards.contains(old(self).shard)
                    ==> seq_has_tx_id(self.new_tx_mempool@, tx.id) || self.prepared_seen@.contains(
                    tx.id,
                ))) by {
                    if i < done {
                        match inbox0[i].1@ {
                            MessageView::Transaction { tx, .. } => {
                                if tx.shards.contains(old(self).shard) {
                                    assert(seq_has_tx_id(entry_state.new_tx_mempool@, tx.id)
                                        || entry_state.prepared_seen@.contains(tx.id));
                                }
                            },
                            _ => {},
                        }
                    }
                };
                if no_props {
                    assert forall|i: int|
                        0 <= i < done + 1 implies ((#[trigger] inbox0[i]).1@ matches
                        MessageView::Vote { block_id, block_height, vote_by, .. } ==> (block_height
                        >= old(self).current_height ==> self.votes.voters_of(block_id).contains(
                        vote_by,
                    ))) by {
                        if i < done {
                            match inbox0[i].1@ {
                                MessageView::Vote { block_id, block_height, vote_by, .. } => {
                                    if block_height >= old(self).current_height {
                                        assert(entry_state.votes.voters_of(block_id).contains(
                                            vote_by,
                                        ));
                                        assert(self.votes.voters_of(block_id).contains(vote_by));
                                    }
                                },
                                _ => {},
                            }
                        }
                    };
                    assert forall|i: int|
                        0 <= i < done + 1 implies ((#[trigger] inbox0[i]).1@ matches
                        MessageView::NewView { height, from, .. } ==> (height >= old(self).current_height ==> self.new_view_votes.voters_of(height).contains(from))) by {
                        if i < done {
                            match inbox0[i].1@ {
                                MessageView::NewView { height, from, .. } => {
                                    if height >= old(self).current_height {
                                        assert(entry_state.new_view_votes.voters_of(
                                            height,
                                        ).contains(from));
                                        assert(self.new_view_votes.voters_of(height).contains(
                                            from,
                                        ));
                                    }
                                },
                                _ => {},
                            }
                        }
                    };
                }
            }
        }
        let ghost out_loop = out@;
        if has_new_qc_or_can_propose {
            if self.is_leader() {
                let mut msgs = self.on_propose(idp, current_time);
                out.append(&mut msgs);
            }
        } else {
            // propose early to avoid a needless view change
            let half = self.config.delta / 2;
            if current_time >= half && self.time_last_proposal_received <= current_time - half {
                if self.is_leader() {
                    let mut msgs = self.on_propose(idp, current_time);
                    out.append(&mut msgs);
                }
            }
            // at start-up, or once the timeout budget is spent, change view
            if self.current_height == 0 || (current_time >= self.config.delta
                && self.time_last_proposal_received <= current_time - self.config.delta) {
                let ghost out_pre = out@;
                let ghost pre_sync = *self;
                let mut msgs = self.on_next_sync_view(idp);
                out.append(&mut msgs);
                proof {
                    if old(self).incoming_messages@.len() == 0 && old(self).current_height == 0 {
                        let w = out_pre.len() as int;
                        assert(out@[w].0 == next_leader_spec(
                            old(self).committee_manager.members_of(old(self).shard),
                            old(self).current_leader,
                        ));
                        assert(out@[w].1@ matches MessageView::NewView { height, high_qc, from, .. }
                            && height == 1 && high_qc == old(self).high_qc@ && from == old(self).id);
                    }
                }
                self.time_last_proposal_received = current_time;
            }
        }
        proof {
            assert(forall|w: int| 0 <= w < out_loop.len() ==> out@[w] == out_loop[w]);
            assert forall|i: int|
                0 <= i < inbox0.len() implies ((#[trigger] inbox0[i]).1@ matches
                MessageView::RequestBlock { block_id, request_by, .. } ==> (old(self).blocks.has_block(block_id) ==> response_in(
                out@,
                request_by,
                old(self).blocks.spec_get(block_id),
            ))) by {
                match inbox0[i].1@ {
                    MessageView::RequestBlock { block_id, request_by, .. } => {
                        if old(self).blocks.has_block(block_id) {
                            lemma_response_in_grow(
                                out_loop,
                                out@,
                                request_by,
                                old(self).blocks.spec_get(block_id),
                            );
                        }
                    },
                    _ => {},
                }
            };
        }
        out
    }

    /// A snapshot of this validator's headline state.
    pub fn print_stats(&self) -> (r: NodeSummary)
        ensures
            r == (NodeSummary {
                id: self.id,
                shard: self.shard,
                current_leader: self.current_leader,
                current_height: self.current_height,
                b_leaf_height: self.b_leaf.height,
                b_exec_height: self.b_exec.height,
                locked_height: self.locked_node.height,
                high_qc_height: self.high_qc.block_height,
                new_tx: self.new_tx_mempool@.len() as usize,
                prepare_waiting: self.waiting_prepared_mempool@.len() as usize,
                prepare_ready: self.ready_prepared_mempool@.len() as usize,
                precommit_waiting: self.waiting_pre_committed_mempool@.len() as usize,
                precommit_ready: self.ready_pre_committed_mempool@.len() as usize,
            }),
    {
        NodeSummary {
            id: self.id,
            shard: self.shard,
            current_leader: self.current_leader,
            current_height: self.current_height,
            b_leaf_height: self.b_leaf.height,
            b_exec_height: self.b_exec.height,
            locked_height: self.locked_node.height,
            high_qc_height: self.high_qc.block_height,
            new_tx: self.new_tx_mempool.len(),
            prepare_waiting: self.waiting_prepared_mempool.len(),
            prepare_ready: self.ready_prepared_mempool.len(),
            precommit_waiting: self.waiting_pre_committed_mempool.len(),
            precommit_ready: self.ready_pre_committed_mempool.len(),
        }
    }

    /// Whether this validator is the leader whose turn follows the proposer
    /// of the current tip.
    pub fn is_leader(&self) -> (r: bool)
        requires
            self.wf(),
        ensures
            r == (next_leader_spec(
                self.committee_manager.members_of(self.shard),
                self.b_leaf.proposed_by,
            ) == self.id),
    {
        let next = self.committee_manager.next_leader(self.shard, self.b_leaf.proposed_by);
        next == self.id
    }
}

/// `m` is one of the messages snoozed under `key`.
pub open spec fn snoozed_source(snoozed: Seq<(u32, u64, Message)>, key: u32, m: MessageView) -> bool {
    exists|j: int| 0 <= j < snoozed.len() && (#[trigger] snoozed[j]).0 == key && snoozed[j].2@ == m
}

/// `out` carries, for `request_by`, a response holding block `bv`.
pub open spec fn response_in(
    out: Seq<(u32, Message)>,
    request_by: u32,
    bv: crate::block::BlockView,
) -> bool {
    exists|x: int|
        0 <= x < out.len() && (#[trigger] out[x]).0 == request_by && (out[x].1@ matches
        MessageView::RequestBlockResponse { block: b, .. } && b == bv)
}

/// A response stays in the result as it grows.
proof fn lemma_response_in_grow(
    out_pre: Seq<(u32, Message)>,
    out: Seq<(u32, Message)>,
    request_by: u32,
    bv: crate::block::BlockView,
)
    requires
        response_in(out_pre, request_by, bv),
        out_pre.len() <= out.len(),
        forall|w: int| 0 <= w < out_pre.len() ==> out[w] == out_pre[w],
    ensures
        response_in(out, request_by, bv),
{
    let x = choose|x: int|
        0 <= x < out_pre.len() && (#[trigger] out_pre[x]).0 == request_by && (out_pre[x].1@ matches
        MessageView::RequestBlockResponse { block: b, .. } && b == bv);
    assert(out[x] == out_pre[x]);
}

/// Some event at or after position `from` publishes that `tx_id` moved to
/// the ready-prepared pool.
pub open spec fn moved_event_after(
    evs: Seq<Event>,
    from: int,
    tx_id: u32,
    in_vn: u32,
    in_block: u32,
) -> bool {
    exists|e: int|
        from <= e < evs.len() && ((#[trigger] evs[e]) matches
        Event::TransactionMovedToPrepareReady { tx_id: t, in_vn: v, in_block: b, .. } && t == tx_id
            && v == in_vn && b == in_block)
}

/// The events from position `off` on publish, in order, the commits of
/// exactly the transactions of `txs`.
pub open spec fn commit_block_at(
    evs: Seq<Event>,
    off: int,
    txs: Seq<TxView>,
    shard: Shard,
    qc_id: u32,
    t: u64,
) -> bool {
    forall|i: int|
        0 <= i < txs.len() ==> evs[off + i] == (Event::TransactionCommitted {
            tx_id: (#[trigger] txs[i]).id,
            shard,
            qc_id,
            t,
        })
}

/// Every commit event from position `from` on lies in the block of `k`
/// events at `off`.
pub open spec fn only_commits_within(evs: Seq<Event>, from: int, off: int, k: int) -> bool {
    forall|e: int|
        from <= e < evs.len() && crate::subscriber::is_commit_event(#[trigger] evs[e]) ==> off <= e
            < off + k
}

/// Some event at or after position `from` publishes the commit of `tx_id`.
pub open spec fn committed_event_after(
    evs: Seq<Event>,
    from: int,
    tx_id: u32,
    shard: Shard,
    qc_id: u32,
    t: u64,
) -> bool {
    exists|e: int|
        from <= e < evs.len() && evs[e] == (Event::TransactionCommitted { tx_id, shard, qc_id, t })
}

/// When one pool's contents split exactly into two parts, every id of the
/// pool is in one of the parts.
proof fn lemma_has_id_split(a: Seq<TxView>, b: Seq<TxView>, c: Seq<TxView>)
    requires
        a.to_multiset() == b.to_multiset().add(c.to_multiset()),
    ensures
        forall|x: u32| #[trigger]
            seq_has_tx_id(a, x) ==> seq_has_tx_id(b, x) || seq_has_tx_id(c, x),
{
    a.to_multiset_ensures();
    b.to_multiset_ensures();
    c.to_multiset_ensures();
    assert forall|x: u32| #[trigger]
        seq_has_tx_id(a, x) implies (seq_has_tx_id(b, x) || seq_has_tx_id(c, x)) by {
        let w = choose|w: int| 0 <= w < a.len() && a[w].id == x;
        let tv = a[w];
        assert(a.contains(tv));
        assert(a.to_multiset().count(tv) > 0);
        assert(b.to_multiset().count(tv) > 0 || c.to_multiset().count(tv) > 0);
        if b.to_multiset().count(tv) > 0 {
            assert(b.contains(tv));
            let j = choose|j: int| 0 <= j < b.len() && b[j] == tv;
            assert(b[j].id == x);
        } else {
            assert(c.contains(tv));
            let j = choose|j: int| 0 <= j < c.len() && c[j] == tv;
            assert(c[j].id == x);
        }
    };
}

/// Growing the vote set of one block keeps the validator well-formed: every
/// formed certificate's vote set can only have grown too.
proof fn lemma_votes_grow_wf(a: ValidatorNode, b: ValidatorNode, key: u32)
    requires
        a.wf(),
        b.votes.wf(),
        b.subscriber.wf(),
        forall|k: u32| k != key ==> #[trigger] b.votes.voters_of(k) == a.votes.voters_of(k),
        b.votes.voters_of(key).len() >= a.votes.voters_of(key).len(),
        b == (ValidatorNode { votes: b.votes, subscriber: b.subscriber, ..a }),
    ensures
        b.wf(),
{
    assert forall|i: int|
        0 <= i < b.formed_qcs@.len() implies b.votes.voters_of(
        (#[trigger] b.formed_qcs@[i]).block_id,
    ).len() >= quorum(b.committee_n()) by {
        let bid = b.formed_qcs@[i].block_id;
        assert(a.votes.voters_of(bid).len() >= quorum(a.committee_n()));
        if bid != key {
            assert(b.votes.voters_of(bid) == a.votes.voters_of(bid));
        }
    };
}

/// Appending a freshly formed certificate keeps the validator well-formed:
/// it carries exactly a quorum of distinct votes for a block that never had
/// a certificate before.
proof fn lemma_formed_qc_wf(a: ValidatorNode, b: ValidatorNode, qv: QcView)
    requires
        a.wf(),
        qv.votes == a.votes.voters_of(qv.block_id),
        qv.votes.len() == quorum(a.committee_n()),
        distinct_seq(qv.votes),
        forall|i: int|
            0 <= i < a.formed_qcs@.len() ==> (#[trigger] a.formed_qcs@[i]).block_id
                != qv.block_id,
        b.formed_qcs@ == a.formed_qcs@.push(qv),
        b == (ValidatorNode { formed_qcs: b.formed_qcs, ..a }),
    ensures
        b.wf(),
{
    let n = a.formed_qcs@.len() as int;
    assert(b.formed_qcs@[n] == qv);
    assert(forall|i: int| 0 <= i < n ==> b.formed_qcs@[i] == a.formed_qcs@[i]);
    assert forall|i: int|
        0 <= i < b.formed_qcs@.len() implies (#[trigger] b.formed_qcs@[i]).votes.len() >= quorum(
        b.committee_n(),
    ) by {
        if i < n {
            assert(a.formed_qcs@[i].votes.len() >= quorum(a.committee_n()));
        }
    };
    assert forall|i: int|
        0 <= i < b.formed_qcs@.len() implies distinct_seq(
        (#[trigger] b.formed_qcs@[i]).votes,
    ) by {
        if i < n {
            assert(distinct_seq(a.formed_qcs@[i].votes));
        }
    };
    assert forall|i: int|
        0 <= i < b.formed_qcs@.len() implies b.votes.voters_of(
        (#[trigger] b.formed_qcs@[i]).block_id,
    ).len() >= quorum(b.committee_n()) by {
        if i < n {
            assert(a.votes.voters_of(a.formed_qcs@[i].block_id).len() >= quorum(
                a.committee_n(),
            ));
        }
    };
    assert forall|i: int, j: int|
        0 <= i < j < b.formed_qcs@.len() implies b.formed_qcs@[i].block_id
        != b.formed_qcs@[j].block_id by {
        if j < n {
            assert(a.formed_qcs@[i].block_id != a.formed_qcs@[j].block_id);
        } else {
            assert(a.formed_qcs@[i].block_id != qv.block_id);
        }
    };
}

/// Dropping entries from the ready-prepared pool keeps the validator
/// well-formed.
proof fn lemma_shrunk_ready_prepared_wf(a: ValidatorNode, b: ValidatorNode)
    requires
        a.wf(),
        forall|x: u32| #[trigger]
            seq_has_tx_id(b.ready_prepared_mempool@, x) ==> seq_has_tx_id(
                a.ready_prepared_mempool@,
                x,
            ),
        b == (ValidatorNode { ready_prepared_mempool: b.ready_prepared_mempool, ..a }),
    ensures
        b.wf(),
{
}

/// Dropping entries from the ready-precommitted pool keeps the validator
/// well-formed.
proof fn lemma_shrunk_ready_precommitted_wf(a: ValidatorNode, b: ValidatorNode)
    requires
        a.wf(),
        forall|x: u32| #[trigger]
            seq_has_tx_id(b.ready_pre_committed_mempool@, x) ==> seq_has_tx_id(
                a.ready_pre_committed_mempool@,
                x,
            ),
        b == (ValidatorNode {
            ready_pre_committed_mempool: b.ready_pre_committed_mempool,
            ..a
        }),
    ensures
        b.wf(),
{
}

/// Pushing into the ready-prepared pool a transaction that sits in neither
/// ready pool, and is tracked as prepared, keeps the validator well-formed.
proof fn lemma_ready_prepared_push_wf(a: ValidatorNode, b: ValidatorNode, tv: TxView)
    requires
        a.wf(),
        !seq_has_tx_id(a.ready_prepared_mempool@, tv.id),
        !seq_has_tx_id(a.ready_pre_committed_mempool@, tv.id),
        a.prepared_seen@.contains(tv.id),
        b.ready_prepared_mempool@ == a.ready_prepared_mempool@.push(tv),
        b == (ValidatorNode {
            ready_prepared_mempool: b.ready_prepared_mempool,
            subscriber: b.subscriber,
            ..a
        }),
        b.subscriber.wf(),
    ensures
        b.wf(),
        seq_has_tx_id(b.ready_prepared_mempool@, tv.id),
        forall|x: u32| #[trigger]
            seq_has_tx_id(b.ready_prepared_mempool@, x) <==> seq_has_tx_id(
                a.ready_prepared_mempool@,
                x,
            ) || x == tv.id,
{
    assert forall|x: u32| #[trigger]
        seq_has_tx_id(b.ready_prepared_mempool@, x) <==> (seq_has_tx_id(
        a.ready_prepared_mempool@,
        x,
    ) || x == tv.id) by {
        crate::transaction::lemma_has_id_push(a.ready_prepared_mempool@, tv, x);
    };
    assert(b.ready_exclusive()) by {
        assert forall|x: u32|
            !(seq_has_tx_id(b.ready_prepared_mempool@, x) && seq_has_tx_id(
                b.ready_pre_committed_mempool@,
                x,
            )) by {
            crate::transaction::lemma_has_id_push(a.ready_prepared_mempool@, tv, x);
        };
    };
    assert(b.lifecycle_tracked()) by {
        assert forall|x: u32| #[trigger]
            seq_has_tx_id(b.ready_prepared_mempool@, x) implies b.prepared_seen@.contains(x) by {
            crate::transaction::lemma_has_id_push(a.ready_prepared_mempool@, tv, x);
        };
    };
}

/// Pushing into the ready-precommitted pool a transaction that sits in
/// neither ready pool, and is tracked as precommitted, keeps the validator
/// well-formed.
proof fn lemma_ready_precommitted_push_wf(a: ValidatorNode, b: ValidatorNode, tv: TxView)
    requires
        a.wf(),
        !seq_has_tx_id(a.ready_prepared_mempool@, tv.id),
        !seq_has_tx_id(a.ready_pre_committed_mempool@, tv.id),
        a.precommitted_seen@.contains(tv.id),
        b.ready_pre_committed_mempool@ == a.ready_pre_committed_mempool@.push(tv),
        b == (ValidatorNode {
            ready_pre_committed_mempool: b.ready_pre_committed_mempool,
            subscriber: b.subscriber,
            ..a
        }),
        b.subscriber.wf(),
    ensures
        b.wf(),
        seq_has_tx_id(b.ready_pre_committed_mempool@, tv.id),
        forall|x: u32| #[trigger]
            seq_has_tx_id(b.ready_pre_committed_mempool@, x) <==> seq_has_tx_id(
                a.ready_pre_committed_mempool@,
                x,
            ) || x == tv.id,
{
    assert forall|x: u32| #[trigger]
        seq_has_tx_id(b.ready_pre_committed_mempool@, x) <==> (seq_has_tx_id(
        a.ready_pre_committed_mempool@,
        x,
    ) || x == tv.id) by {
        crate::transaction::lemma_has_id_push(a.ready_pre_committed_mempool@, tv, x);
    };
    assert(b.ready_exclusive()) by {
        assert forall|x: u32|
            !(seq_has_tx_id(b.ready_prepared_mempool@, x) && seq_has_tx_id(
                b.ready_pre_committed_mempool@,
                x,
            )) by {
            crate::transaction::lemma_has_id_push(a.ready_pre_committed_mempool@, tv, x);
        };
    };
    assert(b.lifecycle_tracked()) by {
        assert forall|x: u32| #[trigger]
            seq_has_tx_id(b.ready_pre_committed_mempool@, x) implies b.precommitted_seen@.contains(
            x,
        ) by {
            crate::transaction::lemma_has_id_push(a.ready_pre_committed_mempool@, tv, x);
        };
    };
}

} // verus!
