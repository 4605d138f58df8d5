use vstd::prelude::*;
use crate::transaction::Shard;

verus! {

broadcast use vstd::seq_lib::group_seq_properties;

/// Per-validator counters the sink aggregates.
#[derive(Clone, Copy, Debug, Default, PartialEq, Eq, Structural)]
pub struct Stats {
    pub leaves_created: usize,
    pub request_block: usize,
    pub leader_failures: usize,
}

/// One lifecycle event, as published to the observability sink.
#[derive(Clone, Copy, Debug, PartialEq, Eq, Structural)]
pub enum Event {
    CreateShard { shard_id: u32 },
    CreateVn { vn_id: u32, shard: Shard, latency: u64 },
    CreateIndexer { id: u32 },
    CreateLeaf { block_id: u32, parent_id: u32, height: u32, proposed_by: u32, justify_qc_id: u32, t: u64 },
    Vote { vn_id: u32, block_id: u32, t: u64 },
    QcCreated { qc_id: u32, t: u64, block_id: u32 },
    TransactionQueued { tx_id: u32, t: u64 },
    TransactionMovedToPrepareReady { tx_id: u32, in_vn: u32, t: u64, in_block: u32 },
    TransactionPreparedReady { tx_id: u32, shard: Shard, qc_id: u32, t: u64 },
    TransactionPreparedWaiting { tx_id: u32, shard: Shard, qc_id: u32, t: u64 },
    TransactionPrecommitReady { tx_id: u32, shard: Shard, qc_id: u32, t: u64 },
    TransactionPrecommitWaiting { tx_id: u32, shard: Shard, qc_id: u32, t: u64 },
    TransactionCommitted { tx_id: u32, shard: Shard, qc_id: u32, t: u64 },
    MessageSent { from: u32, to: u32, message_id: u32, t: u64 },
    RequestBlock { vn_id: u32 },
    LeaderFailure { vn_id: u32 },
}

/// The events recorded for one validator id in the stats table.
#[derive(Clone, Copy, Debug, PartialEq, Eq, Structural)]
pub struct StatsEntry {
    pub vn_id: u32,
    pub stats: Stats,
}

/// The observability sink: an append-only log of typed lifecycle events,
/// with per-validator counters. Persisting the log elsewhere is a consumer's
/// business; the simulation only appends.
#[derive(Debug)]
pub struct Subscriber {
    pub events: Vec<Event>,
    pub stats: Vec<StatsEntry>,
}

/// Whether an event publishes a commit.
pub open spec fn is_commit_event(e: Event) -> bool {
    e matches Event::TransactionCommitted { .. }
}

/// `b` is `a` with zero or more events appended.
pub open spec fn extends_events(a: Seq<Event>, b: Seq<Event>) -> bool {
    b.len() >= a.len() && forall|e: int| 0 <= e < a.len() ==> b[e] == a[e]
}

/// The counters recorded for `vn_id` (zero if none).
pub open spec fn stats_of(s: Seq<StatsEntry>, vn_id: u32) -> Stats {
    if exists|i: int| 0 <= i < s.len() && s[i].vn_id == vn_id {
        s[choose|i: int| 0 <= i < s.len() && s[i].vn_id == vn_id].stats
    } else {
        Stats { leaves_created: 0, request_block: 0, leader_failures: 0 }
    }
}

impl Subscriber {
    /// Each validator id has at most one stats row.
    pub open spec fn wf(self) -> bool {
        forall|i: int, j: int|
            0 <= i < j < self.stats@.len() ==> self.stats@[i].vn_id != self.stats@[j].vn_id
    }

    pub fn new() -> (r: Self)
        ensures
            r.wf(),
            r.events@ == Seq::<Event>::empty(),
            r.stats@ == Seq::<StatsEntry>::empty(),
    {
        Self { events: Vec::new(), stats: Vec::new() }
    }

    /// Append `ev` to the log.
    fn record(&mut self, ev: Event)
        ensures
            final(self).events@ == old(self).events@.push(ev),
            final(self).stats@ == old(self).stats@,
            old(self).wf() ==> final(self).wf(),
    {
        self.events.push(ev);
    }

    pub fn create_shard(&mut self, shard_id: u32)
        ensures
            final(self).events@ == old(self).events@.push(Event::CreateShard { shard_id }),
            final(self).stats@ == old(self).stats@,
            old(self).wf() ==> final(self).wf(),
    {
        self.record(Event::CreateShard { shard_id });
    }

    pub fn create_vn(&mut self, vn_id: u32, shard: Shard, latency: u64)
        ensures
            final(self).events@ == old(self).events@.push(
                Event::CreateVn { vn_id, shard, latency },
            ),
            final(self).stats@ == old(self).stats@,
            old(self).wf() ==> final(self).wf(),
    {
        self.record(Event::CreateVn { vn_id, shard, latency });
    }

    pub fn create_indexer(&mut self, id: u32)
        ensures
            final(self).events@ == old(self).events@.push(Event::CreateIndexer { id }),
            final(self).stats@ == old(self).stats@,
            old(self).wf() ==> final(self).wf(),
    {
        self.record(Event::CreateIndexer { id });
    }

    /// A leader created a leaf: log it and count it against the proposer.
    pub fn on_create_leaf(
        &mut self,
        block_id: u32,
        parent_id: u32,
        height: u32,
        proposed_by: u32,
        justify_qc_id: u32,
        t: u64,
    )
        requires
            old(self).wf(),
        ensures
            final(self).wf(),
            final(self).events@ == old(self).events@.push(
                Event::CreateLeaf { block_id, parent_id, height, proposed_by, justify_qc_id, t },
            ),
            stats_of(final(self).stats@, proposed_by).leaves_created == (if stats_of(
                old(self).stats@,
                proposed_by,
            ).leaves_created < usize::MAX {
                stats_of(old(self).stats@, proposed_by).leaves_created + 1
            } else {
                usize::MAX as int
            }),
            forall|v: u32|
                v != proposed_by ==> #[trigger] stats_of(final(self).stats@, v) == stats_of(
                    old(self).stats@,
                    v,
                ),
    {
        self.record(Event::CreateLeaf { block_id, parent_id, height, proposed_by, justify_qc_id, t });
        self.bump_leaves(proposed_by);
    }

    pub fn on_vote(&mut self, vn_id: u32, block_id: u32, t: u64)
        ensures
            final(self).events@ == old(self).events@.push(Event::Vote { vn_id, block_id, t }),
            final(self).stats@ == old(self).stats@,
            old(self).wf() ==> final(self).wf(),
    {
        self.record(Event::Vote { vn_id, block_id, t });
    }

    pub fn on_qc_created(&mut self, qc_id: u32, t: u64, block_id: u32)
        ensures
            final(self).events@ == old(self).events@.push(
                Event::QcCreated { qc_id, t, block_id },
            ),
            final(self).stats@ == old(self).stats@,
            old(self).wf() ==> final(self).wf(),
    {
        self.record(Event::QcCreated { qc_id, t, block_id });
    }

    pub fn on_transaction_queued(&mut self, tx_id: u32, t: u64)
        ensures
            final(self).events@ == old(self).events@.push(Event::TransactionQueued { tx_id, t }),
            final(self).stats@ == old(self).stats@,
            old(self).wf() ==> final(self).wf(),
    {
        self.record(Event::TransactionQueued { tx_id, t });
    }

    pub fn on_transaction_moved_to_prepare_ready(
        &mut self,
        tx_id: u32,
        in_vn: u32,
        t: u64,
        in_block: u32,
    )
        ensures
            final(self).events@ == old(self).events@.push(
                Event::TransactionMovedToPrepareReady { tx_id, in_vn, t, in_block },
            ),
            final(self).stats@ == old(self).stats@,
            old(self).wf() ==> final(self).wf(),
    {
        self.record(Event::TransactionMovedToPrepareReady { tx_id, in_vn, t, in_block });
    }

    pub fn on_transaction_prepared_ready(&mut self, tx_id: u32, shard: Shard, qc_id: u32, t: u64)
        ensures
            final(self).events@ == old(self).events@.push(
                Event::TransactionPreparedReady { tx_id, shard, qc_id, t },
            ),
            final(self).stats@ == old(self).stats@,
            old(self).wf() ==> final(self).wf(),
    {
        self.record(Event::TransactionPreparedReady { tx_id, shard, qc_id, t });
    }

    pub fn on_transaction_prepared_waiting(&mut self, tx_id: u32, shard: Shard, qc_id: u32, t: u64)
        ensures
            final(self).events@ == old(self).events@.push(
                Event::TransactionPreparedWaiting { tx_id, shard, qc_id, t },
            ),
            final(self).stats@ == old(self).stats@,
            old(self).wf() ==> final(self).wf(),
    {
        self.record(Event::TransactionPreparedWaiting { tx_id, shard, qc_id, t });
    }

    pub fn on_transaction_precommit_ready(&mut self, tx_id: u32, shard: Shard, qc_id: u32, t: u64)
        ensures
            final(self).events@ == old(self).events@.push(
                Event::TransactionPrecommitReady { tx_id, shard, qc_id, t },
            ),
            final(self).stats@ == old(self).stats@,
            old(self).wf() ==> final(self).wf(),
    {
        self.record(Event::TransactionPrecommitReady { tx_id, shard, qc_id, t });
    }

    pub fn on_transaction_precommit_waiting(
        &mut self,
        tx_id: u32,
        shard: Shard,
        qc_id: u32,
        t: u64,
    )
        ensures
            final(self).events@ == old(self).events@.push(
                Event::TransactionPrecommitWaiting { tx_id, shard, qc_id, t },
            ),
            final(self).stats@ == old(self).stats@,
            old(self).wf() ==> final(self).wf(),
    {
        self.record(Event::TransactionPrecommitWaiting { tx_id, shard, qc_id, t });
    }

    pub fn on_transaction_committed(&mut self, tx_id: u32, shard: Shard, qc_id: u32, t: u64)
        ensures
            final(self).events@ == old(self).events@.push(
                Event::TransactionCommitted { tx_id, shard, qc_id, t },
            ),
            final(self).stats@ == old(self).stats@,
            old(self).wf() ==> final(self).wf(),
    {
        self.record(Event::TransactionCommitted { tx_id, shard, qc_id, t });
    }

    pub fn on_message_sent(&mut self, from: u32, to: u32, message_id: u32, t: u64)
        ensures
            final(self).events@ == old(self).events@.push(
                Event::MessageSent { from, to, message_id, t },
            ),
            final(self).stats@ == old(self).stats@,
            old(self).wf() ==> final(self).wf(),
    {
        self.record(Event::MessageSent { from, to, message_id, t });
    }

    /// A validator asked a peer for a missing block: log and count it.
    pub fn on_request_block(&mut self, vn_id: u32)
        requires
            old(self).wf(),
        ensures
            final(self).wf(),
            final(self).events@ == old(self).events@.push(Event::RequestBlock { vn_id }),
            stats_of(final(self).stats@, vn_id).request_block == (if stats_of(
                old(self).stats@,
                vn_id,
            ).request_block < usize::MAX {
                stats_of(old(self).stats@, vn_id).request_block + 1
            } else {
                usize::MAX as int
            }),
            forall|v: u32|
                v != vn_id ==> #[trigger] stats_of(final(self).stats@, v) == stats_of(
                    old(self).stats@,
                    v,
                ),
    {
        self.record(Event::RequestBlock { vn_id });
        self.bump_request_block(vn_id);
    }

    /// A validator observed its leader fail: log and count it.
    pub fn on_leader_failure(&mut self, vn_id: u32)
        requires
            old(self).wf(),
        ensures
            final(self).wf(),
            final(self).events@ == old(self).events@.push(Event::LeaderFailure { vn_id }),
            stats_of(final(self).stats@, vn_id).leader_failures == (if stats_of(
                old(self).stats@,
                vn_id,
            ).leader_failures < usize::MAX {
                stats_of(old(self).stats@, vn_id).leader_failures + 1
            } else {
                usize::MAX as int
            }),
            forall|v: u32|
                v != vn_id ==> #[trigger] stats_of(final(self).stats@, v) == stats_of(
                    old(self).stats@,
                    v,
                ),
    {
        self.record(Event::LeaderFailure { vn_id });
        self.bump_leader_failures(vn_id);
    }

    /// A snapshot of every validator's counters.
    pub fn print_stats(&self) -> (r: Vec<StatsEntry>)
        ensures
            r@ == self.stats@,
    {
        let mut r: Vec<StatsEntry> = Vec::new();
        let mut i: usize = 0;
        while i < self.stats.len()
            invariant
                i <= self.stats@.len(),
                r@ == self.stats@.take(i as int),
            decreases self.stats@.len() - i,
        {
            r.push(self.stats[i]);
            proof {
                assert(r@ =~= self.stats@.take(i + 1));
            }
            i = i + 1;
        }
        proof {
            assert(r@ =~= self.stats@);
        }
        r
    }

    /// The stats row of one validator.
    pub fn stats_for(&self, vn_id: u32) -> (r: Stats)
        requires
            self.wf(),
        ensures
            r == stats_of(self.stats@, vn_id),
    {
        let mut i: usize = 0;
        while i < self.stats.len()
            invariant
                i <= self.stats@.len(),
                self.wf(),
                forall|j: int| 0 <= j < i ==> self.stats@[j].vn_id != vn_id,
            decreases self.stats@.len() - i,
        {
            if self.stats[i].vn_id == vn_id {
                proof {
                    let w = choose|w: int|
                        0 <= w < self.stats@.len() && self.stats@[w].vn_id == vn_id;
                    assert(self.stats@[w].vn_id == vn_id);
                    assert(w == i);
                }
                return self.stats[i].stats;
            }
            i = i + 1;
        }
        proof {
            if exists|w: int| 0 <= w < self.stats@.len() && self.stats@[w].vn_id == vn_id {
                let w = choose|w: int|
                    0 <= w < self.stats@.len() && self.stats@[w].vn_id == vn_id;
                assert(false);
            }
        }
        Stats { leaves_created: 0, request_block: 0, leader_failures: 0 }
    }

    /// Update the row of `vn_id` with `f`-like bumps, creating it at zero
    /// first. Saturates at the largest count.
    fn row_index(&mut self, vn_id: u32) -> (i: usize)
        requires
            old(self).wf(),
        ensures
            final(self).wf(),
            final(self).events@ == old(self).events@,
            i < final(self).stats@.len(),
            final(self).stats@[i as int].vn_id == vn_id,
            final(self).stats@[i as int].stats == stats_of(old(self).stats@, vn_id),
            forall|v: u32|
                v != vn_id ==> #[trigger] stats_of(final(self).stats@, v) == stats_of(
                    old(self).stats@,
                    v,
                ),
    {
        let mut i: usize = 0;
        let n = self.stats.len();
        while i < n
            invariant
                i <= n,
                n == self.stats@.len(),
                old(self).wf(),
                *self == *old(self),
                forall|j: int| 0 <= j < i ==> self.stats@[j].vn_id != vn_id,
            decreases n - i,
        {
            if self.stats[i].vn_id == vn_id {
                proof {
                    let w = choose|w: int|
                        0 <= w < self.stats@.len() && self.stats@[w].vn_id == vn_id;
                    assert(self.stats@[w].vn_id == vn_id);
                    assert(w == i);
                }
                return i;
            }
            i = i + 1;
        }
        proof {
            assert(!exists|w: int| 0 <= w < self.stats@.len() && self.stats@[w].vn_id == vn_id);
        }
        let ghost prev = self.stats@;
        self.stats.push(
            StatsEntry {
                vn_id,
                stats: Stats { leaves_created: 0, request_block: 0, leader_failures: 0 },
            },
        );
        proof {
            let n0 = prev.len() as int;
            assert(self.stats@[n0].vn_id == vn_id);
            assert(forall|j: int| 0 <= j < n0 ==> self.stats@[j] == prev[j]);
            lemma_stats_frame_grow(prev, self.stats@, vn_id);
        }
        n
    }

    fn bump_leaves(&mut self, vn_id: u32)
        requires
            old(self).wf(),
        ensures
            final(self).wf(),
            final(self).events@ == old(self).events@,
            stats_of(final(self).stats@, vn_id).leaves_created == (if stats_of(
                old(self).stats@,
                vn_id,
            ).leaves_created < usize::MAX {
                stats_of(old(self).stats@, vn_id).leaves_created + 1
            } else {
                usize::MAX as int
            }),
            forall|v: u32|
                v != vn_id ==> #[trigger] stats_of(final(self).stats@, v) == stats_of(
                    old(self).stats@,
                    v,
                ),
    {
        let i = self.row_index(vn_id);
        let ghost mid = self.stats@;
        let cur = self.stats[i].stats;
        let bumped = Stats {
            leaves_created: if cur.leaves_created < usize::MAX {
                cur.leaves_created + 1
            } else {
                cur.leaves_created
            },
            request_block: cur.request_block,
            leader_failures: cur.leader_failures,
        };
        self.stats[i] = StatsEntry { vn_id, stats: bumped };
        proof {
            lemma_stats_frame_set(mid, self.stats@, vn_id, i as int);
        }
    }

    fn bump_request_block(&mut self, vn_id: u32)
        requires
            old(self).wf(),
        ensures
            final(self).wf(),
            final(self).events@ == old(self).events@,
            stats_of(final(self).stats@, vn_id).request_block == (if stats_of(
                old(self).stats@,
                vn_id,
            ).request_block < usize::MAX {
                stats_of(old(self).stats@, vn_id).request_block + 1
            } else {
                usize::MAX as int
            }),
            forall|v: u32|
                v != vn_id ==> #[trigger] stats_of(final(self).stats@, v) == stats_of(
                    old(self).stats@,
                    v,
                ),
    {
        let i = self.row_index(vn_id);
        let ghost mid = self.stats@;
        let cur = self.stats[i].stats;
        let bumped = Stats {
            leaves_created: cur.leaves_created,
            request_block: if cur.request_block < usize::MAX {
                cur.request_block + 1
            } else {
                cur.request_block
            },
            leader_failures: cur.leader_failures,
        };
        self.stats[i] = StatsEntry { vn_id, stats: bumped };
        proof {
            lemma_stats_frame_set(mid, self.stats@, vn_id, i as int);
        }
    }

    fn bump_leader_failures(&mut self, vn_id: u32)
        requires
            old(self).wf(),
        ensures
            final(self).wf(),
            final(self).events@ == old(self).events@,
            stats_of(final(self).stats@, vn_id).leader_failures == (if stats_of(
                old(self).stats@,
                vn_id,
            ).leader_failures < usize::MAX {
                stats_of(old(self).stats@, vn_id).leader_failures + 1
            } else {
                usize::MAX as int
            }),
            forall|v: u32|
                v != vn_id ==> #[trigger] stats_of(final(self).stats@, v) == stats_of(
                    old(self).stats@,
                    v,
                ),
    {
        let i = self.row_index(vn_id);
        let ghost mid = self.stats@;
        let cur = self.stats[i].stats;
        let bumped = Stats {
            leaves_created: cur.leaves_created,
            request_block: cur.request_block,
            leader_failures: if cur.leader_failures < usize::MAX {
                cur.leader_failures + 1
            } else {
                cur.leader_failures
            },
        };
        self.stats[i] = StatsEntry { vn_id, stats: bumped };
        proof {
            lemma_stats_frame_set(mid, self.stats@, vn_id, i as int);
        }
    }
}

/// Appending a fresh zero row leaves every other validator's counters as
/// they were, and the fresh row at zero.
proof fn lemma_stats_frame_grow(a: Seq<StatsEntry>, b: Seq<StatsEntry>, vn_id: u32)
    requires
        forall|i: int, j: int| 0 <= i < j < a.len() ==> a[i].vn_id != a[j].vn_id,
        !exists|w: int| 0 <= w < a.len() && a[w].vn_id == vn_id,
        b.len() == a.len() + 1,
        b[a.len() as int] == (StatsEntry {
            vn_id,
            stats: Stats { leaves_created: 0, request_block: 0, leader_failures: 0 },
        }),
        forall|j: int| 0 <= j < a.len() ==> b[j] == a[j],
    ensures
        forall|i: int, j: int| 0 <= i < j < b.len() ==> b[i].vn_id != b[j].vn_id,
        stats_of(b, vn_id) == stats_of(a, vn_id),
        forall|v: u32| v != vn_id ==> #[trigger] stats_of(b, v) == stats_of(a, v),
{
    let n = a.len() as int;
    assert forall|i: int, j: int| 0 <= i < j < b.len() implies b[i].vn_id != b[j].vn_id by {
        if j == n {
            assert(b[i] == a[i]);
            assert(a[i].vn_id != vn_id);
        }
    };
    assert(b[n].vn_id == vn_id);
    let w = choose|w: int| 0 <= w < b.len() && b[w].vn_id == vn_id;
    assert(w == n);
    assert(stats_of(b, vn_id) == b[n].stats);
    assert(stats_of(a, vn_id) == (Stats {
        leaves_created: 0,
        request_block: 0,
        leader_failures: 0,
    }));
    assert forall|v: u32| v != vn_id implies #[trigger] stats_of(b, v) == stats_of(a, v) by {
        if exists|k: int| 0 <= k < a.len() && a[k].vn_id == v {
            let ka = choose|k: int| 0 <= k < a.len() && a[k].vn_id == v;
            assert(b[ka].vn_id == v);
            let kb = choose|k: int| 0 <= k < b.len() && b[k].vn_id == v;
            assert(kb != n);
            assert(kb == ka);
        } else {
            if exists|k: int| 0 <= k < b.len() && b[k].vn_id == v {
                let kb = choose|k: int| 0 <= k < b.len() && b[k].vn_id == v;
                assert(kb != n);
                assert(a[kb].vn_id == v);
                assert(false);
            }
        }
    };
}

/// Overwriting one validator's row leaves every other validator's counters
/// as they were.
proof fn lemma_stats_frame_set(a: Seq<StatsEntry>, b: Seq<StatsEntry>, vn_id: u32, i: int)
    requires
        forall|p: int, q: int| 0 <= p < q < a.len() ==> a[p].vn_id != a[q].vn_id,
        0 <= i < a.len(),
        a[i].vn_id == vn_id,
        b.len() == a.len(),
        b[i].vn_id == vn_id,
        forall|j: int| 0 <= j < a.len() && j != i ==> b[j] == a[j],
    ensures
        forall|p: int, q: int| 0 <= p < q < b.len() ==> b[p].vn_id != b[q].vn_id,
        stats_of(b, vn_id) == b[i].stats,
        forall|v: u32| v != vn_id ==> #[trigger] stats_of(b, v) == stats_of(a, v),
{
    assert forall|p: int, q: int| 0 <= p < q < b.len() implies b[p].vn_id != b[q].vn_id by {
        if p != i && q != i {
            assert(b[p] == a[p]);
            assert(b[q] == a[q]);
        } else if p == i {
            assert(b[q] == a[q]);
            assert(a[q].vn_id != a[i].vn_id);
        } else {
            assert(b[p] == a[p]);
            assert(a[p].vn_id != a[i].vn_id);
        }
    };
    assert(b[i].vn_id == vn_id);
    let w = choose|w: int| 0 <= w < b.len() && b[w].vn_id == vn_id;
    assert(w == i);
    assert forall|v: u32| v != vn_id implies #[trigger] stats_of(b, v) == stats_of(a, v) by {
        if exists|k: int| 0 <= k < a.len() && a[k].vn_id == v {
            let ka = choose|k: int| 0 <= k < a.len() && a[k].vn_id == v;
            assert(ka != i);
            assert(b[ka].vn_id == v);
            let kb = choose|k: int| 0 <= k < b.len() && b[k].vn_id == v;
            assert(kb != i);
            assert(a[kb].vn_id == v);
            assert(kb == ka);
        } else {
            if exists|k: int| 0 <= k < b.len() && b[k].vn_id == v {
                let kb = choose|k: int| 0 <= k < b.len() && b[k].vn_id == v;
                assert(kb != i);
                assert(a[kb].vn_id == v);
                assert(false);
            }
        }
    };
}

} // verus!
