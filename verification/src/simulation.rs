use vstd::prelude::*;
use crate::block::Block;
use crate::cli::{Cli, cli_wf};
use crate::committee_manager::CommitteeManager;
use crate::id_provider::IdProvider;
use crate::indexer::Indexer;
use crate::network::Network;
use crate::network_connection::{sat_add, sat_add_exec};
use crate::rng::sample_latency;
use crate::subscriber::Subscriber;
use crate::transaction::Shard;
use crate::transaction_generator::TransactionGenerator;
use crate::validator_node::ValidatorNode;
use crate::message::Message;

verus! {

/// The clock after `n` ticks of `per_tick` milliseconds each.
pub open spec fn ticks_after(t: u64, per_tick: u64, n: nat) -> u64
    decreases n,
{
    if n == 0 {
        t
    } else {
        sat_add(ticks_after(t, per_tick, (n - 1) as nat), per_tick)
    }
}

/// The most dispatch rounds one tick runs before the clock advances. The
/// intent of a tick is to run delivery and validator turns to quiescence,
/// but with zero-latency self edges quiescence may never come, so the bound
/// keeps every tick finite; messages still queued after this many rounds
/// are delivered on later ticks.
pub const MAX_ROUNDS_PER_TICK: usize = 16;

/// The discrete-event harness: a logical clock, the network, the committee
/// registry and every validator, advanced tick by tick.
pub struct Simulation {
    pub config: Cli,
    pub vns: Vec<ValidatorNode>,
    pub network: Network,
    pub id_provider: IdProvider,
    pub committee_manager: CommitteeManager,
    pub generator: TransactionGenerator,
    pub indexer: Indexer,
    pub subscriber: Subscriber,
    pub curr_time: u64,
}

impl Simulation {
    pub open spec fn wf(self) -> bool {
        &&& cli_wf(self.config)
        &&& self.network.wf()
        &&& self.subscriber.wf()
        &&& self.generator.config.num_shards >= 1
        &&& forall|i: int| 0 <= i < self.vns@.len() ==> (#[trigger] self.vns@[i]).wf()
    }

    /// Build the whole system: one indexer, `num_vns` validators assigned
    /// round-robin to `num_shards` committees, a network edge between every
    /// ordered pair of nodes (zero latency to oneself), and the transaction
    /// producer.
    pub fn new(config: Cli) -> (r: Self)
        requires
            cli_wf(config),
            config.num_vns >= 1,
            config.num_vns + 2 <= u32::MAX,
        ensures
            r.wf(),
            r.curr_time == 0,
            r.config == config,
            r.vns@.len() == config.num_vns,
            r.indexer.id == 1,
            // ids are consecutive, so distinct; shards are assigned
            // round-robin; every validator is registered in its committee
            forall|i: int|
                0 <= i < r.vns@.len() ==> (#[trigger] r.vns@[i]).id == (i + 2) as u32,
            forall|i: int|
                0 <= i < r.vns@.len() ==> (#[trigger] r.vns@[i]).shard == (Shard(
                    (i as u32) % config.num_shards,
                )),
            forall|i: int|
                0 <= i < r.vns@.len() ==> (#[trigger] r.vns@[i]).committee_manager.members_of(
                    r.vns@[i].shard,
                ).contains(r.vns@[i].id),
            // the full mesh stands, with an immediate edge to oneself, and
            // the indexer reaches every validator
            forall|a: int, b: int|
                0 <= a < r.vns@.len() && 0 <= b < r.vns@.len() ==> r.network.has_edge(
                    (#[trigger] r.vns@[a]).id,
                    (#[trigger] r.vns@[b]).id,
                ),
            forall|i: int|
                0 <= i < r.vns@.len() ==> r.network.latency_of(
                    (#[trigger] r.vns@[i]).id,
                    r.vns@[i].id,
                ) == 0,
            forall|i: int|
                0 <= i < r.vns@.len() ==> r.network.has_edge(1, (#[trigger] r.vns@[i]).id),
    {
        let mut subscriber = Subscriber::new();
        let mut id_provider = IdProvider::new();
        let indexer = Indexer::new(id_provider.next());
        subscriber.create_indexer(indexer.id);
        let mut network = Network::new(Subscriber::new());
        let genesis = Block::genesis();
        let mut committee_manager = CommitteeManager::new();
        let mut s: u32 = 0;
        while s < config.num_shards
            invariant
                subscriber.wf(),
            decreases config.num_shards - s,
        {
            subscriber.create_shard(s);
            s = s + 1;
        }
        // assign each validator an id, a shard and a base latency
        let mut ids: Vec<u32> = Vec::new();
        let mut shards: Vec<Shard> = Vec::new();
        let mut latencies: Vec<u64> = Vec::new();
        let mut i: usize = 0;
        while i < config.num_vns
            invariant
                i <= config.num_vns,
                config.num_vns + 2 <= u32::MAX,
                ids@.len() == i,
                shards@.len() == i,
                latencies@.len() == i,
                cli_wf(config),
                committee_manager.wf(),
                network.wf(),
                subscriber.wf(),
                indexer.id == 1,
                id_provider.next_id == i + 2,
                forall|j: int| 0 <= j < i ==> (#[trigger] ids@[j]) == (j + 2) as u32,
                forall|j: int|
                    0 <= j < i ==> (#[trigger] shards@[j]) == (Shard(
                        (j as u32) % config.num_shards,
                    )),
                forall|j: int|
                    0 <= j < i ==> committee_manager.has_committee(#[trigger] shards@[j]),
                forall|j: int|
                    0 <= j < i ==> committee_manager.members_of(#[trigger] shards@[j]).contains(
                        ids@[j],
                    ),
                forall|j: int| 0 <= j < i ==> network.has_edge(1, #[trigger] ids@[j]),
            decreases config.num_vns - i,
        {
            let id = id_provider.next();
            let shard = Shard((#[verifier::truncate] (i as u32)) % config.num_shards);
            let latency = if config.min_latency == config.max_latency {
                config.min_latency
            } else {
                sample_latency(config.min_latency, config.max_latency)
            };
            subscriber.create_vn(id, shard, latency);
            network.add_connection(indexer.id, id, latency, latency);
            let ghost cm_pre = committee_manager;
            committee_manager.add_validator(shard, id);
            ids.push(id);
            shards.push(shard);
            latencies.push(latency);
            proof {
                assert forall|j: int|
                    0 <= j < i + 1 implies committee_manager.has_committee(
                    #[trigger] shards@[j],
                ) by {
                    if shards@[j] == shard {
                        assert(committee_manager.has_committee(shard));
                    } else {
                        assert(cm_pre.has_committee(shards@[j]));
                        assert(committee_manager.has_shard(shards@[j]) <==> cm_pre.has_shard(
                            shards@[j],
                        ));
                        assert(committee_manager.members_of(shards@[j]) == cm_pre.members_of(
                            shards@[j],
                        ));
                    }
                };
                assert forall|j: int|
                    0 <= j < i + 1 implies committee_manager.members_of(
                    #[trigger] shards@[j],
                ).contains(ids@[j]) by {
                    if j == i {
                        assert(committee_manager.members_of(shard).contains(id));
                    } else {
                        if shards@[j] == shard {
                            assert(cm_pre.members_of(shard).contains(ids@[j]));
                            assert(committee_manager.members_of(shard).contains(ids@[j]));
                        } else {
                            assert(committee_manager.members_of(shards@[j]) == cm_pre.members_of(
                                shards@[j],
                            ));
                        }
                    }
                };
                assert forall|j: int| 0 <= j < i + 1 implies network.has_edge(
                    1,
                    #[trigger] ids@[j],
                ) by {
                    if j < i {
                        assert(ids@[j] == (j + 2) as u32);
                        assert(!(1 == indexer.id && ids@[j] == id) && !(1 == id && ids@[j]
                            == indexer.id));
                    }
                };
            }
            i = i + 1;
        }
        // the committees are now fixed: build the validators
        let mut vns: Vec<ValidatorNode> = Vec::new();
        let mut k: usize = 0;
        while k < config.num_vns
            invariant
                k <= config.num_vns,
                ids@.len() == config.num_vns,
                shards@.len() == config.num_vns,
                latencies@.len() == config.num_vns,
                cli_wf(config),
                committee_manager.wf(),
                network.wf(),
                subscriber.wf(),
                forall|j: int|
                    0 <= j < config.num_vns ==> committee_manager.has_committee(
                        #[trigger] shards@[j],
                    ),
                vns@.len() == k,
                genesis@ == crate::block::genesis_block_view(),
                config.num_vns + 2 <= u32::MAX,
                indexer.id == 1,
                forall|j: int| 0 <= j < config.num_vns ==> (#[trigger] ids@[j]) == (j + 2) as u32,
                forall|j: int|
                    0 <= j < config.num_vns ==> (#[trigger] shards@[j]) == (Shard(
                        (j as u32) % config.num_shards,
                    )),
                forall|j: int|
                    0 <= j < config.num_vns ==> committee_manager.members_of(
                        #[trigger] shards@[j],
                    ).contains(ids@[j]),
                forall|j: int| 0 <= j < config.num_vns ==> network.has_edge(1, #[trigger] ids@[j]),
                forall|j: int| 0 <= j < k ==> (#[trigger] vns@[j]).wf(),
                forall|j: int| 0 <= j < k ==> (#[trigger] vns@[j]).id == ids@[j],
                forall|j: int| 0 <= j < k ==> (#[trigger] vns@[j]).shard == shards@[j],
                forall|j: int|
                    0 <= j < k ==> (#[trigger] vns@[j]).committee_manager.members_of(
                        vns@[j].shard,
                    ).contains(vns@[j].id),
            decreases config.num_vns - k,
        {
            let cm = committee_manager.clone();
            proof {
                assert(committee_manager.has_committee(shards@[k as int]));
                assert(cm.has_shard(shards@[k as int]) <==> committee_manager.has_shard(
                    shards@[k as int],
                ));
                assert(cm.members_of(shards@[k as int]) == committee_manager.members_of(
                    shards@[k as int],
                ));
            }
            let vn = ValidatorNode::new(
                ids[k],
                shards[k],
                config,
                genesis.clone(),
                cm,
                Subscriber::new(),
                latencies[k],
            );
            let ghost vns_pre = vns@;
            proof {
                assert(cm.members_of(shards@[k as int]).contains(ids@[k as int]));
            }
            vns.push(vn);
            proof {
                assert forall|j: int| 0 <= j < k + 1 implies (#[trigger] vns@[j]).wf() by {
                    if j < k {
                        assert(vns@[j] == vns_pre[j]);
                    }
                };
                assert(forall|j: int| 0 <= j < k ==> vns@[j] == vns_pre[j]);
            }
            k = k + 1;
        }
        // connect every ordered pair; a node reaches itself without delay
        let mut a: usize = 0;
        while a < config.num_vns
            invariant
                a <= config.num_vns,
                config.num_vns + 2 <= u32::MAX,
                ids@.len() == config.num_vns,
                latencies@.len() == config.num_vns,
                network.wf(),
                forall|j: int| 0 <= j < config.num_vns ==> (#[trigger] ids@[j]) == (j + 2) as u32,
                forall|j: int| 0 <= j < config.num_vns ==> network.has_edge(1, #[trigger] ids@[j]),
                forall|x: int, y: int|
                    0 <= x < a && 0 <= y < config.num_vns ==> network.has_edge(
                        (#[trigger] ids@[x]),
                        (#[trigger] ids@[y]),
                    ),
                forall|x: int|
                    0 <= x < a ==> network.latency_of((#[trigger] ids@[x]), ids@[x]) == 0,
            decreases config.num_vns - a,
        {
            let mut b: usize = 0;
            while b < config.num_vns
                invariant
                    b <= config.num_vns,
                    a < config.num_vns,
                    config.num_vns + 2 <= u32::MAX,
                    ids@.len() == config.num_vns,
                    latencies@.len() == config.num_vns,
                    network.wf(),
                    forall|j: int|
                        0 <= j < config.num_vns ==> (#[trigger] ids@[j]) == (j + 2) as u32,
                    forall|j: int|
                        0 <= j < config.num_vns ==> network.has_edge(1, #[trigger] ids@[j]),
                    forall|x: int, y: int|
                        0 <= x < a && 0 <= y < config.num_vns ==> network.has_edge(
                            (#[trigger] ids@[x]),
                            (#[trigger] ids@[y]),
                        ),
                    forall|y: int|
                        0 <= y < b ==> network.has_edge((#[trigger] ids@[a as int]), ids@[y]),
                    forall|x: int|
                        0 <= x < a ==> network.latency_of((#[trigger] ids@[x]), ids@[x]) == 0,
                    a < b ==> network.latency_of(ids@[a as int], ids@[a as int]) == 0,
                decreases config.num_vns - b,
            {
                let ghost net_pre = network;
                if ids[a] == ids[b] {
                    network.add_connection(ids[a], ids[b], 0, 0);
                } else {
                    let l = sat_add_exec(latencies[a], latencies[b]);
                    network.add_connection(ids[a], ids[b], l, l);
                }
                proof {
                    let ia = ids@[a as int];
                    let ib = ids@[b as int];
                    assert(network.has_edge(ia, ib));
                    assert forall|j: int|
                        0 <= j < config.num_vns implies network.has_edge(
                        1,
                        #[trigger] ids@[j],
                    ) by {
                        assert(ids@[j] >= 2 && ia >= 2 && ib >= 2);
                        assert(net_pre.has_edge(1, ids@[j]));
                    };
                    assert forall|x: int, y: int|
                        0 <= x < a && 0 <= y < config.num_vns implies network.has_edge(
                        (#[trigger] ids@[x]),
                        (#[trigger] ids@[y]),
                    ) by {
                        assert(net_pre.has_edge(ids@[x], ids@[y]));
                        if !(ids@[x] == ia && ids@[y] == ib) && !(ids@[x] == ib && ids@[y]
                            == ia) {
                        }
                    };
                    assert forall|y: int|
                        0 <= y < b + 1 implies network.has_edge(
                        (#[trigger] ids@[a as int]),
                        ids@[y],
                    ) by {
                        if y < b {
                            assert(net_pre.has_edge(ia, ids@[y]));
                        }
                    };
                    assert forall|x: int|
                        0 <= x < a implies network.latency_of((#[trigger] ids@[x]), ids@[x])
                        == 0 by {
                        assert(ids@[x] != ia);
                        assert(net_pre.has_edge(ids@[x], ids@[x]));
                        assert(net_pre.latency_of(ids@[x], ids@[x]) == 0);
                        assert(network.queue_of(ids@[x], ids@[x]) == net_pre.queue_of(
                            ids@[x],
                            ids@[x],
                        ));
                        assert(network.latency_of(ids@[x], ids@[x]) == net_pre.latency_of(
                            ids@[x],
                            ids@[x],
                        ));
                    };
                    assert(a < b + 1 ==> network.latency_of(ia, ia) == 0) by {
                        if a < b + 1 {
                            if a == b {
                                assert(network.latency_of(ia, ia) == 0);
                            } else {
                                assert(a < b);
                                assert(ia != ib);
                                assert(net_pre.latency_of(ia, ia) == 0);
                                assert(net_pre.has_edge(ia, ia));
                                assert(network.queue_of(ia, ia) == net_pre.queue_of(ia, ia));
                                assert(network.latency_of(ia, ia) == net_pre.latency_of(ia, ia));
                            }
                        }
                    };
                }
                b = b + 1;
            }
            proof {
                assert(network.latency_of(ids@[a as int], ids@[a as int]) == 0);
            }
            a = a + 1;
        }
        let generator = TransactionGenerator::new(
            &mut id_provider,
            config.num_transactions,
            config,
        );
        Simulation {
            config,
            vns,
            network,
            id_provider,
            committee_manager,
            generator,
            indexer,
            subscriber,
            curr_time: 0,
        }
    }

    /// One tick: inject the producer's transactions, then run delivery and
    /// validator turns to a fixed point (bounded per tick), then advance the
    /// clock by one step.
    pub fn step(&mut self)
        requires
            old(self).wf(),
        ensures
            final(self).wf(),
            final(self).curr_time == sat_add(old(self).curr_time, old(self).config.time_per_step),
            final(self).config == old(self).config,
            final(self).vns@.len() == old(self).vns@.len(),
            forall|i: int|
                0 <= i < final(self).vns@.len() ==> (#[trigger] final(self).vns@[i]).id == old(
                    self,
                ).vns@[i].id,
            forall|i: int|
                0 <= i < final(self).vns@.len() ==> ((#[trigger] final(self).vns@[i]).b_exec
                    == old(self).vns@[i].b_exec || final(self).vns@[i].b_exec@.height > old(
                    self,
                ).vns@[i].b_exec@.height),
            // the producer is flushed: every pending transaction was
            // injected and logged as queued
            final(self).generator.num_transactions == old(self).generator.num_transactions,
            final(self).generator.current_index >= final(self).generator.num_transactions,
            old(self).generator.current_index <= old(self).generator.num_transactions ==> final(self).subscriber.events@.len() == old(self).subscriber.events@.len() + (old(self).generator.num_transactions - old(self).generator.current_index),
            crate::subscriber::extends_events(
                old(self).subscriber.events@,
                final(self).subscriber.events@,
            ),
            // every validator took its turns: no inbox is left loaded
            forall|i: int|
                0 <= i < final(self).vns@.len() ==> (#[trigger] final(self).vns@[i]).incoming_messages@.len() == 0,
            // the topology is untouched
            forall|f: u32, t: u32| #[trigger]
                final(self).network.has_edge(f, t) <==> old(self).network.has_edge(f, t),
    {
        // flush the transaction producer
        while self.generator.current_index < self.generator.num_transactions
            invariant
                self.wf(),
                self.config == old(self).config,
                self.vns@.len() == old(self).vns@.len(),
                self.curr_time == old(self).curr_time,
                self.generator.config.num_shards >= 1,
                self.generator.num_transactions == old(self).generator.num_transactions,
                self.generator.current_index >= old(self).generator.current_index,
                old(self).generator.current_index <= old(self).generator.num_transactions
                    ==> self.generator.current_index <= self.generator.num_transactions,
                self.subscriber.events@.len() == old(self).subscriber.events@.len() + (self.generator.current_index - old(self).generator.current_index),
                crate::subscriber::extends_events(
                    old(self).subscriber.events@,
                    self.subscriber.events@,
                ),
                forall|f: u32, t: u32| #[trigger]
                    self.network.has_edge(f, t) <==> old(self).network.has_edge(f, t),
                forall|i: int|
                    0 <= i < self.vns@.len() ==> (#[trigger] self.vns@[i]).id == old(
                        self,
                    ).vns@[i].id,
                forall|i: int|
                    0 <= i < self.vns@.len() ==> ((#[trigger] self.vns@[i]).b_exec == old(
                        self,
                    ).vns@[i].b_exec || self.vns@[i].b_exec@.height > old(
                        self,
                    ).vns@[i].b_exec@.height),
            decreases self.generator.num_transactions - self.generator.current_index,
        {
            let produced = self.generator.next(&mut self.id_provider);
            match produced {
                Some(transaction) => {
                    self.subscriber.on_transaction_queued(transaction.id, self.curr_time);
                    let ghost gen_now = self.generator;
                    let ghost sub_now = self.subscriber;
                    let mut v: usize = 0;
                    let nv = self.vns.len();
                    while v < nv
                        invariant
                            v <= nv,
                            nv == self.vns@.len(),
                            self.generator == gen_now,
                            self.subscriber == sub_now,
                            forall|f: u32, t: u32| #[trigger]
                                self.network.has_edge(f, t) <==> old(self).network.has_edge(f, t),
                            self.wf(),
                            self.config == old(self).config,
                            self.vns@.len() == old(self).vns@.len(),
                            self.curr_time == old(self).curr_time,
                            self.generator.config.num_shards >= 1,
                            forall|i: int|
                                0 <= i < self.vns@.len() ==> (#[trigger] self.vns@[i]).id == old(
                                    self,
                                ).vns@[i].id,
                            forall|i: int|
                                0 <= i < self.vns@.len() ==> ((#[trigger] self.vns@[i]).b_exec
                                    == old(self).vns@[i].b_exec || self.vns@[i].b_exec@.height
                                    > old(self).vns@[i].b_exec@.height),
                        decreases nv - v,
                    {
                        let to = self.vns[v].id;
                        let m = Message::Transaction {
                            id: self.id_provider.next(),
                            tx: transaction.clone(),
                        };
                        if self.network.contains_edge(self.indexer.id, to) {
                            self.network.send_message(self.indexer.id, to, m, self.curr_time);
                        }
                        v = v + 1;
                    }
                },
                None => {
                    proof {
                        assert(false);
                    }
                },
            }
        }
        // dispatch until quiescent, or until the per-tick bound
        let ghost gen_flushed = self.generator;
        let ghost sub_flushed = self.subscriber;
        let mut rounds: usize = 0;
        let mut quiet = false;
        while rounds < MAX_ROUNDS_PER_TICK && !quiet
            invariant
                self.wf(),
                self.config == old(self).config,
                self.vns@.len() == old(self).vns@.len(),
                self.curr_time == old(self).curr_time,
                self.generator == gen_flushed,
                self.subscriber == sub_flushed,
                forall|f: u32, t: u32| #[trigger]
                    self.network.has_edge(f, t) <==> old(self).network.has_edge(f, t),
                quiet ==> rounds >= 1,
                rounds >= 1 ==> forall|i: int|
                    0 <= i < self.vns@.len() ==> (#[trigger] self.vns@[i]).incoming_messages@.len() == 0,
                forall|i: int|
                    0 <= i < self.vns@.len() ==> (#[trigger] self.vns@[i]).id == old(
                        self,
                    ).vns@[i].id,
                forall|i: int|
                    0 <= i < self.vns@.len() ==> ((#[trigger] self.vns@[i]).b_exec == old(
                        self,
                    ).vns@[i].b_exec || self.vns@[i].b_exec@.height > old(
                        self,
                    ).vns@[i].b_exec@.height),
            decreases MAX_ROUNDS_PER_TICK - rounds,
        {
            let ghost round_entry = *self;
            let mut any = false;
            let mut deliveries = self.network.update(self.curr_time);
            proof {
                assert forall|f: u32, t: u32| #[trigger]
                    self.network.has_edge(f, t) <==> old(self).network.has_edge(f, t) by {
                    if self.network.has_edge(f, t) {
                        let w = choose|w: int|
                            0 <= w < self.network.edges@.len() && self.network.edges@[w].from == f
                                && self.network.edges@[w].to == t;
                        assert(round_entry.network.edges@[w].from == f
                            && round_entry.network.edges@[w].to == t);
                        assert(round_entry.network.has_edge(f, t));
                    }
                    if old(self).network.has_edge(f, t) {
                        assert(round_entry.network.has_edge(f, t));
                        let w = choose|w: int|
                            0 <= w < round_entry.network.edges@.len()
                                && round_entry.network.edges@[w].from == f
                                && round_entry.network.edges@[w].to == t;
                        assert(self.network.edges@.len() == round_entry.network.edges@.len());
                        assert(self.network.edges@[w].from == round_entry.network.edges@[w].from);
                        assert(self.network.edges@[w].to == round_entry.network.edges@[w].to);
                        assert(self.network.has_edge(f, t));
                    }
                };
            }
            while deliveries.len() > 0
                invariant
                    self.wf(),
                    self.config == old(self).config,
                    self.vns@.len() == old(self).vns@.len(),
                    self.curr_time == old(self).curr_time,
                    self.generator == gen_flushed,
                    self.subscriber == sub_flushed,
                    forall|f: u32, t: u32| #[trigger]
                        self.network.has_edge(f, t) <==> old(self).network.has_edge(f, t),
                    forall|i: int|
                        0 <= i < self.vns@.len() ==> (#[trigger] self.vns@[i]).id == old(
                            self,
                        ).vns@[i].id,
                    forall|i: int|
                        0 <= i < self.vns@.len() ==> ((#[trigger] self.vns@[i]).b_exec == old(
                            self,
                        ).vns@[i].b_exec || self.vns@[i].b_exec@.height > old(
                            self,
                        ).vns@[i].b_exec@.height),
                decreases deliveries@.len(),
            {
                let (to, m) = deliveries.remove(0);
                let mut found: Option<usize> = None;
                let mut j: usize = 0;
                let nv = self.vns.len();
                while j < nv
                    invariant
                        j <= nv,
                        nv == self.vns@.len(),
                        found matches Some(w) ==> w < nv,
                    decreases nv - j,
                {
                    if self.vns[j].id == to {
                        found = Some(j);
                        j = nv;
                    } else {
                        j = j + 1;
                    }
                }
                match found {
                    Some(w) => {
                        let ghost vns_pre = self.vns@;
                        self.vns[w].deliver_message(m, self.curr_time);
                        proof {
                            assert forall|i: int|
                                0 <= i < self.vns@.len() implies (#[trigger] self.vns@[i]).wf()
                                && self.vns@[i].id == old(self).vns@[i].id && (self.vns@[i].b_exec
                                == old(self).vns@[i].b_exec || self.vns@[i].b_exec@.height > old(
                                self,
                            ).vns@[i].b_exec@.height) by {
                                if i != w {
                                    assert(self.vns@[i] == vns_pre[i]);
                                }
                            };
                        }
                    },
                    None => {
                        // a message to an unknown node is dropped
                    },
                }
            }
            // every validator takes a turn; its output enters the network
            let mut v: usize = 0;
            let nv = self.vns.len();
            while v < nv
                invariant
                    v <= nv,
                    nv == self.vns@.len(),
                    self.wf(),
                    self.config == old(self).config,
                    self.vns@.len() == old(self).vns@.len(),
                    self.curr_time == old(self).curr_time,
                    self.generator == gen_flushed,
                    self.subscriber == sub_flushed,
                    forall|f: u32, t: u32| #[trigger]
                        self.network.has_edge(f, t) <==> old(self).network.has_edge(f, t),
                    forall|j: int|
                        0 <= j < v ==> (#[trigger] self.vns@[j]).incoming_messages@.len() == 0,
                    forall|i: int|
                        0 <= i < self.vns@.len() ==> (#[trigger] self.vns@[i]).id == old(
                            self,
                        ).vns@[i].id,
                    forall|i: int|
                        0 <= i < self.vns@.len() ==> ((#[trigger] self.vns@[i]).b_exec == old(
                            self,
                        ).vns@[i].b_exec || self.vns@[i].b_exec@.height > old(
                            self,
                        ).vns@[i].b_exec@.height),
                decreases nv - v,
            {
                let from = self.vns[v].id;
                let ghost vns_pre = self.vns@;
                let mut outs = self.vns[v].update(&mut self.id_provider, self.curr_time);
                proof {
                    assert forall|i: int|
                        0 <= i < self.vns@.len() implies (#[trigger] self.vns@[i]).wf()
                        && self.vns@[i].id == old(self).vns@[i].id && (self.vns@[i].b_exec == old(
                        self,
                    ).vns@[i].b_exec || self.vns@[i].b_exec@.height > old(
                        self,
                    ).vns@[i].b_exec@.height) by {
                        if i != v {
                            assert(self.vns@[i] == vns_pre[i]);
                        }
                    };
                    assert forall|j: int|
                        0 <= j < v + 1 implies (#[trigger] self.vns@[j]).incoming_messages@.len()
                        == 0 by {
                        if j < v {
                            assert(self.vns@[j] == vns_pre[j]);
                        }
                    };
                }
                if outs.len() > 0 {
                    any = true;
                }
                while outs.len() > 0
                    invariant
                        v < nv,
                        nv == self.vns@.len(),
                        self.wf(),
                        self.config == old(self).config,
                        self.vns@.len() == old(self).vns@.len(),
                        self.curr_time == old(self).curr_time,
                        self.generator == gen_flushed,
                        self.subscriber == sub_flushed,
                        forall|f: u32, t: u32| #[trigger]
                            self.network.has_edge(f, t) <==> old(self).network.has_edge(f, t),
                        forall|j: int|
                            0 <= j < v + 1 ==> (#[trigger] self.vns@[j]).incoming_messages@.len()
                                == 0,
                        forall|i: int|
                            0 <= i < self.vns@.len() ==> (#[trigger] self.vns@[i]).id == old(
                                self,
                            ).vns@[i].id,
                        forall|i: int|
                            0 <= i < self.vns@.len() ==> ((#[trigger] self.vns@[i]).b_exec == old(
                                self,
                            ).vns@[i].b_exec || self.vns@[i].b_exec@.height > old(
                                self,
                            ).vns@[i].b_exec@.height),
                    decreases outs@.len(),
                {
                    let (to, m) = outs.remove(0);
                    if self.network.contains_edge(from, to) {
                        self.network.send_message(from, to, m, self.curr_time);
                    }
                }
                v = v + 1;
            }
            if !any {
                quiet = true;
            }
            rounds = rounds + 1;
        }
        self.curr_time = sat_add_exec(self.curr_time, self.config.time_per_step);
    }

    /// Run the configured number of ticks.
    pub fn run(&mut self)
        requires
            old(self).wf(),
        ensures
            final(self).wf(),
            final(self).config == old(self).config,
            final(self).vns@.len() == old(self).vns@.len(),
            final(self).curr_time == ticks_after(
                old(self).curr_time,
                old(self).config.time_per_step,
                old(self).config.num_steps as nat,
            ),
            forall|i: int|
                0 <= i < final(self).vns@.len() ==> (#[trigger] final(self).vns@[i]).id == old(
                    self,
                ).vns@[i].id,
            old(self).config.num_steps >= 1 ==> final(self).generator.current_index >= final(self).generator.num_transactions,
            old(self).config.num_steps >= 1 ==> forall|i: int|
                0 <= i < final(self).vns@.len() ==> (#[trigger] final(self).vns@[i]).incoming_messages@.len() == 0,
    {
        let steps = self.config.num_steps;
        let mut t: usize = 0;
        while t < steps
            invariant
                t <= steps,
                steps == old(self).config.num_steps,
                self.wf(),
                self.config == old(self).config,
                self.vns@.len() == old(self).vns@.len(),
                self.curr_time == ticks_after(
                    old(self).curr_time,
                    old(self).config.time_per_step,
                    t as nat,
                ),
                forall|i: int|
                    0 <= i < self.vns@.len() ==> (#[trigger] self.vns@[i]).id == old(
                        self,
                    ).vns@[i].id,
                t >= 1 ==> self.generator.current_index >= self.generator.num_transactions,
                t >= 1 ==> forall|i: int|
                    0 <= i < self.vns@.len() ==> (#[trigger] self.vns@[i]).incoming_messages@.len()
                        == 0,
            decreases steps - t,
        {
            self.step();
            t = t + 1;
        }
    }
}

} // verus!
