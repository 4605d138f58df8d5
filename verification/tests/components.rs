use shardsim::block::Block;
use shardsim::block_factory::BlockFactory;
use shardsim::committee_manager::{CommitteeManager, quorum_size};
use shardsim::id_provider::IdProvider;
use shardsim::indexer::Indexer;
use shardsim::mempool::FeeMempool;
use shardsim::message::Message;
use shardsim::message_id_factory::MessageIdFactory;
use shardsim::network::Network;
use shardsim::network_connection::NetworkConnection;
use shardsim::node_factory::{NodeFactory, NodeId};
use shardsim::qc::Qc;
use shardsim::subscriber::Subscriber;
use shardsim::transaction::{Shard, Transaction};

fn tx(id: u32, shards: Vec<u32>, fee: u32) -> Transaction {
    Transaction {
        id,
        shards: shards.into_iter().map(Shard).collect(),
        effective_fee: fee,
    }
}

#[test]
fn quorum_matches_bft_threshold() {
    // n - floor((n - 1) / 3)
    assert_eq!(quorum_size(1), 1);
    assert_eq!(quorum_size(3), 3);
    assert_eq!(quorum_size(4), 3);
    assert_eq!(quorum_size(7), 5);
    assert_eq!(quorum_size(10), 7);
}

#[test]
fn id_provider_starts_at_one_and_counts_up() {
    let mut idp = IdProvider::new();
    assert_eq!(idp.next(), 1);
    assert_eq!(idp.next(), 2);
    assert_eq!(idp.next(), 3);
}

#[test]
fn factories_count_from_zero() {
    let mut bf = BlockFactory::new();
    assert_eq!(bf.next(), 0);
    assert_eq!(bf.next(), 1);
    let mut mf = MessageIdFactory::new();
    assert_eq!(mf.next(), 0);
    assert_eq!(mf.next(), 1);
    let mut nf = NodeFactory::new();
    assert_eq!(nf.next(), NodeId(0));
    assert_eq!(nf.next(), NodeId(1));
    let indexer = Indexer::new(9);
    assert_eq!(indexer.id, 9);
}

#[test]
fn committee_is_sorted_and_rotation_wraps() {
    let mut cm = CommitteeManager::new();
    cm.add_validator(Shard(0), 5);
    cm.add_validator(Shard(0), 2);
    cm.add_validator(Shard(0), 9);
    assert_eq!(cm.get_committee(Shard(0)), vec![2, 5, 9]);
    // the genesis author (0) hands over to the first member
    assert_eq!(cm.next_leader(Shard(0), 0), 2);
    assert_eq!(cm.next_leader(Shard(0), 2), 5);
    assert_eq!(cm.next_leader(Shard(0), 5), 9);
    // wrap around
    assert_eq!(cm.next_leader(Shard(0), 9), 2);
    // registering a member twice changes nothing
    cm.add_validator(Shard(0), 5);
    assert_eq!(cm.get_committee(Shard(0)), vec![2, 5, 9]);
}

#[test]
fn fee_mempool_pops_highest_fee_then_highest_id() {
    let mut pool = FeeMempool::new();
    pool.push(tx(1, vec![0], 3));
    pool.push(tx(2, vec![0], 5));
    pool.push(tx(3, vec![0], 5));
    pool.push(tx(4, vec![0], 1));
    let a = pool.pop_max().unwrap();
    assert_eq!((a.effective_fee, a.id), (5, 3));
    let b = pool.pop_max().unwrap();
    assert_eq!((b.effective_fee, b.id), (5, 2));
    let c = pool.pop_max().unwrap();
    assert_eq!((c.effective_fee, c.id), (3, 1));
    let d = pool.pop_max().unwrap();
    assert_eq!((d.effective_fee, d.id), (1, 4));
    assert!(pool.pop_max().is_none());
}

#[test]
fn fee_mempool_retain_drops_named_ids() {
    let mut pool = FeeMempool::new();
    pool.push(tx(1, vec![0], 3));
    pool.push(tx(2, vec![0], 5));
    pool.push(tx(3, vec![0], 4));
    let exclude = vec![tx(2, vec![0], 5)];
    pool.retain_not_in(&exclude);
    assert!(!pool.contains_id(2));
    assert!(pool.contains_id(1));
    assert!(pool.contains_id(3));
    assert_eq!(pool.len(), 2);
}

#[test]
fn involved_shards_is_the_union_without_duplicates() {
    let block = Block::new(
        7,
        0,
        Shard(0),
        Qc::genesis(),
        1,
        1,
        vec![tx(1, vec![0, 1], 2), tx(2, vec![1], 1)],
        vec![tx(3, vec![2, 0], 2)],
        vec![tx(4, vec![3], 1)],
    );
    let mut shards: Vec<u32> = block.involved_shards().into_iter().map(|s| s.0).collect();
    shards.sort();
    // commit transactions do not count toward the involved shards
    assert_eq!(shards, vec![0, 1, 2]);
}

#[test]
fn network_connection_orders_by_arrival_time() {
    let mut conn = NetworkConnection::new(10);
    conn.push_message(Message::RequestBlock { id: 1, block_id: 5, request_by: 2 }, 0);
    conn.push_message(Message::RequestBlock { id: 2, block_id: 6, request_by: 2 }, 3);
    let early = conn.drain_ready(9);
    assert_eq!(early.len(), 0);
    let first = conn.drain_ready(10);
    assert_eq!(first.len(), 1);
    assert_eq!(first[0].id(), 1);
    let second = conn.drain_ready(20);
    assert_eq!(second.len(), 1);
    assert_eq!(second[0].id(), 2);
}

#[test]
fn network_latency_is_sampled_within_bounds() {
    let mut network = Network::new(Subscriber::new());
    network.add_connection(1, 2, 10, 20);
    let mut seen: usize = 0;
    for edge in &network.edges {
        assert!(edge.conn.latency >= 10 && edge.conn.latency < 20 || edge.conn.latency == 10);
        assert!((10..=20).contains(&edge.conn.latency));
        seen += 1;
    }
    assert_eq!(seen, 2);
    // both directions share one latency
    assert_eq!(network.edges[0].conn.latency, network.edges[1].conn.latency);
}

#[test]
fn network_delivers_when_due() {
    let mut network = Network::new(Subscriber::new());
    network.add_connection(1, 2, 5, 5);
    network.send_message(1, 2, Message::RequestBlock { id: 7, block_id: 9, request_by: 1 }, 0);
    assert_eq!(network.update(4).len(), 0);
    let due = network.update(5);
    assert_eq!(due.len(), 1);
    assert_eq!(due[0].0, 2);
    assert_eq!(due[0].1.id(), 7);
    // nothing left afterwards
    assert_eq!(network.update(100).len(), 0);
}

#[test]
fn subscriber_counts_per_validator() {
    let mut sub = Subscriber::new();
    sub.on_request_block(4);
    sub.on_request_block(4);
    sub.on_leader_failure(4);
    sub.on_leader_failure(6);
    let s4 = sub.stats_for(4);
    assert_eq!(s4.request_block, 2);
    assert_eq!(s4.leader_failures, 1);
    assert_eq!(s4.leaves_created, 0);
    let s6 = sub.stats_for(6);
    assert_eq!(s6.leader_failures, 1);
    let all = sub.print_stats();
    assert_eq!(all.len(), 2);
}
