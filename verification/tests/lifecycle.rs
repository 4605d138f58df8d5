use shardsim::block::Block;
use shardsim::cli::Cli;
use shardsim::committee_manager::CommitteeManager;
use shardsim::qc::Qc;
use shardsim::subscriber::{Event, Subscriber};
use shardsim::transaction::{Shard, Transaction};
use shardsim::validator_node::ValidatorNode;

fn tx(id: u32, shards: Vec<u32>, fee: u32) -> Transaction {
    Transaction {
        id,
        shards: shards.into_iter().map(Shard).collect(),
        effective_fee: fee,
    }
}

fn node_on(shard: u32, id: u32, ids: &[u32]) -> ValidatorNode {
    let mut cm = CommitteeManager::new();
    for v in ids {
        cm.add_validator(Shard(shard), *v);
    }
    ValidatorNode::new(
        id,
        Shard(shard),
        Cli::default(),
        Block::genesis(),
        cm,
        Subscriber::new(),
        0,
    )
}

#[test]
fn wrong_shard_transaction_is_dropped() {
    let mut vn = node_on(0, 2, &[2, 3, 4, 5]);
    vn.add_transaction(tx(10, vec![1], 3), 0);
    assert_eq!(vn.new_tx_mempool.len(), 0);
    vn.add_transaction(tx(11, vec![0, 1], 3), 0);
    assert_eq!(vn.new_tx_mempool.len(), 1);
}

#[test]
fn single_shard_prepare_moves_tx_to_ready() {
    let mut vn = node_on(0, 2, &[2, 3, 4, 5]);
    vn.add_transaction(tx(10, vec![0], 3), 0);
    let qc = Qc::new(70, 42, 1, vec![2, 3, 4]);
    let certified = Block::new(
        42,
        0,
        Shard(0),
        Qc::genesis(),
        1,
        3,
        vec![tx(10, vec![0], 3)],
        vec![],
        vec![],
    );
    vn.apply_qc(&qc, 5, &certified);
    // prepared and out of the fresh pool
    assert!(vn.ready_prepared_mempool.contains_id(10));
    assert!(!vn.new_tx_mempool.contains_id(10));
    assert!(vn
        .subscriber
        .events
        .iter()
        .any(|e| matches!(e, Event::TransactionPreparedReady { tx_id: 10, .. })));
}

#[test]
fn cross_shard_prepare_waits_for_every_shard() {
    let mut vn = node_on(0, 2, &[2, 3, 4, 5]);
    let cross = tx(10, vec![0, 1], 3);
    let qc = Qc::new(70, 42, 1, vec![2, 3, 4]);
    let local_block = Block::new(
        42,
        0,
        Shard(0),
        Qc::genesis(),
        1,
        3,
        vec![cross.clone()],
        vec![],
        vec![],
    );
    vn.apply_qc(&qc, 5, &local_block);
    // only this shard has evidenced it: waiting, not ready
    assert!(vn.waiting_prepared_mempool.contains(10));
    assert_eq!(vn.waiting_prepared_mempool.marks_count(10), 1);
    assert!(!vn.ready_prepared_mempool.contains_id(10));
    assert!(vn
        .subscriber
        .events
        .iter()
        .any(|e| matches!(e, Event::TransactionPreparedWaiting { tx_id: 10, .. })));
    // the foreign committee's block supplies the second shard's evidence
    let foreign_block = Block::new(
        60,
        0,
        Shard(1),
        Qc::genesis(),
        1,
        9,
        vec![cross.clone()],
        vec![],
        vec![],
    );
    let mut idp = shardsim::id_provider::IdProvider::new();
    let out = vn.on_receive_proposal(&mut idp, &foreign_block, 6, (6, shardsim::message::Message::BlockProposal { id: 90, block: foreign_block.clone() }));
    assert_eq!(out.len(), 0);
    assert!(!vn.waiting_prepared_mempool.contains(10));
    assert!(vn.ready_prepared_mempool.contains_id(10));
    assert!(vn
        .subscriber
        .events
        .iter()
        .any(|e| matches!(e, Event::TransactionMovedToPrepareReady { tx_id: 10, .. })));
}

#[test]
fn foreign_tx_with_complete_evidence_is_promoted_at_once() {
    // a foreign block whose transaction touches only the foreign shard:
    // that one observation is already the full evidence set
    let mut vn = node_on(0, 2, &[2, 3, 4, 5]);
    let foreign_only = tx(10, vec![1], 1);
    let foreign_block = Block::new(
        60,
        0,
        Shard(1),
        Qc::genesis(),
        1,
        9,
        vec![foreign_only.clone()],
        vec![],
        vec![],
    );
    let mut idp = shardsim::id_provider::IdProvider::new();
    let out = vn.on_receive_proposal(
        &mut idp,
        &foreign_block,
        3,
        (3, shardsim::message::Message::BlockProposal { id: 90, block: foreign_block.clone() }),
    );
    assert_eq!(out.len(), 0);
    assert!(!vn.waiting_prepared_mempool.contains(10));
    assert!(vn.ready_prepared_mempool.contains_id(10));
}

#[test]
fn precommit_moves_tx_one_phase_later() {
    let mut vn = node_on(0, 2, &[2, 3, 4, 5]);
    let t = tx(10, vec![0], 3);
    let qc1 = Qc::new(70, 42, 1, vec![2, 3, 4]);
    let prepared_block = Block::new(
        42,
        0,
        Shard(0),
        Qc::genesis(),
        1,
        3,
        vec![t.clone()],
        vec![],
        vec![],
    );
    vn.apply_qc(&qc1, 5, &prepared_block);
    assert!(vn.ready_prepared_mempool.contains_id(10));
    let qc2 = Qc::new(71, 43, 2, vec![2, 3, 4]);
    let precommitted_block = Block::new(
        43,
        42,
        Shard(0),
        qc1,
        2,
        4,
        vec![],
        vec![t.clone()],
        vec![],
    );
    vn.apply_qc(&qc2, 6, &precommitted_block);
    // moved from ready-prepared to ready-precommitted: never in both
    assert!(!vn.ready_prepared_mempool.contains_id(10));
    assert!(vn.ready_pre_committed_mempool.contains_id(10));
    let qc3 = Qc::new(72, 44, 3, vec![2, 3, 4]);
    let committed_block = Block::new(
        44,
        43,
        Shard(0),
        qc2,
        3,
        5,
        vec![],
        vec![],
        vec![t.clone()],
    );
    vn.apply_qc(&qc3, 7, &committed_block);
    assert!(!vn.ready_pre_committed_mempool.contains_id(10));
    assert!(vn
        .subscriber
        .events
        .iter()
        .any(|e| matches!(e, Event::TransactionCommitted { tx_id: 10, .. })));
    // the lifecycle order stands in the log: prepared before precommitted
    // before committed
    let idx_of = |pred: &dyn Fn(&Event) -> bool| -> usize {
        vn.subscriber.events.iter().position(|e| pred(e)).unwrap()
    };
    let prepared = idx_of(&|e| matches!(e, Event::TransactionPreparedReady { tx_id: 10, .. }));
    let precommitted =
        idx_of(&|e| matches!(e, Event::TransactionPrecommitReady { tx_id: 10, .. }));
    let committed = idx_of(&|e| matches!(e, Event::TransactionCommitted { tx_id: 10, .. }));
    assert!(prepared < precommitted);
    assert!(precommitted < committed);
}

#[test]
fn ready_pools_stay_exclusive() {
    let mut vn = node_on(0, 2, &[2, 3, 4, 5]);
    let t = tx(10, vec![0], 3);
    let qc1 = Qc::new(70, 42, 1, vec![2, 3, 4]);
    let block1 = Block::new(
        42,
        0,
        Shard(0),
        Qc::genesis(),
        1,
        3,
        vec![t.clone()],
        vec![t.clone()],
        vec![],
    );
    // the same transaction in both the prepare and precommit buckets of one
    // certified block must still end in exactly one ready pool
    vn.apply_qc(&qc1, 5, &block1);
    let in_prepared = vn.ready_prepared_mempool.contains_id(10);
    let in_precommitted = vn.ready_pre_committed_mempool.contains_id(10);
    assert!(!(in_prepared && in_precommitted));
    assert!(in_prepared || in_precommitted);
}
