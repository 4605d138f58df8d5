use shardsim::block::Block;
use shardsim::cli::Cli;
use shardsim::committee_manager::CommitteeManager;
use shardsim::id_provider::IdProvider;
use shardsim::message::Message;
use shardsim::qc::Qc;
use shardsim::subscriber::{Event, Subscriber};
use shardsim::transaction::{Shard, Transaction};
use shardsim::validator_node::ValidatorNode;

fn tx(id: u32, shards: Vec<u32>, fee: u32) -> Transaction {
    Transaction {
        id,
        shards: shards.into_iter().map(Shard).collect(),
        effective_fee: fee,
    }
}

fn committee_of(ids: &[u32]) -> CommitteeManager {
    let mut cm = CommitteeManager::new();
    for id in ids {
        cm.add_validator(Shard(0), *id);
    }
    cm
}

fn node(id: u32, ids: &[u32], config: Cli) -> ValidatorNode {
    ValidatorNode::new(
        id,
        Shard(0),
        config,
        Block::genesis(),
        committee_of(ids),
        Subscriber::new(),
        0,
    )
}

fn qc_events(vn: &ValidatorNode) -> usize {
    vn.subscriber
        .events
        .iter()
        .filter(|e| matches!(e, Event::QcCreated { .. }))
        .count()
}

#[test]
fn quorum_of_seven_forms_qc_on_fifth_vote_only() {
    let ids: [u32; 7] = [2, 3, 4, 5, 6, 7, 8];
    let mut vn = node(2, &ids, Cli::default());
    let mut idp = IdProvider::new();
    // the node must hold the block being voted on
    let block = Block::new(42, 0, Shard(0), Qc::genesis(), 1, 2, vec![], vec![], vec![]);
    vn.blocks.insert(block);
    let mut formed_at: Vec<usize> = Vec::new();
    for (k, voter) in ids.iter().enumerate() {
        let formed = vn.on_receive_vote(&mut idp, 42, 1, *voter, 0);
        if formed {
            formed_at.push(k + 1);
        }
    }
    // quorum is 7 - 2 = 5: the 5th distinct vote forms the one and only QC
    assert_eq!(formed_at, vec![5]);
    assert_eq!(qc_events(&vn), 1);
}

#[test]
fn repeated_vote_neither_grows_the_set_nor_reforms_a_qc() {
    let ids: [u32; 4] = [2, 3, 4, 5];
    let mut vn = node(2, &ids, Cli::default());
    let mut idp = IdProvider::new();
    let block = Block::new(42, 0, Shard(0), Qc::genesis(), 1, 2, vec![], vec![], vec![]);
    vn.blocks.insert(block);
    assert!(!vn.on_receive_vote(&mut idp, 42, 1, 3, 0));
    assert_eq!(vn.votes.count(42), 1);
    // the same vote again: no growth
    assert!(!vn.on_receive_vote(&mut idp, 42, 1, 3, 0));
    assert_eq!(vn.votes.count(42), 1);
    // quorum of 4 is 3: two fresh votes form the QC
    assert!(!vn.on_receive_vote(&mut idp, 42, 1, 4, 0));
    assert!(vn.on_receive_vote(&mut idp, 42, 1, 5, 0));
    assert_eq!(qc_events(&vn), 1);
    // late and repeated votes must not re-form it
    assert!(!vn.on_receive_vote(&mut idp, 42, 1, 2, 0));
    assert!(!vn.on_receive_vote(&mut idp, 42, 1, 5, 0));
    assert_eq!(vn.votes.count(42), 4);
    assert_eq!(qc_events(&vn), 1);
}

#[test]
fn stale_votes_are_dropped() {
    let ids: [u32; 4] = [2, 3, 4, 5];
    let mut vn = node(2, &ids, Cli::default());
    vn.current_height = 5;
    let mut idp = IdProvider::new();
    assert!(!vn.on_receive_vote(&mut idp, 42, 4, 3, 0));
    assert_eq!(vn.votes.count(42), 0);
}

#[test]
fn redelivered_proposal_is_a_no_op() {
    let ids: [u32; 4] = [2, 3, 4, 5];
    let mut vn = node(2, &ids, Cli::default());
    let mut idp = IdProvider::new();
    let block = Block::new(42, 0, Shard(0), Qc::genesis(), 1, 2, vec![], vec![], vec![]);
    let message = Message::BlockProposal { id: 90, block: block.clone() };
    let out1 = vn.handle_block_proposal(&mut idp, 0, block.clone(), 0, message.clone());
    // the first delivery draws a vote
    assert_eq!(out1.len(), 1);
    let events_after_first = vn.subscriber.events.len();
    let voted_after_first = vn.last_voted_height;
    let summary_after_first = vn.print_stats();
    let out2 = vn.handle_block_proposal(&mut idp, 0, block, 0, message);
    assert_eq!(out2.len(), 0);
    assert_eq!(vn.subscriber.events.len(), events_after_first);
    assert_eq!(vn.last_voted_height, voted_after_first);
    assert_eq!(vn.print_stats(), summary_after_first);
}

#[test]
fn safety_rule_rejects_low_blocks() {
    let ids: [u32; 4] = [2, 3, 4, 5];
    let mut vn = node(2, &ids, Cli::default());
    vn.last_voted_height = 3;
    let mut idp = IdProvider::new();
    // height 1 is not above the last voted height: no vote
    let block = Block::new(42, 0, Shard(0), Qc::genesis(), 1, 2, vec![], vec![], vec![]);
    let message = Message::BlockProposal { id: 90, block: block.clone() };
    let out = vn.handle_block_proposal(&mut idp, 0, block, 0, message);
    assert_eq!(out.len(), 0);
    assert_eq!(vn.last_voted_height, 3);
}

#[test]
fn vote_goes_to_the_next_leader() {
    let ids: [u32; 4] = [2, 3, 4, 5];
    let mut vn = node(4, &ids, Cli::default());
    let mut idp = IdProvider::new();
    let block = Block::new(42, 0, Shard(0), Qc::genesis(), 1, 3, vec![], vec![], vec![]);
    let message = Message::BlockProposal { id: 90, block: block.clone() };
    let out = vn.handle_block_proposal(&mut idp, 0, block, 0, message);
    assert_eq!(out.len(), 1);
    // the proposer was 3; its successor in {2,3,4,5} is 4
    assert_eq!(out[0].0, 4);
    match &out[0].1 {
        Message::Vote { block_id, block_height, vote_by, .. } => {
            assert_eq!(*block_id, 42);
            assert_eq!(*block_height, 1);
            assert_eq!(*vote_by, 4);
        }
        other => panic!("expected a vote, got {:?}", other.id()),
    }
}

#[test]
fn fee_ordered_inclusion_takes_the_two_highest() {
    let ids: [u32; 4] = [2, 3, 4, 5];
    let mut config = Cli::default();
    config.max_tx_per_step_per_block = 2;
    let mut vn = node(2, &ids, config);
    let mut idp = IdProvider::new();
    for (id, fee) in [(10u32, 1u32), (11, 2), (12, 3), (13, 4), (14, 5)] {
        vn.add_transaction(tx(id, vec![0], fee), 0);
    }
    let leaf = vn.create_leaf(&mut idp, 0, Qc::genesis(), 1, 0);
    let fees: Vec<u32> = leaf.prepare_txs.iter().map(|t| t.effective_fee).collect();
    assert_eq!(fees, vec![5, 4]);
    // the rest stays pending
    assert_eq!(vn.new_tx_mempool.len(), 3);
    assert!(vn.new_tx_mempool.contains_id(10));
    assert!(vn.new_tx_mempool.contains_id(11));
    assert!(vn.new_tx_mempool.contains_id(12));
}

#[test]
fn startup_announces_to_the_first_leader() {
    let ids: [u32; 4] = [2, 3, 4, 5];
    let mut vn = node(3, &ids, Cli::default());
    let mut idp = IdProvider::new();
    let out = vn.update(&mut idp, 0);
    // with nothing received and height 0, the node starts a view change
    let new_views: Vec<&(u32, Message)> = out
        .iter()
        .filter(|(_, m)| matches!(m, Message::NewView { .. }))
        .collect();
    assert_eq!(new_views.len(), 1);
    // the genesis leader's successor is the first committee member
    assert_eq!(new_views[0].0, 2);
    match &new_views[0].1 {
        Message::NewView { height, from, .. } => {
            assert_eq!(*height, 1);
            assert_eq!(*from, 3);
        }
        other => panic!("expected a view change, got {:?}", other.id()),
    }
    assert_eq!(vn.current_height, 1);
    assert_eq!(vn.current_leader, 2);
}

#[test]
fn new_view_quorum_lets_the_leader_propose() {
    let ids: [u32; 4] = [2, 3, 4, 5];
    let mut vn = node(2, &ids, Cli::default());
    vn.current_height = 1;
    // quorum of 4 is 3 view-change votes at this height
    assert!(!vn.handle_new_view(1, Qc::genesis(), 3));
    assert!(!vn.handle_new_view(1, Qc::genesis(), 4));
    assert!(vn.handle_new_view(1, Qc::genesis(), 5));
    // a repeated sender does not count twice, but the quorum stands
    assert!(vn.handle_new_view(1, Qc::genesis(), 5));
    // a stale height is ignored
    vn.current_height = 9;
    assert!(!vn.handle_new_view(2, Qc::genesis(), 3));
}

#[test]
fn proposing_counts_a_leaf_and_broadcasts_to_the_committee() {
    let ids: [u32; 4] = [2, 3, 4, 5];
    let mut vn = node(2, &ids, Cli::default());
    let mut idp = IdProvider::new();
    let out = vn.on_propose(&mut idp, 7);
    // one proposal per committee member, self included
    assert_eq!(out.len(), 4);
    let mut dests: Vec<u32> = out.iter().map(|(to, _)| *to).collect();
    dests.sort();
    assert_eq!(dests, vec![2, 3, 4, 5]);
    for (_, m) in &out {
        assert!(matches!(m, Message::BlockProposal { .. }));
    }
    assert_eq!(vn.b_leaf.height, 1);
    assert_eq!(vn.b_leaf.proposed_by, 2);
    assert_eq!(vn.subscriber.stats_for(2).leaves_created, 1);
}

#[test]
fn queued_block_request_is_answered_during_update() {
    let ids: [u32; 4] = [2, 3, 4, 5];
    let mut vn = node(2, &ids, Cli::default());
    let mut idp = IdProvider::new();
    let stored = Block::new(42, 0, Shard(0), Qc::genesis(), 1, 2, vec![], vec![], vec![]);
    vn.blocks.insert(stored);
    vn.deliver_message(Message::RequestBlock { id: 90, block_id: 42, request_by: 5 }, 0);
    let out = vn.update(&mut idp, 0);
    let answers: Vec<&(u32, Message)> = out
        .iter()
        .filter(|(_, m)| matches!(m, Message::RequestBlockResponse { .. }))
        .collect();
    assert_eq!(answers.len(), 1);
    assert_eq!(answers[0].0, 5);
    match &answers[0].1 {
        Message::RequestBlockResponse { block, .. } => {
            assert_eq!(block.id, 42);
            assert_eq!(block.height, 1);
        }
        other => panic!("expected a block response, got {:?}", other.id()),
    }
}

#[test]
fn missing_justify_is_requested_and_replayed() {
    let ids: [u32; 4] = [2, 3, 4, 5];
    let mut vn1 = node(2, &ids, Cli::default());
    let mut vn2 = node(2, &ids, Cli::default());
    let mut idp1 = IdProvider::new();
    let mut idp2 = IdProvider::new();
    // an ancestor this node has never seen, and a proposal justified by it
    let ancestor = Block::new(50, 0, Shard(0), Qc::genesis(), 1, 3, vec![], vec![], vec![]);
    let justify = Qc::new(70, 50, 1, vec![2, 3, 4]);
    let proposal = Block::new(51, 50, Shard(0), justify, 2, 3, vec![], vec![], vec![]);

    // snoozed path: the proposal arrives before its ancestor
    vn1.deliver_message(Message::BlockProposal { id: 90, block: proposal.clone() }, 0);
    let out = vn1.update(&mut idp1, 0);
    // besides the start-up view change, exactly one block request goes out
    let requests: Vec<&(u32, Message)> = out
        .iter()
        .filter(|(_, m)| matches!(m, Message::RequestBlock { .. }))
        .collect();
    assert_eq!(requests.len(), 1);
    assert_eq!(requests[0].0, 3);
    match &requests[0].1 {
        Message::RequestBlock { block_id, request_by, .. } => {
            assert_eq!(*block_id, 50);
            assert_eq!(*request_by, 2);
        }
        other => panic!("expected a block request, got {:?}", other.id()),
    }
    assert!(vn1
        .subscriber
        .events
        .iter()
        .any(|e| matches!(e, Event::RequestBlock { vn_id: 2 })));
    // the response arrives: the snoozed proposal replays to the node itself
    vn1.deliver_message(
        Message::RequestBlockResponse { id: 91, block: ancestor.clone() },
        1,
    );
    let replays = vn1.update(&mut idp1, 1);
    let mut replayed: usize = 0;
    for (to, m) in replays {
        assert_eq!(to, 2);
        vn1.deliver_message(m, 1);
        replayed += 1;
    }
    assert_eq!(replayed, 1);
    let _ = vn1.update(&mut idp1, 1);

    // direct path: the ancestor arrives first
    vn2.deliver_message(
        Message::RequestBlockResponse { id: 91, block: ancestor.clone() },
        0,
    );
    let _ = vn2.update(&mut idp2, 0);
    vn2.deliver_message(Message::BlockProposal { id: 90, block: proposal.clone() }, 1);
    let _ = vn2.update(&mut idp2, 1);

    // both nodes end in the same consensus state
    assert_eq!(vn1.last_voted_height, 2);
    assert_eq!(vn1.last_voted_height, vn2.last_voted_height);
    assert_eq!(vn1.current_height, vn2.current_height);
    assert_eq!(vn1.high_qc.block_id, vn2.high_qc.block_id);
    assert!(vn1.blocks.contains(50) && vn1.blocks.contains(51));
    assert!(vn2.blocks.contains(50) && vn2.blocks.contains(51));
}
