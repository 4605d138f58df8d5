use shardsim::cli::Cli;
use shardsim::simulation::Simulation;
use shardsim::subscriber::Event;
use shardsim::transaction::{Shard, Transaction};

fn base_config() -> Cli {
    let mut config = Cli::default();
    config.num_vns = 4;
    config.num_shards = 1;
    config.min_latency = 0;
    config.max_latency = 0;
    config.delta = 1000;
    config.time_per_step = 100;
    config.num_steps = 30;
    config.num_transactions = 0;
    config.probability_2_shards = 0;
    config.probability_3_shards = 0;
    config.probability_4_shards = 0;
    config.probability_5_shards = 0;
    config
}

fn committed_ids(sim: &Simulation, vn: usize) -> Vec<u32> {
    sim.vns[vn]
        .subscriber
        .events
        .iter()
        .filter_map(|e| match e {
            Event::TransactionCommitted { tx_id, .. } => Some(*tx_id),
            _ => None,
        })
        .collect()
}

#[test]
fn single_shard_happy_path_commits_all_transactions() {
    let mut config = base_config();
    config.num_transactions = 2;
    let mut sim = Simulation::new(config);
    sim.run();
    // both produced transactions commit on some validator of the shard
    let mut all_committed: Vec<u32> = Vec::new();
    for v in 0..sim.vns.len() {
        all_committed.extend(committed_ids(&sim, v));
    }
    all_committed.sort();
    all_committed.dedup();
    assert!(
        all_committed.len() >= 2,
        "expected both transactions committed, saw {:?}",
        all_committed
    );
    // consensus made progress
    assert!(sim.vns.iter().any(|vn| vn.print_stats().b_exec_height >= 1));
    // somebody led at least one round
    let leaves: usize = sim
        .vns
        .iter()
        .map(|vn| vn.subscriber.stats_for(vn.id).leaves_created)
        .sum();
    assert!(leaves >= 3);
}

#[test]
fn execution_height_never_decreases() {
    let mut config = base_config();
    config.num_transactions = 5;
    let mut sim = Simulation::new(config);
    let mut last: Vec<u32> = sim.vns.iter().map(|vn| vn.print_stats().b_exec_height).collect();
    for _ in 0..30 {
        sim.step();
        let now: Vec<u32> = sim.vns.iter().map(|vn| vn.print_stats().b_exec_height).collect();
        for (before, after) in last.iter().zip(now.iter()) {
            assert!(after >= before);
        }
        last = now;
    }
    assert!(last.iter().any(|h| *h >= 1));
}

#[test]
fn leader_failure_rotates_the_view() {
    let mut config = base_config();
    // every message is slower than the timeout budget
    config.min_latency = 210;
    config.max_latency = 210;
    config.delta = 400;
    config.num_steps = 200;
    let mut sim = Simulation::new(config);
    sim.run();
    let failures: usize = sim
        .vns
        .iter()
        .map(|vn| vn.subscriber.stats_for(vn.id).leader_failures)
        .sum();
    assert!(failures >= 1);
    // the cached leader rotated away from the genesis author
    assert!(sim.vns.iter().any(|vn| vn.print_stats().current_leader != 0));
    // no execution: votes outlive their height and are dropped as stale
    assert!(sim.vns.iter().all(|vn| vn.print_stats().b_exec_height == 0));
}

#[test]
fn cross_shard_transaction_is_prepared_on_both_shards() {
    let mut config = base_config();
    config.num_vns = 8;
    config.num_shards = 2;
    config.delta = 2000;
    config.num_steps = 40;
    let mut sim = Simulation::new(config);
    // one transaction touching both shards, handed to every validator
    let cross = Transaction {
        id: 9000,
        shards: vec![Shard(0), Shard(1)],
        effective_fee: 2,
    };
    for v in 0..sim.vns.len() {
        sim.vns[v].add_transaction(cross.clone(), 0);
    }
    sim.run();
    // the transaction waits for the other shard's evidence before it is
    // ready, on validators of both shards
    let mut waited = [false, false];
    let mut prepared = [false, false];
    let mut entered_precommit = [false, false];
    for v in 0..sim.vns.len() {
        let shard = sim.vns[v].shard.0 as usize;
        for e in &sim.vns[v].subscriber.events {
            match e {
                Event::TransactionPreparedWaiting { tx_id: 9000, .. } => {
                    waited[shard] = true;
                }
                Event::TransactionPreparedReady { tx_id: 9000, .. }
                | Event::TransactionMovedToPrepareReady { tx_id: 9000, .. } => {
                    prepared[shard] = true;
                }
                Event::TransactionPrecommitWaiting { tx_id: 9000, .. }
                | Event::TransactionPrecommitReady { tx_id: 9000, .. } => {
                    entered_precommit[shard] = true;
                }
                _ => {}
            }
        }
    }
    assert!(waited[0] || waited[1], "never waited for foreign evidence");
    assert!(prepared[0], "not prepared on shard 0");
    assert!(prepared[1], "not prepared on shard 1");
    // once prepared everywhere, the transaction enters the precommit phase
    assert!(entered_precommit[0] || entered_precommit[1]);
}

#[test]
fn generator_respects_shard_bounds() {
    let mut config = Cli::default();
    config.num_shards = 3;
    config.num_transactions = 50;
    config.probability_2_shards = 40;
    config.probability_3_shards = 30;
    config.probability_4_shards = 0;
    config.probability_5_shards = 0;
    let mut idp = shardsim::id_provider::IdProvider::new();
    let mut generator =
        shardsim::transaction_generator::TransactionGenerator::new(&mut idp, 50, config);
    let mut produced: usize = 0;
    while let Some(tx) = generator.next(&mut idp) {
        produced += 1;
        assert!(!tx.shards.is_empty() && tx.shards.len() <= 5);
        assert!((1..=5).contains(&tx.effective_fee));
        for s in &tx.shards {
            assert!(s.0 < 3);
        }
        let mut seen: Vec<u32> = tx.shards.iter().map(|s| s.0).collect();
        seen.sort();
        seen.dedup();
        assert_eq!(seen.len(), tx.shards.len());
    }
    assert_eq!(produced, 50);
}
