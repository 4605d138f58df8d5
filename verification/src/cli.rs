use vstd::prelude::*;

verus! {

/// Simulation configuration. Durations are in milliseconds. The program's
/// command line parser builds one of these from its arguments.
#[derive(Clone, Copy, Debug, PartialEq, Eq, Structural)]
pub struct Cli {
    pub num_vns: usize,
    pub min_latency: u64,
    pub max_latency: u64,
    pub max_block_size: usize,
    pub num_shards: u32,
    /// The time before deciding a block has timed out.
    pub delta: u64,
    pub num_steps: usize,
    pub time_per_step: u64,
    pub print_stats_every: usize,
    pub max_tx_per_step_per_block: usize,
    pub num_transactions: usize,
    pub probability_2_shards: u32,
    pub probability_3_shards: u32,
    pub probability_4_shards: u32,
    pub probability_5_shards: u32,
}

/// The constraints the simulation needs of a configuration.
pub open spec fn cli_wf(c: Cli) -> bool {
    &&& c.num_shards >= 1
    &&& c.min_latency <= c.max_latency
    &&& c.delta >= 1
    &&& c.time_per_step >= 1
}

impl Cli {
    pub open spec fn wf(self) -> bool {
        cli_wf(self)
    }
}

impl Default for Cli {
    /// The stock configuration: the same values the command line offers as
    /// defaults.
    fn default() -> (r: Self)
        ensures
            r.wf(),
            r.num_vns == 20,
            r.min_latency == 50,
            r.max_latency == 50,
            r.max_block_size == 10,
            r.num_shards == 5,
            r.delta == 5000,
            r.num_steps == 40,
            r.time_per_step == 100,
            r.print_stats_every == 10,
            r.max_tx_per_step_per_block == 5,
            r.num_transactions == 500,
            r.probability_2_shards == 10,
            r.probability_3_shards == 5,
            r.probability_4_shards == 0,
            r.probability_5_shards == 0,
    {
        Cli {
            num_vns: 20,
            min_latency: 50,
            max_latency: 50,
            max_block_size: 10,
            num_shards: 5,
            delta: 5000,
            num_steps: 40,
            time_per_step: 100,
            print_stats_every: 10,
            max_tx_per_step_per_block: 5,
            num_transactions: 500,
            probability_2_shards: 10,
            probability_3_shards: 5,
            probability_4_shards: 0,
            probability_5_shards: 0,
        }
    }
}

} // verus!
