use vstd::prelude::*;
use crate::block::BlockView;
use crate::committee_manager::quorum;
use crate::transaction::seq_has_tx_id;
use crate::validator_node::{ValidatorNode, distinct_seq};

verus! {

/// How the executed tip of one validator evolves: every turn either leaves
/// it alone or replaces it with a strictly higher block. This is what
/// `ValidatorNode::update` ensures of `b_exec`.
pub open spec fn exec_monotone(run: Seq<BlockView>) -> bool {
    forall|i: int|
        0 <= i < run.len() - 1 ==> (#[trigger] run[i + 1]) == run[i] || run[i + 1].height > run[
            i
        ].height
}

/// Monotone execution: along a run of executed tips the height never
/// decreases.
pub proof fn lemma_exec_heights_monotone(run: Seq<BlockView>, i: int, j: int)
    requires
        exec_monotone(run),
        0 <= i <= j < run.len(),
    ensures
        run[j].height >= run[i].height,
    decreases j - i,
{
    if i < j {
        lemma_exec_heights_monotone(run, i, j - 1);
        assert(run[(j - 1) + 1] == run[j - 1] || run[(j - 1) + 1].height > run[j - 1].height);
    }
}

/// Safety at one validator: along a run of executed tips, two distinct
/// blocks never stand at the same height — whenever the tip changes, its
/// height strictly grows.
pub proof fn lemma_exec_safety(run: Seq<BlockView>, i: int, j: int)
    requires
        exec_monotone(run),
        0 <= i <= j < run.len(),
        run[i] != run[j],
    ensures
        run[j].height > run[i].height,
    decreases j - i,
{
    assert(i < j);
    if run[j] == run[j - 1] {
        lemma_exec_safety(run, i, j - 1);
    } else {
        assert(run[(j - 1) + 1] == run[j - 1] || run[(j - 1) + 1].height > run[j - 1].height);
        lemma_exec_heights_monotone(run, i, j - 1);
    }
}

/// The quorum threshold: every certificate a well-formed validator has
/// formed carries at least `quorum(n)` distinct votes.
pub proof fn lemma_qc_threshold(v: ValidatorNode, i: int)
    requires
        v.wf(),
        0 <= i < v.formed_qcs@.len(),
    ensures
        v.formed_qcs@[i].votes.len() >= quorum(v.committee_n()),
        distinct_seq(v.formed_qcs@[i].votes),
{
}

/// Certificate uniqueness: a well-formed validator never forms two
/// certificates for the same block, so no two of its certificates for one
/// block can differ.
pub proof fn lemma_qc_unique(v: ValidatorNode, i: int, j: int)
    requires
        v.wf(),
        0 <= i < v.formed_qcs@.len(),
        0 <= j < v.formed_qcs@.len(),
        i != j,
    ensures
        v.formed_qcs@[i].block_id != v.formed_qcs@[j].block_id,
{
    if i < j {
    } else {
        assert(v.formed_qcs@[j].block_id != v.formed_qcs@[i].block_id);
    }
}

/// Lifecycle progression, per validator: whatever sits in a prepared pool
/// was observed in the prepare bucket of some certified or foreign block,
/// and whatever sits in a precommitted pool was observed in the precommit
/// bucket of some certified block. Together with `create_leaf`'s contract —
/// a proposed block's precommit bucket is drawn from the ready-prepared
/// pool and its commit bucket from the ready-precommitted pool — a
/// committed transaction passed through both earlier phases on its
/// proposer.
pub proof fn lemma_lifecycle_tracked(v: ValidatorNode, id: u32)
    requires
        v.wf(),
    ensures
        seq_has_tx_id(v.ready_prepared_mempool@, id) ==> v.prepared_seen@.contains(id),
        crate::mempool::pool_has_id(v.waiting_prepared_mempool@, id) ==> v.prepared_seen@.contains(
            id,
        ),
        seq_has_tx_id(v.ready_pre_committed_mempool@, id) ==> v.precommitted_seen@.contains(id),
        crate::mempool::pool_has_id(v.waiting_pre_committed_mempool@, id)
            ==> v.precommitted_seen@.contains(id),
{
}

/// Mempool exclusivity: in a well-formed validator a transaction sits in at
/// most one ready mempool at a time.
pub proof fn lemma_ready_exclusive(v: ValidatorNode, id: u32)
    requires
        v.wf(),
    ensures
        !(seq_has_tx_id(v.ready_prepared_mempool@, id) && seq_has_tx_id(
            v.ready_pre_committed_mempool@,
            id,
        )),
{
}

} // verus!
