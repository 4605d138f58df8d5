use vstd::prelude::*;

verus! {

/// A quorum certificate: evidence that a quorum of a committee voted for the
/// block `block_id` at height `block_height`.
#[derive(Debug)]
pub struct Qc {
    pub id: u32,
    pub block_id: u32,
    pub votes: Vec<u32>,
    pub block_height: u32,
}

/// Mathematical model of a quorum certificate.
#[verifier::ext_equal]
pub ghost struct QcView {
    pub id: u32,
    pub block_id: u32,
    pub votes: Seq<u32>,
    pub block_height: u32,
}

impl View for Qc {
    type V = QcView;

    open spec fn view(&self) -> QcView {
        QcView {
            id: self.id,
            block_id: self.block_id,
            votes: self.votes@,
            block_height: self.block_height,
        }
    }
}

impl Qc {
    pub fn new(id: u32, block_id: u32, block_height: u32, votes: Vec<u32>) -> (r: Self)
        ensures
            r@ == (QcView { id, block_id, votes: votes@, block_height }),
    {
        Self { id, block_id, block_height, votes }
    }

    /// The certificate carried by the genesis block: id 0, height 0, no votes.
    pub fn genesis() -> (r: Self)
        ensures
            r@ == (QcView { id: 0, block_id: 0, votes: Seq::<u32>::empty(), block_height: 0 }),
    {
        Self { id: 0, block_id: 0, block_height: 0, votes: Vec::new() }
    }
}

impl Clone for Qc {
    fn clone(&self) -> (res: Self)
        ensures
            res@ == self@,
    {
        let mut votes: Vec<u32> = Vec::new();
        let mut i: usize = 0;
        while i < self.votes.len()
            invariant
                i <= self.votes@.len(),
                votes@ == self.votes@.take(i as int),
            decreases self.votes@.len() - i,
        {
            votes.push(self.votes[i]);
            proof {
                assert(votes@ =~= self.votes@.take(i + 1));
            }
            i = i + 1;
        }
        proof {
            assert(votes@ =~= self.votes@);
        }
        Qc { id: self.id, block_id: self.block_id, votes, block_height: self.block_height }
    }
}

} // verus!
