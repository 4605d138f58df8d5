use vstd::prelude::*;
use crate::block::{Block, BlockView};

verus! {

/// The per-validator block graph: an append-only arena of blocks addressed
/// by their id. It holds the genesis block and every block the validator has
/// received or proposed.
#[derive(Debug)]
pub struct BlockStore {
    pub blocks: Vec<Block>,
}

impl BlockStore {
    /// Ids are unique, so lookup by id is a function.
    pub open spec fn wf(self) -> bool {
        forall|i: int, j: int|
            0 <= i < j < self.blocks@.len() ==> self.blocks@[i].id != self.blocks@[j].id
    }

    pub open spec fn has_block(self, id: u32) -> bool {
        exists|i: int| 0 <= i < self.blocks@.len() && self.blocks@[i].id == id
    }

    pub open spec fn index_of(self, id: u32) -> int {
        choose|i: int| 0 <= i < self.blocks@.len() && self.blocks@[i].id == id
    }

    /// The model of the block stored under `id`.
    pub open spec fn spec_get(self, id: u32) -> BlockView {
        self.blocks@[self.index_of(id)]@
    }

    pub fn new(genesis: Block) -> (r: Self)
        ensures
            r.wf(),
            r.has_block(genesis.id),
            r.spec_get(genesis.id) == genesis@,
            forall|x: u32| r.has_block(x) ==> x == genesis.id,
    {
        let mut blocks: Vec<Block> = Vec::new();
        let ghost gid = genesis.id;
        blocks.push(genesis);
        let r = Self { blocks };
        proof {
            assert(r.blocks@[0].id == gid);
        }
        r
    }

    pub fn contains(&self, id: u32) -> (r: bool)
        ensures
            r == self.has_block(id),
    {
        let mut i: usize = 0;
        while i < self.blocks.len()
            invariant
                i <= self.blocks@.len(),
                forall|j: int| 0 <= j < i ==> self.blocks@[j].id != id,
            decreases self.blocks@.len() - i,
        {
            if self.blocks[i].id == id {
                return true;
            }
            i = i + 1;
        }
        false
    }

    /// Look a block up by id.
    pub fn get(&self, id: u32) -> (r: Option<&Block>)
        requires
            self.wf(),
        ensures
            r is Some <==> self.has_block(id),
            r matches Some(b) ==> b.id == id && b@ == self.spec_get(id),
    {
        let mut i: usize = 0;
        while i < self.blocks.len()
            invariant
                i <= self.blocks@.len(),
                self.wf(),
                forall|j: int| 0 <= j < i ==> self.blocks@[j].id != id,
            decreases self.blocks@.len() - i,
        {
            if self.blocks[i].id == id {
                proof {
                    assert(self.has_block(id));
                    let w = self.index_of(id);
                    assert(self.blocks@[w].id == id);
                    assert(w == i);
                }
                return Some(&self.blocks[i]);
            }
            i = i + 1;
        }
        None
    }

    /// Insert a block whose id is not present yet. Lookup of every other id
    /// is unchanged.
    pub fn insert(&mut self, block: Block)
        requires
            old(self).wf(),
            !old(self).has_block(block.id),
        ensures
            final(self).wf(),
            final(self).has_block(block.id),
            final(self).spec_get(block.id) == block@,
            forall|x: u32| #[trigger]
                final(self).has_block(x) <==> old(self).has_block(x) || x == block.id,
            forall|x: u32|
                old(self).has_block(x) ==> final(self).spec_get(x) == old(self).spec_get(x),
    {
        let ghost prev = self.blocks@;
        let ghost bid = block.id;
        let ghost bview = block@;
        self.blocks.push(block);
        proof {
            let n = prev.len() as int;
            assert(self.blocks@[n].id == bid);
            assert(forall|j: int| 0 <= j < n ==> self.blocks@[j] == prev[j]);
            assert(forall|j: int| 0 <= j < n ==> self.blocks@[j].id != bid);
            assert(final(self).has_block(bid));
            assert forall|x: u32| #[trigger]
                final(self).has_block(x) implies (old(self).has_block(x) || x == bid) by {
                let w = choose|w: int| 0 <= w < self.blocks@.len() && self.blocks@[w].id == x;
                if w < n {
                    assert(prev[w].id == x);
                }
            };
            assert forall|x: u32| old(self).has_block(x) implies #[trigger]
                final(self).has_block(x) by {
                let w = choose|w: int| 0 <= w < prev.len() && prev[w].id == x;
                assert(self.blocks@[w].id == x);
            };
            let w = self.index_of(bid);
            assert(self.blocks@[w].id == bid);
            assert(w == n);
            assert(final(self).spec_get(bid) == bview);
            assert forall|x: u32|
                old(self).has_block(x) implies final(self).spec_get(x) == old(self).spec_get(
                x,
            ) by {
                let wo = old(self).index_of(x);
                assert(prev[wo].id == x);
                let wn = self.index_of(x);
                assert(self.blocks@[wn].id == x);
                assert(wn == wo);
            };
        }
    }
}

} // verus!
