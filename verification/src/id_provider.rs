use vstd::prelude::*;

verus! {

/// Hands out fresh identifiers for blocks, messages, validators and
/// transactions. Ids start at 1; 0 is reserved for the genesis block.
#[derive(Clone, Copy, Debug, PartialEq, Eq, Structural)]
pub struct IdProvider {
    pub next_id: u32,
}

impl IdProvider {
    pub fn new() -> (r: Self)
        ensures
            r.next_id == 1,
    {
        Self { next_id: 1 }
    }

    /// Returns the current id and advances, saturating at the largest id.
    pub fn next(&mut self) -> (r: u32)
        ensures
            r == old(self).next_id,
            final(self).next_id == if old(self).next_id < u32::MAX {
                (old(self).next_id + 1) as u32
            } else {
                u32::MAX
            },
    {
        let id = self.next_id;
        if self.next_id < u32::MAX {
            self.next_id = self.next_id + 1;
        }
        id
    }
}

} // verus!
