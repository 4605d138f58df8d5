use vstd::prelude::*;

verus! {

/// Hands out consecutive message identifiers, starting at 0.
#[derive(Clone, Copy, Debug, PartialEq, Eq, Structural)]
pub struct MessageIdFactory {
    pub next_id: usize,
}

impl MessageIdFactory {
    pub fn new() -> (r: Self)
        ensures
            r.next_id == 0,
    {
        Self { next_id: 0 }
    }

    /// Returns the current id and advances, saturating at the largest id.
    pub fn next(&mut self) -> (r: usize)
        ensures
            r == old(self).next_id,
            final(self).next_id == if old(self).next_id < usize::MAX {
                (old(self).next_id + 1) as usize
            } else {
                usize::MAX
            },
    {
        let id = self.next_id;
        if self.next_id < usize::MAX {
            self.next_id = self.next_id + 1;
        }
        id
    }
}

} // verus!
