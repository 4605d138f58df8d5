use vstd::prelude::*;

verus! {

/// Identifier of a simulated node.
#[derive(Clone, Copy, Debug, PartialEq, Eq, Hash, Structural)]
pub struct NodeId(pub usize);

/// Hands out consecutive node identifiers, starting at 0.
#[derive(Clone, Copy, Debug, PartialEq, Eq, Structural)]
pub struct NodeFactory {
    pub next_id: usize,
}

impl NodeFactory {
    pub fn new() -> (r: Self)
        ensures
            r.next_id == 0,
    {
        Self { next_id: 0 }
    }

    /// Returns the current id and advances, saturating at the largest id.
    pub fn next(&mut self) -> (r: NodeId)
        ensures
            r == (NodeId(old(self).next_id)),
            final(self).next_id == if old(self).next_id < usize::MAX {
                (old(self).next_id + 1) as usize
            } else {
                usize::MAX
            },
    {
        let id = self.next_id;
        if self.next_id < usize::MAX {
            self.next_id = self.next_id + 1;
        }
        NodeId(id)
    }
}

} // verus!
