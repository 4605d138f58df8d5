use vstd::prelude::*;

verus! {

/// The network participant that injects transactions into the validators.
#[derive(Clone, Copy, Debug, PartialEq, Eq, Structural)]
pub struct Indexer {
    pub id: u32,
}

impl Indexer {
    pub fn new(id: u32) -> (r: Self)
        ensures
            r.id == id,
    {
        Self { id }
    }
}

} // verus!
