use vstd::prelude::*;

verus! {

/// The votes recorded under one key.
#[derive(Debug)]
pub struct VoteEntry {
    pub key: u32,
    pub voters: Vec<u32>,
}

/// Mathematical model of a vote entry.
#[verifier::ext_equal]
pub ghost struct VoteEntryView {
    pub key: u32,
    pub voters: Seq<u32>,
}

impl View for VoteEntry {
    type V = VoteEntryView;

    open spec fn view(&self) -> VoteEntryView {
        VoteEntryView { key: self.key, voters: self.voters@ }
    }
}

/// Deduplicated votes grouped by a key: by block id for proposal votes, by
/// height for view-change votes.
#[derive(Debug)]
pub struct VoteBook {
    pub entries: Vec<VoteEntry>,
}

/// Whether an entry for `key` exists.
pub open spec fn book_has_key(s: Seq<VoteEntryView>, key: u32) -> bool {
    exists|i: int| 0 <= i < s.len() && s[i].key == key
}

impl View for VoteBook {
    type V = Seq<VoteEntryView>;

    open spec fn view(&self) -> Seq<VoteEntryView> {
        self.entries@.map_values(|e: VoteEntry| e@)
    }
}

impl VoteBook {
    /// Keys are unique; no voter is recorded twice under one key.
    pub open spec fn wf(self) -> bool {
        &&& forall|i: int, j: int| 0 <= i < j < self@.len() ==> self@[i].key != self@[j].key
        &&& forall|i: int|
            0 <= i < self@.len() ==> (forall|p: int, q: int|
                0 <= p < q < (#[trigger] self@[i].voters).len() ==> self@[i].voters[p]
                    != self@[i].voters[q])
    }

    pub open spec fn idx_of(self, key: u32) -> int {
        choose|i: int| 0 <= i < self@.len() && self@[i].key == key
    }

    /// The voters recorded under `key` (empty if none).
    pub open spec fn voters_of(self, key: u32) -> Seq<u32> {
        if book_has_key(self@, key) {
            self@[self.idx_of(key)].voters
        } else {
            Seq::<u32>::empty()
        }
    }

    pub fn new() -> (r: Self)
        ensures
            r@ == Seq::<VoteEntryView>::empty(),
            r.wf(),
            forall|k: u32| #[trigger] r.voters_of(k) == Seq::<u32>::empty(),
    {
        let r = Self { entries: Vec::new() };
        proof {
            assert(r@ =~= Seq::<VoteEntryView>::empty());
        }
        r
    }

    /// How many distinct voters are recorded under `key`.
    pub fn count(&self, key: u32) -> (r: usize)
        requires
            self.wf(),
        ensures
            r == self.voters_of(key).len(),
    {
        let mut i: usize = 0;
        while i < self.entries.len()
            invariant
                i <= self.entries@.len(),
                self.wf(),
                forall|j: int| 0 <= j < i ==> self@[j].key != key,
            decreases self.entries@.len() - i,
        {
            if self.entries[i].key == key {
                proof {
                    assert(self@[i as int].key == key);
                    let w = self.idx_of(key);
                    assert(self@[w].key == key);
                    assert(w == i);
                }
                return self.entries[i].voters.len();
            }
            i = i + 1;
        }
        proof {
            if book_has_key(self@, key) {
                let w = self.idx_of(key);
                assert(self@[w].key == key);
                assert(false);
            }
        }
        0
    }

    /// A copy of the voters recorded under `key`.
    pub fn voters_clone(&self, key: u32) -> (r: Vec<u32>)
        requires
            self.wf(),
        ensures
            r@ == self.voters_of(key),
    {
        let mut i: usize = 0;
        while i < self.entries.len()
            invariant
                i <= self.entries@.len(),
                self.wf(),
                forall|j: int| 0 <= j < i ==> self@[j].key != key,
            decreases self.entries@.len() - i,
        {
            if self.entries[i].key == key {
                proof {
                    assert(self@[i as int].key == key);
                    let w = self.idx_of(key);
                    assert(self@[w].key == key);
                    assert(w == i);
                }
                let voters = &self.entries[i].voters;
                let mut r: Vec<u32> = Vec::new();
                let mut k: usize = 0;
                while k < voters.len()
                    invariant
                        k <= voters@.len(),
                        r@ == voters@.take(k as int),
                    decreases voters@.len() - k,
                {
                    r.push(voters[k]);
                    proof {
                        assert(r@ =~= voters@.take(k + 1));
                    }
                    k = k + 1;
                }
                proof {
                    assert(r@ =~= voters@);
                }
                return r;
            }
            i = i + 1;
        }
        proof {
            if book_has_key(self@, key) {
                let w = self.idx_of(key);
                assert(self@[w].key == key);
                assert(false);
            }
        }
        Vec::new()
    }

    /// Record `voter` under `key`, deduplicating. Returns whether the vote
    /// was new; a repeated vote leaves the book untouched.
    pub fn insert(&mut self, key: u32, voter: u32) -> (added: bool)
        requires
            old(self).wf(),
        ensures
            final(self).wf(),
            added <==> !old(self).voters_of(key).contains(voter),
            !added ==> *final(self) == *old(self),
            added ==> final(self).voters_of(key) == old(self).voters_of(key).push(voter),
            final(self).voters_of(key).contains(voter),
            forall|k: u32| k != key ==> #[trigger] final(self).voters_of(k) == old(
                self,
            ).voters_of(k),
    {
        let mut i: usize = 0;
        let n = self.entries.len();
        while i < n
            invariant
                i <= n,
                n == self.entries@.len(),
                old(self).wf(),
                *self == *old(self),
                forall|j: int| 0 <= j < i ==> self@[j].key != key,
            decreases n - i,
        {
            if self.entries[i].key == key {
                proof {
                    assert(self@[i as int].key == key);
                    assert(book_has_key(old(self)@, key));
                    let w = old(self).idx_of(key);
                    assert(old(self)@[w].key == key);
                    assert(w == i);
                }
                let ghost old_voters = self@[i as int].voters;
                let mut k: usize = 0;
                let m = self.entries[i].voters.len();
                while k < m && self.entries[i].voters[k] != voter
                    invariant
                        k <= m,
                        i < self.entries@.len(),
                        *self == *old(self),
                        m == self@[i as int].voters.len(),
                        old_voters == self@[i as int].voters,
                        forall|j: int| 0 <= j < k ==> old_voters[j] != voter,
                    decreases m - k,
                {
                    k = k + 1;
                }
                if k < m {
                    // already voted
                    proof {
                        assert(old_voters[k as int] == voter);
                        assert(old_voters.contains(voter));
                        assert(old(self).voters_of(key) == old_voters);
                    }
                    return false;
                }
                proof {
                    assert(!old_voters.contains(voter));
                    assert(old(self).voters_of(key) == old_voters);
                }
                let ghost prev = self@;
                self.entries[i].voters.push(voter);
                proof {
                    let newv = old_voters.push(voter);
                    assert(self.entries@[i as int].voters@ == newv);
                    assert(self.entries@[i as int].key == key);
                    assert(forall|j: int|
                        0 <= j < prev.len() && j != i ==> self.entries@[j]
                            == old(self).entries@[j]);
                    assert(self@ =~= prev.update(
                        i as int,
                        VoteEntryView { key, voters: newv },
                    ));
                    assert(newv[old_voters.len() as int] == voter);
                    assert(newv.contains(voter));
                    assert forall|p: int, q: int|
                        0 <= p < q < newv.len() implies newv[p] != newv[q] by {
                        if q == old_voters.len() {
                            assert(newv[q] == voter);
                            assert(old_voters[p] != voter);
                        }
                    };
                    assert(final(self).wf());
                    assert(self@[i as int].key == key);
                    assert(book_has_key(self@, key));
                    let w = self.idx_of(key);
                    assert(self@[w].key == key);
                    assert(w == i);
                    assert(final(self).voters_of(key) == newv);
                    lemma_book_frame_update(*old(self), *self, key, i as int);
                }
                return true;
            }
            i = i + 1;
        }
        // first vote under this key
        proof {
            assert(!book_has_key(old(self)@, key));
            assert(old(self).voters_of(key) == Seq::<u32>::empty());
        }
        let ghost prev = self@;
        let mut voters: Vec<u32> = Vec::new();
        voters.push(voter);
        self.entries.push(VoteEntry { key, voters });
        proof {
            let n0 = prev.len() as int;
            assert(self@ =~= prev.push(VoteEntryView { key, voters: seq![voter] }));
            assert(self@[n0].key == key);
            assert(book_has_key(self@, key));
            let w = self.idx_of(key);
            assert(self@[w].key == key);
            assert forall|j: int| 0 <= j < n0 implies self@[j].key != key by {
                assert(prev[j].key != key);
            };
            assert(w == n0);
            assert(final(self).voters_of(key) =~= Seq::<u32>::empty().push(voter));
            assert(final(self).voters_of(key)[0] == voter);
            assert(final(self).voters_of(key).contains(voter));
            assert(final(self).wf());
            lemma_book_frame_push(*old(self), *self, key);
        }
        true
    }
}

/// In a well-formed book no voter is recorded twice under one key.
pub proof fn lemma_voters_distinct(b: VoteBook, key: u32)
    requires
        b.wf(),
    ensures
        forall|p: int, q: int|
            0 <= p < q < b.voters_of(key).len() ==> b.voters_of(key)[p] != b.voters_of(key)[q],
{
    if book_has_key(b@, key) {
        let w = b.idx_of(key);
        assert(b@[w].key == key);
        assert(b.voters_of(key) == b@[w].voters);
    }
}

/// After updating one key's entry, every other key reads as before.
proof fn lemma_book_frame_update(a: VoteBook, b: VoteBook, key: u32, i: int)
    requires
        a.wf(),
        b.wf(),
        0 <= i < a@.len(),
        b@.len() == a@.len(),
        a@[i].key == key,
        b@[i].key == key,
        forall|j: int| 0 <= j < a@.len() && j != i ==> b@[j] == a@[j],
    ensures
        forall|k: u32| k != key ==> #[trigger] b.voters_of(k) == a.voters_of(k),
{
    assert forall|k: u32| k != key implies #[trigger] b.voters_of(k) == a.voters_of(k) by {
        if book_has_key(a@, k) {
            let wa = a.idx_of(k);
            assert(a@[wa].key == k);
            assert(wa != i);
            assert(b@[wa].key == k);
            let wb = b.idx_of(k);
            assert(b@[wb].key == k);
            assert(wb == wa);
        } else {
            if book_has_key(b@, k) {
                let wb = choose|w: int| 0 <= w < b@.len() && b@[w].key == k;
                assert(wb != i);
                assert(a@[wb].key == k);
                assert(false);
            }
        }
    };
}

/// After appending a fresh key's entry, every other key reads as before.
proof fn lemma_book_frame_push(a: VoteBook, b: VoteBook, key: u32)
    requires
        a.wf(),
        b.wf(),
        b@.len() == a@.len() + 1,
        b@[a@.len() as int].key == key,
        forall|j: int| 0 <= j < a@.len() ==> b@[j] == a@[j],
    ensures
        forall|k: u32| k != key ==> #[trigger] b.voters_of(k) == a.voters_of(k),
{
    let n = a@.len() as int;
    assert forall|k: u32| k != key implies #[trigger] b.voters_of(k) == a.voters_of(k) by {
        if book_has_key(a@, k) {
            let wa = a.idx_of(k);
            assert(a@[wa].key == k);
            assert(b@[wa].key == k);
            let wb = b.idx_of(k);
            assert(b@[wb].key == k);
            assert(wb < n);
            assert(a@[wb].key == k);
            assert(wb == wa);
        } else {
            if book_has_key(b@, k) {
                let wb = choose|w: int| 0 <= w < b@.len() && b@[w].key == k;
                assert(wb != n);
                assert(a@[wb].key == k);
                assert(false);
            }
        }
    };
}

} // verus!
