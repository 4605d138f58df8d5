use vstd::prelude::*;
use crate::transaction::Shard;

verus! {

/// The quorum threshold of a committee of `n` members: `n - floor((n-1)/3)`.
pub open spec fn quorum(n: int) -> int {
    n - ((n - 1) / 3)
}

/// Compute the quorum threshold of a committee of `n` members.
pub fn quorum_size(n: usize) -> (q: usize)
    requires
        n >= 1,
    ensures
        q == quorum(n as int),
        1 <= q <= n,
{
    n - ((n - 1) / 3)
}

/// One shard's committee: the sorted list of its validator ids.
#[derive(Debug)]
pub struct CommitteeEntry {
    pub shard: Shard,
    pub members: Vec<u32>,
}

/// A sequence of ids in strictly increasing order.
pub open spec fn strictly_sorted(s: Seq<u32>) -> bool {
    forall|i: int, j: int| 0 <= i < j < s.len() ==> s[i] < s[j]
}

/// The registry mapping each shard to its committee.
#[derive(Debug)]
pub struct CommitteeManagerInner {
    pub committees: Vec<CommitteeEntry>,
}

impl CommitteeManagerInner {
    /// Every shard appears at most once; every committee is strictly sorted.
    pub open spec fn wf(self) -> bool {
        &&& forall|i: int, j: int|
            0 <= i < j < self.committees@.len() ==> self.committees@[i].shard
                != self.committees@[j].shard
        &&& forall|i: int|
            0 <= i < self.committees@.len() ==> strictly_sorted(
                #[trigger] self.committees@[i].members@,
            )
    }

    pub open spec fn has_shard(self, shard: Shard) -> bool {
        exists|i: int| 0 <= i < self.committees@.len() && self.committees@[i].shard == shard
    }

    pub open spec fn shard_index(self, shard: Shard) -> int {
        choose|i: int| 0 <= i < self.committees@.len() && self.committees@[i].shard == shard
    }

    /// The committee registered for `shard` (empty if none).
    pub open spec fn members_of(self, shard: Shard) -> Seq<u32> {
        if self.has_shard(shard) {
            self.committees@[self.shard_index(shard)].members@
        } else {
            Seq::<u32>::empty()
        }
    }

    /// A shard with a non-empty committee.
    pub open spec fn has_committee(self, shard: Shard) -> bool {
        self.has_shard(shard) && self.members_of(shard).len() > 0
    }

    pub fn get_committee(&self, shard: Shard) -> (r: Vec<u32>)
        requires
            self.wf(),
            self.has_shard(shard),
        ensures
            r@ == self.members_of(shard),
    {
        let mut i: usize = 0;
        while i < self.committees.len()
            invariant
                i <= self.committees@.len(),
                self.wf(),
                self.has_shard(shard),
                forall|j: int| 0 <= j < i ==> self.committees@[j].shard != shard,
            decreases self.committees@.len() - i,
        {
            if self.committees[i].shard == shard {
                proof {
                    let w = self.shard_index(shard);
                    assert(self.committees@[w].shard == shard);
                    assert(w == i);
                }
                let members = &self.committees[i].members;
                let mut r: Vec<u32> = Vec::new();
                let mut k: usize = 0;
                while k < members.len()
                    invariant
                        k <= members@.len(),
                        r@ == members@.take(k as int),
                    decreases members@.len() - k,
                {
                    r.push(members[k]);
                    proof {
                        assert(r@ =~= members@.take(k + 1));
                    }
                    k = k + 1;
                }
                proof {
                    assert(r@ =~= members@);
                }
                return r;
            }
            i = i + 1;
        }
        proof {
            let w = self.shard_index(shard);
            assert(self.committees@[w].shard == shard);
            assert(false);
        }
        Vec::new()
    }
}

/// The leader that follows `current_leader` in the committee: the next
/// member in sorted order, wrapping around; the first member when the
/// current leader is the genesis author or not a member.
pub open spec fn next_leader_spec(members: Seq<u32>, current_leader: u32) -> u32
    recommends
        members.len() > 0,
{
    if current_leader == 0 || !members.contains(current_leader) {
        members[0]
    } else {
        members[(members.index_of(current_leader) + 1) % (members.len() as int)]
    }
}

/// The shard registry handed to every validator. Committees are fixed after
/// setup, so each validator keeps its own copy.
#[derive(Debug)]
pub struct CommitteeManager {
    pub inner: CommitteeManagerInner,
}

impl CommitteeManager {
    pub open spec fn wf(self) -> bool {
        self.inner.wf()
    }

    pub open spec fn has_shard(self, shard: Shard) -> bool {
        self.inner.has_shard(shard)
    }

    pub open spec fn members_of(self, shard: Shard) -> Seq<u32> {
        self.inner.members_of(shard)
    }

    pub open spec fn has_committee(self, shard: Shard) -> bool {
        self.inner.has_committee(shard)
    }

    pub fn new() -> (r: Self)
        ensures
            r.wf(),
            forall|s: Shard| !r.has_shard(s),
    {
        Self { inner: CommitteeManagerInner { committees: Vec::new() } }
    }

    /// Register `id` as a member of `shard`'s committee, keeping the
    /// committee sorted. Registering a member twice is a no-op.
    pub fn add_validator(&mut self, shard: Shard, id: u32)
        requires
            old(self).wf(),
        ensures
            final(self).wf(),
            final(self).has_committee(shard),
            forall|x: u32| #[trigger]
                final(self).members_of(shard).contains(x) <==> old(self).members_of(
                    shard,
                ).contains(x) || x == id,
            forall|s: Shard|
                s != shard ==> #[trigger] final(self).members_of(s) == old(self).members_of(s),
            forall|s: Shard|
                s != shard ==> (#[trigger] final(self).has_shard(s) <==> old(self).has_shard(s)),
    {
        let n = self.inner.committees.len();
        let mut i: usize = 0;
        while i < n
            invariant
                i <= n,
                n == self.inner.committees@.len(),
                old(self).wf(),
                *self == *old(self),
                forall|j: int| 0 <= j < i ==> self.inner.committees@[j].shard != shard,
            decreases n - i,
        {
            if self.inner.committees[i].shard == shard {
                proof {
                    assert(old(self).has_shard(shard));
                    let w = old(self).inner.shard_index(shard);
                    assert(old(self).inner.committees@[w].shard == shard);
                    assert(w == i);
                }
                let ghost prev = self.inner.committees@;
                let ghost old_members = self.inner.committees@[i as int].members@;
                // find the sorted position for `id`
                let mut k: usize = 0;
                let m = self.inner.committees[i].members.len();
                while k < m && self.inner.committees[i].members[k] < id
                    invariant
                        k <= m,
                        i < self.inner.committees@.len(),
                        old(self).wf(),
                        *self == *old(self),
                        m == self.inner.committees@[i as int].members@.len(),
                        old_members == self.inner.committees@[i as int].members@,
                        forall|j: int| 0 <= j < k ==> old_members[j] < id,
                    decreases m - k,
                {
                    k = k + 1;
                }
                if k < m && self.inner.committees[i].members[k] == id {
                    // already a member: nothing to change
                    proof {
                        assert(old_members[k as int] == id);
                        assert(old_members.contains(id));
                        assert(old(self).inner.members_of(shard) == old_members);
                    }
                    return;
                }
                proof {
                    assert(k < m ==> old_members[k as int] > id);
                }
                self.inner.committees[i].members.insert(k, id);
                proof {
                    let newm = old_members.insert(k as int, id);
                    assert(self.inner.committees@[i as int].members@ == newm);
                    assert(self.inner.committees@[i as int].shard == shard);
                    assert(forall|j: int|
                        0 <= j < prev.len() && j != i ==> self.inner.committees@[j] == prev[j]);
                    assert(strictly_sorted(newm)) by {
                        assert(forall|j: int| 0 <= j < k ==> newm[j] == old_members[j]);
                        assert(newm[k as int] == id);
                        assert(forall|j: int|
                            k < j < newm.len() ==> newm[j] == old_members[j - 1]);
                    };
                    assert(final(self).wf());
                    assert(self.inner.has_shard(shard));
                    let w = self.inner.shard_index(shard);
                    assert(self.inner.committees@[w].shard == shard);
                    assert(w == i);
                    assert(self.inner.members_of(shard) == newm);
                    assert forall|x: u32| #[trigger]
                        newm.contains(x) implies (old_members.contains(x) || x == id) by {
                        let wx = choose|wx: int| 0 <= wx < newm.len() && newm[wx] == x;
                        if wx < k {
                            assert(old_members[wx] == x);
                        } else if wx > k {
                            assert(old_members[wx - 1] == x);
                        }
                    };
                    assert forall|x: u32| old_members.contains(x) implies #[trigger]
                        newm.contains(x) by {
                        let wx = choose|wx: int|
                            0 <= wx < old_members.len() && old_members[wx] == x;
                        if wx < k {
                            assert(newm[wx] == x);
                        } else {
                            assert(newm[wx + 1] == x);
                        }
                    };
                    assert(newm[k as int] == id);
                    assert(newm.contains(id));
                    lemma_members_frame_update(*old(self), *self, shard, i as int);
                }
                return;
            }
            i = i + 1;
        }
        // shard not present: append a fresh committee of one
        let ghost prev = self.inner.committees@;
        let mut members: Vec<u32> = Vec::new();
        members.push(id);
        self.inner.committees.push(CommitteeEntry { shard, members });
        proof {
            let n0 = prev.len() as int;
            assert(self.inner.committees@[n0].shard == shard);
            assert(forall|j: int| 0 <= j < n0 ==> self.inner.committees@[j] == prev[j]);
            assert(!old(self).has_shard(shard));
            let w = self.inner.shard_index(shard);
            assert(self.inner.committees@[w].shard == shard);
            assert(w == n0);
            assert(self.inner.members_of(shard) =~= seq![id]);
            assert(old(self).inner.members_of(shard) == Seq::<u32>::empty());
            assert(seq![id][0] == id);
            assert(self.inner.members_of(shard).contains(id));
            assert forall|x: u32| #[trigger]
                self.inner.members_of(shard).contains(x) implies x == id by {
                let wx = choose|wx: int|
                    0 <= wx < self.inner.members_of(shard).len() && self.inner.members_of(
                        shard,
                    )[wx] == x;
                assert(wx == 0);
            };
            assert(strictly_sorted(seq![id]));
            assert(final(self).wf());
            assert forall|s: Shard| s != shard implies #[trigger] self.inner.has_shard(s)
                == old(self).inner.has_shard(s) by {
                if self.inner.has_shard(s) {
                    let ws = choose|ws: int|
                        0 <= ws < self.inner.committees@.len() && self.inner.committees@[ws].shard
                            == s;
                    assert(ws < n0);
                    assert(prev[ws].shard == s);
                }
                if old(self).inner.has_shard(s) {
                    let ws = old(self).inner.shard_index(s);
                    assert(self.inner.committees@[ws].shard == s);
                }
            };
            assert forall|s: Shard| s != shard implies #[trigger] self.inner.members_of(s)
                == old(self).inner.members_of(s) by {
                if self.inner.has_shard(s) {
                    let wn = self.inner.shard_index(s);
                    let wo = old(self).inner.shard_index(s);
                    assert(self.inner.committees@[wn].shard == s);
                    assert(wn < n0);
                    assert(old(self).inner.committees@[wo].shard == s);
                    assert(wn == wo);
                }
            };
        }
    }

    pub fn get_committee(&self, shard: Shard) -> (r: Vec<u32>)
        requires
            self.wf(),
            self.has_shard(shard),
        ensures
            r@ == self.members_of(shard),
    {
        self.inner.get_committee(shard)
    }

    /// Whether any committee is registered for `shard`.
    pub fn contains_shard(&self, shard: Shard) -> (r: bool)
        ensures
            r == self.has_shard(shard),
    {
        let mut i: usize = 0;
        while i < self.inner.committees.len()
            invariant
                i <= self.inner.committees@.len(),
                forall|j: int| 0 <= j < i ==> self.inner.committees@[j].shard != shard,
            decreases self.inner.committees@.len() - i,
        {
            if self.inner.committees[i].shard == shard {
                return true;
            }
            i = i + 1;
        }
        false
    }

    /// The number of members of `shard`'s committee.
    pub fn committee_size(&self, shard: Shard) -> (r: usize)
        requires
            self.wf(),
            self.has_shard(shard),
        ensures
            r == self.members_of(shard).len(),
    {
        let committee = self.inner.get_committee(shard);
        committee.len()
    }

    /// The committee member whose turn follows `current_leader`'s.
    pub fn next_leader(&self, shard: Shard, current_leader: u32) -> (r: u32)
        requires
            self.wf(),
            self.has_committee(shard),
        ensures
            r == next_leader_spec(self.members_of(shard), current_leader),
            self.members_of(shard).contains(r),
    {
        let committee = self.inner.get_committee(shard);
        let ghost members = self.members_of(shard);
        if current_leader == 0 {
            proof {
                assert(members.contains(members[0]));
            }
            return committee[0];
        }
        let n = committee.len();
        let mut i: usize = 0;
        while i < n && committee[i] != current_leader
            invariant
                i <= n,
                n == members.len(),
                committee@ == members,
                forall|j: int| 0 <= j < i ==> members[j] != current_leader,
            decreases n - i,
        {
            i = i + 1;
        }
        if i == n {
            // not a member: start from the first
            proof {
                assert(!members.contains(current_leader));
                assert(members.contains(members[0]));
            }
            committee[0]
        } else {
            proof {
                assert(members[i as int] == current_leader);
                assert(members.contains(current_leader));
                let w = members.index_of(current_leader);
                assert(members[w] == current_leader);
                assert(strictly_sorted(members));
                assert(w == i);
                assert(members.contains(members[(w + 1) % (members.len() as int)]));
            }
            let next_index = (i + 1) % n;
            committee[next_index]
        }
    }
}

impl Clone for CommitteeManager {
    /// A copy that registers exactly the same committees.
    fn clone(&self) -> (r: Self)
        ensures
            self.wf() ==> r.wf(),
            forall|s: Shard| #[trigger] r.has_shard(s) <==> self.has_shard(s),
            self.wf() ==> forall|s: Shard| #[trigger] r.members_of(s) == self.members_of(s),
    {
        let mut committees: Vec<CommitteeEntry> = Vec::new();
        let mut i: usize = 0;
        while i < self.inner.committees.len()
            invariant
                i <= self.inner.committees@.len(),
                committees@.len() == i,
                forall|j: int|
                    0 <= j < i ==> (#[trigger] committees@[j]).shard
                        == self.inner.committees@[j].shard && committees@[j].members@
                        == self.inner.committees@[j].members@,
            decreases self.inner.committees@.len() - i,
        {
            let entry = &self.inner.committees[i];
            let mut members: Vec<u32> = Vec::new();
            let mut k: usize = 0;
            while k < entry.members.len()
                invariant
                    k <= entry.members@.len(),
                    members@ == entry.members@.take(k as int),
                decreases entry.members@.len() - k,
            {
                members.push(entry.members[k]);
                proof {
                    assert(members@ =~= entry.members@.take(k + 1));
                }
                k = k + 1;
            }
            proof {
                assert(members@ =~= entry.members@);
            }
            committees.push(CommitteeEntry { shard: entry.shard, members });
            i = i + 1;
        }
        let r = CommitteeManager { inner: CommitteeManagerInner { committees } };
        proof {
            lemma_same_registry(*self, r);
        }
        r
    }
}

/// Two registries whose entries agree shard for shard register the same
/// committees.
proof fn lemma_same_registry(a: CommitteeManager, b: CommitteeManager)
    requires
        b.inner.committees@.len() == a.inner.committees@.len(),
        forall|j: int|
            0 <= j < a.inner.committees@.len() ==> (#[trigger] b.inner.committees@[j]).shard
                == a.inner.committees@[j].shard && b.inner.committees@[j].members@
                == a.inner.committees@[j].members@,
    ensures
        a.wf() ==> b.wf(),
        forall|s: Shard| #[trigger] b.has_shard(s) <==> a.has_shard(s),
        a.wf() ==> forall|s: Shard| #[trigger] b.members_of(s) == a.members_of(s),
{
    assert forall|s: Shard| #[trigger] b.has_shard(s) <==> a.has_shard(s) by {
        if b.inner.has_shard(s) {
            let w = b.inner.shard_index(s);
            assert(b.inner.committees@[w].shard == s);
            assert(a.inner.committees@[w].shard == s);
        }
        if a.inner.has_shard(s) {
            let w = a.inner.shard_index(s);
            assert(a.inner.committees@[w].shard == s);
            assert(b.inner.committees@[w].shard == s);
        }
    };
    if a.wf() {
        assert forall|s: Shard| #[trigger] b.members_of(s) == a.members_of(s) by {
            if a.inner.has_shard(s) {
                let wa = a.inner.shard_index(s);
                assert(a.inner.committees@[wa].shard == s);
                assert(b.inner.committees@[wa].shard == s);
                assert(b.inner.has_shard(s));
                let wb = b.inner.shard_index(s);
                assert(b.inner.committees@[wb].shard == s);
                assert(a.inner.committees@[wb].shard == s);
                assert(wb == wa);
                assert(b.inner.members_of(s) == b.inner.committees@[wb].members@);
                assert(a.inner.members_of(s) == a.inner.committees@[wa].members@);
                assert(a.inner.committees@[wb].members@ == b.inner.committees@[wb].members@);
            }
        };
    }
}

/// Updating the entry of one shard leaves every other shard's committee as
/// it was.
proof fn lemma_members_frame_update(
    a: CommitteeManager,
    b: CommitteeManager,
    shard: Shard,
    i: int,
)
    requires
        a.wf(),
        b.wf(),
        0 <= i < a.inner.committees@.len(),
        b.inner.committees@.len() == a.inner.committees@.len(),
        b.inner.committees@[i].shard == shard,
        a.inner.committees@[i].shard == shard,
        forall|j: int|
            0 <= j < a.inner.committees@.len() && j != i ==> b.inner.committees@[j]
                == a.inner.committees@[j],
    ensures
        forall|s: Shard| s != shard ==> #[trigger] b.members_of(s) == a.members_of(s),
        forall|s: Shard| s != shard ==> (#[trigger] b.has_shard(s) <==> a.has_shard(s)),
{
    assert forall|s: Shard| s != shard implies (#[trigger] b.has_shard(s) <==> a.has_shard(
        s,
    )) by {
        if b.inner.has_shard(s) {
            let w = b.inner.shard_index(s);
            assert(b.inner.committees@[w].shard == s);
            assert(w != i);
            assert(a.inner.committees@[w].shard == s);
        }
        if a.inner.has_shard(s) {
            let w = a.inner.shard_index(s);
            assert(a.inner.committees@[w].shard == s);
            assert(w != i);
            assert(b.inner.committees@[w].shard == s);
        }
    };
    assert forall|s: Shard| s != shard implies #[trigger] b.members_of(s) == a.members_of(s) by {
        if a.inner.has_shard(s) {
            let wa = a.inner.shard_index(s);
            let wb = b.inner.shard_index(s);
            assert(a.inner.committees@[wa].shard == s);
            assert(b.inner.committees@[wb].shard == s);
            assert(wa != i);
            assert(wb != i);
            assert(b.inner.committees@[wa].shard == s);
            assert(wb == wa);
        }
    };
}

} // verus!
