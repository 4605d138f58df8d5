use vstd::prelude::*;
use crate::message::{Message, MessageView};

verus! {

/// Saturating addition on times: a schedule never wraps around.
pub open spec fn sat_add(a: u64, b: u64) -> u64 {
    if a + b <= u64::MAX {
        (a + b) as u64
    } else {
        u64::MAX
    }
}

/// Compute `sat_add`.
pub fn sat_add_exec(a: u64, b: u64) -> (r: u64)
    ensures
        r == sat_add(a, b),
{
    if a <= u64::MAX - b {
        a + b
    } else {
        u64::MAX
    }
}

/// One directed edge of the simulated network: a FIFO queue of messages,
/// each stamped with its scheduled arrival time, delayed by a fixed latency.
#[derive(Debug)]
pub struct NetworkConnection {
    pub latency: u64,
    pub messages: Vec<(u64, Message)>,
}

/// The model of a queue: scheduled arrival times paired with message models.
pub open spec fn queue_view(s: Seq<(u64, Message)>) -> Seq<(u64, MessageView)> {
    s.map_values(|p: (u64, Message)| (p.0, p.1@))
}

impl View for NetworkConnection {
    type V = Seq<(u64, MessageView)>;

    open spec fn view(&self) -> Seq<(u64, MessageView)> {
        queue_view(self.messages@)
    }
}

impl NetworkConnection {
    pub fn new(latency: u64) -> (r: Self)
        ensures
            r.latency == latency,
            r@ == Seq::<(u64, MessageView)>::empty(),
    {
        let r = Self { latency, messages: Vec::new() };
        proof {
            assert(r@ =~= Seq::<(u64, MessageView)>::empty());
        }
        r
    }

    /// Enqueue a message sent at `at_time`, to arrive after this edge's
    /// latency.
    pub fn push_message(&mut self, message: Message, at_time: u64)
        ensures
            final(self)@ == old(self)@.push((sat_add(at_time, old(self).latency), message@)),
            final(self).latency == old(self).latency,
    {
        let ghost mv = message@;
        let arrival = sat_add_exec(at_time, self.latency);
        self.messages.push((arrival, message));
        proof {
            assert(final(self)@ =~= old(self)@.push((sat_add(at_time, old(self).latency), mv)));
        }
    }

    /// The next scheduled delivery, if any.
    pub fn peek(&self) -> (r: Option<&(u64, Message)>)
        ensures
            r is Some <==> self@.len() > 0,
            r matches Some(p) ==> p.0 == self@[0].0 && p.1@ == self@[0].1,
    {
        if self.messages.len() > 0 {
            Some(&self.messages[0])
        } else {
            None
        }
    }

    /// Dequeue, in order, every message whose scheduled arrival is not after
    /// `now`; the queue keeps the rest.
    pub fn drain_ready(&mut self, now: u64) -> (out: Vec<Message>)
        ensures
            out@.len() <= old(self)@.len(),
            final(self)@ == old(self)@.skip(out@.len() as int),
            final(self).latency == old(self).latency,
            forall|j: int| 0 <= j < out@.len() ==> #[trigger] old(self)@[j].0 <= now,
            forall|j: int| 0 <= j < out@.len() ==> #[trigger] out@[j]@ == old(self)@[j].1,
            final(self)@.len() > 0 ==> final(self)@[0].0 > now,
    {
        let mut out: Vec<Message> = Vec::new();
        let mut k: usize = 0;
        let n = self.messages.len();
        while k < n && self.messages[k].0 <= now
            invariant
                k <= n,
                n == self.messages@.len(),
                *self == *old(self),
                out@.len() == k,
                forall|j: int| 0 <= j < k ==> #[trigger] old(self)@[j].0 <= now,
                forall|j: int| 0 <= j < k ==> #[trigger] out@[j]@ == old(self)@[j].1,
            decreases n - k,
        {
            let m = self.messages[k].1.clone();
            out.push(m);
            k = k + 1;
        }
        let ghost prev = self.messages@;
        // drop the delivered prefix
        let mut rest: Vec<(u64, Message)> = Vec::new();
        let mut i: usize = k;
        while i < self.messages.len()
            invariant
                k <= i <= self.messages@.len(),
                *self == *old(self),
                prev == self.messages@,
                rest@.len() == i - k,
                forall|j: int|
                    0 <= j < i - k ==> (#[trigger] rest@[j].0) == prev[j + k].0 && rest@[j].1@
                        == prev[j + k].1@,
            decreases self.messages@.len() - i,
        {
            let t = self.messages[i].0;
            let m = self.messages[i].1.clone();
            rest.push((t, m));
            i = i + 1;
        }
        self.messages = rest;
        proof {
            assert(final(self)@ =~= queue_view(prev).skip(k as int));
        }
        out
    }
}

} // verus!
