use vstd::prelude::*;
use crate::message::{Message, MessageView, message_view_id};
use crate::network_connection::{NetworkConnection, sat_add};
use crate::rng::sample_latency;
use crate::subscriber::Subscriber;

verus! {

/// One directed edge of the network, between two node ids.
#[derive(Debug)]
pub struct NetworkEdge {
    pub from: u32,
    pub to: u32,
    pub conn: NetworkConnection,
}

/// The simulated network: point-to-point queues with a fixed per-edge
/// latency, drained by scheduled arrival time.
#[derive(Debug)]
pub struct Network {
    pub edges: Vec<NetworkEdge>,
    pub subscriber: Subscriber,
}

/// `q1` is what remains of queue `q0` after delivering, in order, a prefix
/// of messages all scheduled at or before `now`.
pub open spec fn drained_to(q0: Seq<(u64, MessageView)>, q1: Seq<(u64, MessageView)>, now: u64) -> bool {
    exists|k: int|
        0 <= k <= q0.len() && q1 == q0.skip(k) && (forall|p: int|
            0 <= p < k ==> (#[trigger] q0[p].0) <= now)
}

/// `(to, m)` was scheduled at or before `now` on some edge of `edges0`
/// toward `to`.
pub open spec fn origin_of(edges0: Seq<NetworkEdge>, to: u32, m: MessageView, now: u64) -> bool {
    exists|j: int, p: int|
        0 <= j < edges0.len() && edges0[j].to == to && 0 <= p < edges0[j].conn@.len()
            && edges0[j].conn@[p].1 == m && edges0[j].conn@[p].0 <= now
}

/// The whole ripe prefix of queue `q0` (every message scheduled at or
/// before `now`, up to the first unripe one) stands in `out` as one
/// contiguous block, in queue order, addressed to `to`; `q1` is what
/// remains.
/// The `k` entries of `out` from `base` on are the first `k` entries of
/// queue `q0`, addressed to `to`.
pub open spec fn flush_block_at(
    out: Seq<(u32, Message)>,
    base: int,
    k: int,
    to: u32,
    q0: Seq<(u64, MessageView)>,
) -> bool {
    forall|p: int|
        0 <= p < k ==> (#[trigger] out[base + p]).0 == to && out[base + p].1@ == q0[p].1
}

pub open spec fn edge_flushed(
    q0: Seq<(u64, MessageView)>,
    q1: Seq<(u64, MessageView)>,
    to: u32,
    out: Seq<(u32, Message)>,
    now: u64,
) -> bool {
    exists|k: int, base: int|
        {
            &&& 0 <= k <= q0.len()
            &&& q1 == q0.skip(k)
            &&& (forall|p: int| 0 <= p < k ==> (#[trigger] q0[p].0) <= now)
            &&& 0 <= base
            &&& base + k <= out.len()
            &&& #[trigger] flush_block_at(out, base, k, to, q0)
        }
}

/// Exhibit the witnesses that an edge was flushed.
proof fn lemma_edge_flushed(
    q0: Seq<(u64, MessageView)>,
    q1: Seq<(u64, MessageView)>,
    to: u32,
    out: Seq<(u32, Message)>,
    now: u64,
    k0: int,
    base0: int,
)
    requires
        0 <= k0 <= q0.len(),
        q1 == q0.skip(k0),
        forall|p: int| 0 <= p < k0 ==> (#[trigger] q0[p].0) <= now,
        0 <= base0,
        base0 + k0 <= out.len(),
        flush_block_at(out, base0, k0, to, q0),
    ensures
        edge_flushed(q0, q1, to, out, now),
{
}

/// A flushed edge stays flushed as the result grows.
proof fn lemma_edge_flushed_grow(
    q0: Seq<(u64, MessageView)>,
    q1: Seq<(u64, MessageView)>,
    to: u32,
    out_pre: Seq<(u32, Message)>,
    out: Seq<(u32, Message)>,
    now: u64,
)
    requires
        edge_flushed(q0, q1, to, out_pre, now),
        out_pre.len() <= out.len(),
        forall|w: int| 0 <= w < out_pre.len() ==> out[w] == out_pre[w],
    ensures
        edge_flushed(q0, q1, to, out, now),
{
    let (k0, base0) = choose|k: int, base: int|
        {
            &&& 0 <= k <= q0.len()
            &&& q1 == q0.skip(k)
            &&& (forall|p: int| 0 <= p < k ==> (#[trigger] q0[p].0) <= now)
            &&& 0 <= base
            &&& base + k <= out_pre.len()
            &&& #[trigger] flush_block_at(out_pre, base, k, to, q0)
        };
    assert forall|p: int|
        0 <= p < k0 implies (#[trigger] out[base0 + p]).0 == to && out[base0 + p].1@
        == q0[p].1 by {
        assert(out[base0 + p] == out_pre[base0 + p]);
        assert(out_pre[base0 + p].0 == to && out_pre[base0 + p].1@ == q0[p].1);
    };
    assert(flush_block_at(out, base0, k0, to, q0));
    lemma_edge_flushed(q0, q1, to, out, now, k0, base0);
}

/// Exhibit the witness that `q0.skip(k0)` is a drain of `q0`.
proof fn lemma_drained_to(q0: Seq<(u64, MessageView)>, k0: int, now: u64)
    requires
        0 <= k0 <= q0.len(),
        forall|p: int| 0 <= p < k0 ==> (#[trigger] q0[p].0) <= now,
    ensures
        drained_to(q0, q0.skip(k0), now),
{
    assert(q0.skip(k0) == q0.skip(k0));
}

/// Exhibit the witness that a scheduled message is an origin.
proof fn lemma_origin_of(edges0: Seq<NetworkEdge>, j: int, p: int, now: u64)
    requires
        0 <= j < edges0.len(),
        0 <= p < edges0[j].conn@.len(),
        edges0[j].conn@[p].0 <= now,
    ensures
        origin_of(edges0, edges0[j].to, edges0[j].conn@[p].1, now),
{
}

impl Network {
    /// Each ordered pair of nodes has at most one edge.
    pub open spec fn wf(self) -> bool {
        &&& forall|i: int, j: int|
            0 <= i < j < self.edges@.len() ==> !(self.edges@[i].from == self.edges@[j].from
                && self.edges@[i].to == self.edges@[j].to)
        &&& self.subscriber.wf()
    }

    pub open spec fn has_edge(self, from: u32, to: u32) -> bool {
        exists|i: int|
            0 <= i < self.edges@.len() && self.edges@[i].from == from && self.edges@[i].to == to
    }

    pub open spec fn edge_idx(self, from: u32, to: u32) -> int {
        choose|i: int|
            0 <= i < self.edges@.len() && self.edges@[i].from == from && self.edges@[i].to == to
    }

    /// The latency of the edge `from -> to`.
    pub open spec fn latency_of(self, from: u32, to: u32) -> u64 {
        self.edges@[self.edge_idx(from, to)].conn.latency
    }

    /// The queue of the edge `from -> to`.
    pub open spec fn queue_of(self, from: u32, to: u32) -> Seq<(u64, MessageView)> {
        self.edges@[self.edge_idx(from, to)].conn@
    }

    pub fn new(subscriber: Subscriber) -> (r: Self)
        requires
            subscriber.wf(),
        ensures
            r.wf(),
            forall|f: u32, t: u32| !r.has_edge(f, t),
            r.subscriber == subscriber,
    {
        Self { edges: Vec::new(), subscriber }
    }

    /// Install the edge `from -> to` with the given latency and an empty
    /// queue, replacing any earlier edge.
    fn upsert_edge(&mut self, from: u32, to: u32, latency: u64)
        requires
            old(self).wf(),
        ensures
            final(self).wf(),
            final(self).has_edge(from, to),
            final(self).latency_of(from, to) == latency,
            final(self).queue_of(from, to) == Seq::<(u64, MessageView)>::empty(),
            forall|f: u32, t: u32|
                !(f == from && t == to) ==> (#[trigger] final(self).has_edge(f, t) <==> old(self).has_edge(f, t)),
            forall|f: u32, t: u32|
                !(f == from && t == to) && old(self).has_edge(f, t) ==> #[trigger] final(self).queue_of(f, t) == old(self).queue_of(f, t) && final(self).latency_of(f, t)
                    == old(self).latency_of(f, t),
            final(self).subscriber == old(self).subscriber,
    {
        let mut i: usize = 0;
        let n = self.edges.len();
        while i < n
            invariant
                i <= n,
                n == self.edges@.len(),
                old(self).wf(),
                *self == *old(self),
                forall|j: int|
                    0 <= j < i ==> !(self.edges@[j].from == from && self.edges@[j].to == to),
            decreases n - i,
        {
            if self.edges[i].from == from && self.edges[i].to == to {
                proof {
                    assert(old(self).has_edge(from, to));
                    let w = old(self).edge_idx(from, to);
                    assert(old(self).edges@[w].from == from && old(self).edges@[w].to == to);
                    assert(w == i);
                }
                let ghost prev = self.edges@;
                self.edges[i] = NetworkEdge { from, to, conn: NetworkConnection::new(latency) };
                proof {
                    assert(self.edges@[i as int].from == from);
                    assert(self.edges@[i as int].to == to);
                    assert(forall|j: int|
                        0 <= j < prev.len() && j != i ==> self.edges@[j] == prev[j]);
                    assert(final(self).wf());
                    assert(final(self).has_edge(from, to));
                    let w = self.edge_idx(from, to);
                    assert(self.edges@[w].from == from && self.edges@[w].to == to);
                    assert(w == i);
                    lemma_edge_frame_update(*old(self), *self, from, to, i as int);
                }
                return;
            }
            i = i + 1;
        }
        proof {
            assert(!old(self).has_edge(from, to));
        }
        let ghost prev = self.edges@;
        self.edges.push(NetworkEdge { from, to, conn: NetworkConnection::new(latency) });
        proof {
            let n0 = prev.len() as int;
            assert(self.edges@[n0].from == from && self.edges@[n0].to == to);
            assert(forall|j: int| 0 <= j < n0 ==> self.edges@[j] == prev[j]);
            assert(final(self).wf());
            assert(final(self).has_edge(from, to));
            let w = self.edge_idx(from, to);
            assert(self.edges@[w].from == from && self.edges@[w].to == to);
            assert forall|j: int|
                0 <= j < n0 implies !(self.edges@[j].from == from && self.edges@[j].to
                == to) by {
                assert(prev[j] == self.edges@[j]);
            };
            assert(w == n0);
            lemma_edge_frame_push(*old(self), *self, from, to);
        }
    }

    /// Install both directions between `from` and `to`, with one latency
    /// drawn once from `[min_latency, max_latency]` (equal endpoints give a
    /// deterministic edge).
    pub fn add_connection(&mut self, from: u32, to: u32, min_latency: u64, max_latency: u64)
        requires
            old(self).wf(),
            min_latency <= max_latency,
        ensures
            final(self).wf(),
            final(self).has_edge(from, to),
            final(self).has_edge(to, from),
            min_latency <= final(self).latency_of(from, to) <= max_latency,
            final(self).latency_of(to, from) == final(self).latency_of(from, to),
            final(self).queue_of(from, to) == Seq::<(u64, MessageView)>::empty(),
            final(self).queue_of(to, from) == Seq::<(u64, MessageView)>::empty(),
            final(self).subscriber == old(self).subscriber,
            forall|f: u32, t: u32|
                !(f == from && t == to) && !(f == to && t == from) ==> (#[trigger] final(self).has_edge(f, t) <==> old(self).has_edge(f, t)),
            forall|f: u32, t: u32|
                !(f == from && t == to) && !(f == to && t == from) && old(self).has_edge(f, t)
                    ==> (#[trigger] final(self).queue_of(f, t)) == old(self).queue_of(f, t),
            forall|f: u32, t: u32|
                !(f == from && t == to) && !(f == to && t == from) && old(self).has_edge(f, t)
                    ==> (#[trigger] final(self).latency_of(f, t)) == old(self).latency_of(f, t),
    {
        let latency = if min_latency != max_latency {
            sample_latency(min_latency, max_latency)
        } else {
            min_latency
        };
        let ghost pre = *self;
        self.upsert_edge(from, to, latency);
        let ghost mid = *self;
        self.upsert_edge(to, from, latency);
        proof {
            if from == to {
                assert(final(self).latency_of(from, to) == latency);
                assert(final(self).queue_of(from, to) == Seq::<(u64, MessageView)>::empty());
            } else {
                assert(mid.latency_of(from, to) == latency);
                assert(mid.has_edge(from, to));
                assert(final(self).queue_of(from, to) == mid.queue_of(from, to));
                assert(final(self).latency_of(from, to) == mid.latency_of(from, to));
            }
            assert(final(self).latency_of(to, from) == latency);
            assert(final(self).queue_of(to, from) == Seq::<(u64, MessageView)>::empty());
            assert forall|f: u32, t: u32|
                !(f == from && t == to) && !(f == to && t == from) implies (#[trigger] final(self).has_edge(f, t) <==> pre.has_edge(f, t)) by {
                assert(mid.has_edge(f, t) <==> pre.has_edge(f, t));
                assert(final(self).has_edge(f, t) <==> mid.has_edge(f, t));
            };
            assert forall|f: u32, t: u32|
                !(f == from && t == to) && !(f == to && t == from) && old(self).has_edge(
                    f,
                    t,
                ) implies (#[trigger] final(self).queue_of(f, t)) == old(self).queue_of(f, t) by {
                assert(pre.has_edge(f, t));
                assert(mid.has_edge(f, t));
                assert(mid.queue_of(f, t) == pre.queue_of(f, t));
                assert(final(self).queue_of(f, t) == mid.queue_of(f, t));
            };
            assert forall|f: u32, t: u32|
                !(f == from && t == to) && !(f == to && t == from) && old(self).has_edge(
                    f,
                    t,
                ) implies (#[trigger] final(self).latency_of(f, t)) == old(self).latency_of(
                f,
                t,
            ) by {
                assert(pre.has_edge(f, t));
                assert(mid.has_edge(f, t));
                assert(mid.queue_of(f, t) == pre.queue_of(f, t));
                assert(mid.latency_of(f, t) == pre.latency_of(f, t));
                assert(final(self).queue_of(f, t) == mid.queue_of(f, t));
                assert(final(self).latency_of(f, t) == mid.latency_of(f, t));
            };
        }
    }

    /// Whether an edge `from -> to` is installed.
    pub fn contains_edge(&self, from: u32, to: u32) -> (r: bool)
        ensures
            r == self.has_edge(from, to),
    {
        let mut i: usize = 0;
        while i < self.edges.len()
            invariant
                i <= self.edges@.len(),
                forall|j: int|
                    0 <= j < i ==> !(self.edges@[j].from == from && self.edges@[j].to == to),
            decreases self.edges@.len() - i,
        {
            if self.edges[i].from == from && self.edges[i].to == to {
                return true;
            }
            i = i + 1;
        }
        false
    }

    /// Enqueue `message` on the edge `from -> to` and log the send.
    pub fn send_message(&mut self, from: u32, to: u32, message: Message, current_time: u64)
        requires
            old(self).wf(),
            old(self).has_edge(from, to),
        ensures
            final(self).wf(),
            final(self).queue_of(from, to) == old(self).queue_of(from, to).push(
                (sat_add(current_time, old(self).latency_of(from, to)), message@),
            ),
            final(self).latency_of(from, to) == old(self).latency_of(from, to),
            forall|f: u32, t: u32| #[trigger]
                final(self).has_edge(f, t) <==> old(self).has_edge(f, t),
            forall|f: u32, t: u32|
                !(f == from && t == to) && old(self).has_edge(f, t) ==> #[trigger] final(self).queue_of(f, t) == old(self).queue_of(f, t) && final(self).latency_of(f, t)
                    == old(self).latency_of(f, t),
            final(self).subscriber.events@ == old(self).subscriber.events@.push(
                crate::subscriber::Event::MessageSent {
                    from,
                    to,
                    message_id: message_view_id(message@),
                    t: current_time,
                },
            ),
            final(self).subscriber.stats@ == old(self).subscriber.stats@,
    {
        let message_id = message.id();
        self.subscriber.on_message_sent(from, to, message_id, current_time);
        let mut i: usize = 0;
        let n = self.edges.len();
        let ghost mid = *self;
        while i < n
            invariant
                i <= n,
                n == self.edges@.len(),
                mid.wf(),
                old(self).has_edge(from, to),
                old(self).edges@ == self.edges@,
                *self == mid,
                self.subscriber.events@ == old(self).subscriber.events@.push(
                    crate::subscriber::Event::MessageSent {
                        from,
                        to,
                        message_id: message_view_id(message@),
                        t: current_time,
                    },
                ),
                self.subscriber.stats@ == old(self).subscriber.stats@,
                forall|j: int|
                    0 <= j < i ==> !(self.edges@[j].from == from && self.edges@[j].to == to),
            decreases n - i,
        {
            if self.edges[i].from == from && self.edges[i].to == to {
                proof {
                    let w = old(self).edge_idx(from, to);
                    assert(old(self).edges@[w].from == from && old(self).edges@[w].to == to);
                    assert(w == i);
                }
                let ghost prev = self.edges@;
                self.edges[i].conn.push_message(message, current_time);
                proof {
                    assert(self.edges@[i as int].from == from);
                    assert(self.edges@[i as int].to == to);
                    assert(self.edges@[i as int].conn@ == prev[i as int].conn@.push(
                        (sat_add(current_time, prev[i as int].conn.latency), message@),
                    ));
                    assert(forall|j: int|
                        0 <= j < prev.len() && j != i ==> self.edges@[j] == prev[j]);
                    assert(final(self).wf());
                    let w = self.edge_idx(from, to);
                    assert(self.edges@[w].from == from && self.edges@[w].to == to);
                    assert(w == i);
                    lemma_edge_frame_update(mid, *self, from, to, i as int);
                    assert forall|f: u32, t: u32| #[trigger]
                        final(self).has_edge(f, t) <==> old(self).has_edge(f, t) by {
                        if final(self).has_edge(f, t) {
                            let wx = choose|wx: int|
                                0 <= wx < self.edges@.len() && self.edges@[wx].from == f
                                    && self.edges@[wx].to == t;
                            if wx != i {
                                assert(prev[wx].from == f && prev[wx].to == t);
                            }
                        }
                        if old(self).has_edge(f, t) {
                            let wx = choose|wx: int|
                                0 <= wx < prev.len() && prev[wx].from == f && prev[wx].to == t;
                            if wx != i {
                                assert(self.edges@[wx].from == f && self.edges@[wx].to == t);
                            } else {
                                assert(self.edges@[i as int].from == f);
                            }
                        }
                    };
                }
                return;
            }
            i = i + 1;
        }
        proof {
            let w = old(self).edge_idx(from, to);
            assert(old(self).edges@[w].from == from && old(self).edges@[w].to == to);
            assert(false);
        }
    }

    /// Deliver, per edge in order, every message whose scheduled arrival is
    /// not after `now`, paired with the destination node.
    pub fn update(&mut self, now: u64) -> (out: Vec<(u32, Message)>)
        requires
            old(self).wf(),
        ensures
            final(self).wf(),
            final(self).subscriber == old(self).subscriber,
            final(self).edges@.len() == old(self).edges@.len(),
            forall|j: int|
                0 <= j < final(self).edges@.len() ==> (#[trigger] final(self).edges@[j].from)
                    == old(self).edges@[j].from && final(self).edges@[j].to == old(self).edges@[j].to && final(self).edges@[j].conn.latency == old(self).edges@[j].conn.latency,
            forall|j: int|
                0 <= j < final(self).edges@.len() ==> drained_to(
                    old(self).edges@[j].conn@,
                    (#[trigger] final(self).edges@[j].conn@),
                    now,
                ),
            forall|j: int|
                0 <= j < final(self).edges@.len() && (#[trigger] final(self).edges@[j].conn@).len() > 0 ==> final(self).edges@[j].conn@[0].0 > now,
            forall|x: int|
                0 <= x < out@.len() ==> origin_of(
                    old(self).edges@,
                    (#[trigger] out@[x]).0,
                    out@[x].1@,
                    now,
                ),
            // the ripe front of every queue is delivered, never dropped
            forall|j: int|
                0 <= j < old(self).edges@.len() && (#[trigger] old(self).edges@[j].conn@).len() > 0
                    && old(self).edges@[j].conn@[0].0 <= now ==> exists|x: int|
                    0 <= x < out@.len() && (#[trigger] out@[x]).0 == old(self).edges@[j].to
                        && out@[x].1@ == old(self).edges@[j].conn@[0].1,
            // each queue's whole ripe prefix is delivered, in queue order,
            // as one contiguous block of the result
            forall|j: int|
                0 <= j < old(self).edges@.len() ==> edge_flushed(
                    old(self).edges@[j].conn@,
                    (#[trigger] final(self).edges@[j].conn@),
                    old(self).edges@[j].to,
                    out@,
                    now,
                ),
    {
        let mut out: Vec<(u32, Message)> = Vec::new();
        let mut i: usize = 0;
        let n = self.edges.len();
        while i < n
            invariant
                i <= n,
                n == self.edges@.len(),
                old(self).wf(),
                self.subscriber == old(self).subscriber,
                self.edges@.len() == old(self).edges@.len(),
                forall|j: int, k: int|
                    0 <= j < k < self.edges@.len() ==> !(self.edges@[j].from == self.edges@[k].from
                        && self.edges@[j].to == self.edges@[k].to),
                forall|j: int|
                    0 <= j < n ==> (#[trigger] self.edges@[j].from) == old(self).edges@[j].from
                        && self.edges@[j].to == old(self).edges@[j].to
                        && self.edges@[j].conn.latency == old(self).edges@[j].conn.latency,
                forall|j: int| i <= j < n ==> (#[trigger] self.edges@[j].conn@) == old(self).edges@[j].conn@,
                forall|j: int|
                    0 <= j < i ==> drained_to(
                        old(self).edges@[j].conn@,
                        (#[trigger] self.edges@[j].conn@),
                        now,
                    ),
                forall|j: int|
                    0 <= j < i && (#[trigger] self.edges@[j].conn@).len() > 0
                        ==> self.edges@[j].conn@[0].0 > now,
                forall|x: int|
                    0 <= x < out@.len() ==> origin_of(
                        old(self).edges@,
                        (#[trigger] out@[x]).0,
                        out@[x].1@,
                        now,
                    ),
                forall|j: int|
                    0 <= j < i && (#[trigger] old(self).edges@[j].conn@).len() > 0 && old(self).edges@[j].conn@[0].0 <= now ==> exists|x: int|
                        0 <= x < out@.len() && (#[trigger] out@[x]).0 == old(self).edges@[j].to
                            && out@[x].1@ == old(self).edges@[j].conn@[0].1,
                forall|j: int|
                    0 <= j < i ==> edge_flushed(
                        old(self).edges@[j].conn@,
                        (#[trigger] self.edges@[j].conn@),
                        old(self).edges@[j].to,
                        out@,
                        now,
                    ),
            decreases n - i,
        {
            let to = self.edges[i].to;
            let ghost q0 = self.edges@[i as int].conn@;
            proof {
                assert(q0 == old(self).edges@[i as int].conn@);
            }
            let ready = self.edges[i].conn.drain_ready(now);
            proof {
                assert(self.edges@[i as int].conn@ == q0.skip(ready@.len() as int));
                lemma_drained_to(q0, ready@.len() as int, now);
                assert(drained_to(old(self).edges@[i as int].conn@, self.edges@[i as int].conn@, now));
            }
            let ghost out_at_edge = out@;
            let mut k: usize = 0;
            let m = ready.len();
            while k < m
                invariant
                    k <= m,
                    m == ready@.len(),
                    i < old(self).edges@.len(),
                    to == old(self).edges@[i as int].to,
                    m <= old(self).edges@[i as int].conn@.len(),
                    out@.len() == out_at_edge.len() + k,
                    forall|x: int|
                        0 <= x < out_at_edge.len() ==> (#[trigger] out@[x]) == out_at_edge[x],
                    k > 0 ==> out@[out_at_edge.len() as int].0 == to
                        && out@[out_at_edge.len() as int].1@ == old(self).edges@[i as int].conn@[0].1,
                    forall|p: int|
                        0 <= p < k ==> (#[trigger] out@[out_at_edge.len() + p]).0 == to
                            && out@[out_at_edge.len() + p].1@ == old(self).edges@[i as int].conn@[p].1,
                    forall|j: int|
                        0 <= j < m ==> (#[trigger] ready@[j]@) == old(self).edges@[i as int].conn@[j].1 && old(self).edges@[i as int].conn@[j].0
                            <= now,
                    forall|x: int|
                        0 <= x < out@.len() ==> origin_of(
                            old(self).edges@,
                            (#[trigger] out@[x]).0,
                            out@[x].1@,
                            now,
                        ),
                decreases m - k,
        {
                let msg = ready[k].clone();
                let ghost prev_out = out@;
                out.push((to, msg));
                proof {
                    assert(out@[prev_out.len() as int].0 == to);
                    assert(out@[prev_out.len() as int].1@ == old(self).edges@[i as int].conn@[k as int].1);
                    lemma_origin_of(old(self).edges@, i as int, k as int, now);
                    assert forall|x: int| 0 <= x < out@.len() implies origin_of(
                        old(self).edges@,
                        (#[trigger] out@[x]).0,
                        out@[x].1@,
                        now,
                    ) by {
                        if x < prev_out.len() {
                            assert(out@[x] == prev_out[x]);
                        }
                    };
                }
                k = k + 1;
            }
            proof {
                assert forall|j: int|
                    0 <= j < i + 1 && (#[trigger] old(self).edges@[j].conn@).len() > 0 && old(self).edges@[j].conn@[0].0 <= now implies exists|x: int|
                    0 <= x < out@.len() && (#[trigger] out@[x]).0 == old(self).edges@[j].to
                        && out@[x].1@ == old(self).edges@[j].conn@[0].1 by {
                    if j < i {
                        let x0 = choose|x: int|
                            0 <= x < out_at_edge.len() && (#[trigger] out_at_edge[x]).0 == old(self).edges@[j].to && out_at_edge[x].1@ == old(self).edges@[j].conn@[0].1;
                        assert(out@[x0] == out_at_edge[x0]);
                    } else {
                        if ready@.len() == 0 {
                            assert(self.edges@[i as int].conn@ =~= q0);
                            assert(self.edges@[i as int].conn@[0].0 > now);
                            assert(false);
                        }
                        assert(out@[out_at_edge.len() as int].0 == old(self).edges@[j].to);
                    }
                };
                assert forall|j: int|
                    0 <= j < i + 1 implies edge_flushed(
                    old(self).edges@[j].conn@,
                    (#[trigger] self.edges@[j].conn@),
                    old(self).edges@[j].to,
                    out@,
                    now,
                ) by {
                    if j < i {
                        lemma_edge_flushed_grow(
                            old(self).edges@[j].conn@,
                            self.edges@[j].conn@,
                            old(self).edges@[j].to,
                            out_at_edge,
                            out@,
                            now,
                        );
                    } else {
                        lemma_edge_flushed(
                            old(self).edges@[j].conn@,
                            self.edges@[j].conn@,
                            old(self).edges@[j].to,
                            out@,
                            now,
                            ready@.len() as int,
                            out_at_edge.len() as int,
                        );
                    }
                };
            }
            i = i + 1;
        }
        out
    }
}

/// Replacing the edge at one index keeps every other ordered pair's edge.
proof fn lemma_edge_frame_update(a: Network, b: Network, from: u32, to: u32, i: int)
    requires
        a.wf(),
        b.wf(),
        0 <= i < a.edges@.len(),
        b.edges@.len() == a.edges@.len(),
        a.edges@[i].from == from && a.edges@[i].to == to,
        b.edges@[i].from == from && b.edges@[i].to == to,
        forall|j: int| 0 <= j < a.edges@.len() && j != i ==> b.edges@[j] == a.edges@[j],
    ensures
        forall|f: u32, t: u32|
            !(f == from && t == to) ==> (#[trigger] b.has_edge(f, t) <==> a.has_edge(f, t)),
        forall|f: u32, t: u32|
            !(f == from && t == to) && a.has_edge(f, t) ==> #[trigger] b.queue_of(f, t)
                == a.queue_of(f, t) && b.latency_of(f, t) == a.latency_of(f, t),
{
    assert forall|f: u32, t: u32|
        !(f == from && t == to) implies (#[trigger] b.has_edge(f, t) <==> a.has_edge(f, t)) by {
        if b.has_edge(f, t) {
            let w = choose|w: int|
                0 <= w < b.edges@.len() && b.edges@[w].from == f && b.edges@[w].to == t;
            assert(w != i);
            assert(a.edges@[w].from == f && a.edges@[w].to == t);
        }
        if a.has_edge(f, t) {
            let w = choose|w: int|
                0 <= w < a.edges@.len() && a.edges@[w].from == f && a.edges@[w].to == t;
            assert(w != i);
            assert(b.edges@[w].from == f && b.edges@[w].to == t);
        }
    };
    assert forall|f: u32, t: u32|
        !(f == from && t == to) && a.has_edge(f, t) implies #[trigger] b.queue_of(f, t)
        == a.queue_of(f, t) && b.latency_of(f, t) == a.latency_of(f, t) by {
        let wa = a.edge_idx(f, t);
        assert(a.edges@[wa].from == f && a.edges@[wa].to == t);
        assert(wa != i);
        assert(b.edges@[wa].from == f && b.edges@[wa].to == t);
        let wb = b.edge_idx(f, t);
        assert(b.edges@[wb].from == f && b.edges@[wb].to == t);
        assert(wb == wa);
    };
}

/// Appending the edge of a fresh ordered pair keeps every other pair's edge.
proof fn lemma_edge_frame_push(a: Network, b: Network, from: u32, to: u32)
    requires
        a.wf(),
        b.wf(),
        b.edges@.len() == a.edges@.len() + 1,
        b.edges@[a.edges@.len() as int].from == from,
        b.edges@[a.edges@.len() as int].to == to,
        forall|j: int| 0 <= j < a.edges@.len() ==> b.edges@[j] == a.edges@[j],
    ensures
        forall|f: u32, t: u32|
            !(f == from && t == to) ==> (#[trigger] b.has_edge(f, t) <==> a.has_edge(f, t)),
        forall|f: u32, t: u32|
            !(f == from && t == to) && a.has_edge(f, t) ==> #[trigger] b.queue_of(f, t)
                == a.queue_of(f, t) && b.latency_of(f, t) == a.latency_of(f, t),
{
    let n = a.edges@.len() as int;
    assert forall|f: u32, t: u32|
        !(f == from && t == to) implies (#[trigger] b.has_edge(f, t) <==> a.has_edge(f, t)) by {
        if b.has_edge(f, t) {
            let w = choose|w: int|
                0 <= w < b.edges@.len() && b.edges@[w].from == f && b.edges@[w].to == t;
            assert(w != n);
            assert(a.edges@[w].from == f && a.edges@[w].to == t);
        }
        if a.has_edge(f, t) {
            let w = choose|w: int|
                0 <= w < a.edges@.len() && a.edges@[w].from == f && a.edges@[w].to == t;
            assert(b.edges@[w].from == f && b.edges@[w].to == t);
        }
    };
    assert forall|f: u32, t: u32|
        !(f == from && t == to) && a.has_edge(f, t) implies #[trigger] b.queue_of(f, t)
        == a.queue_of(f, t) && b.latency_of(f, t) == a.latency_of(f, t) by {
        let wa = a.edge_idx(f, t);
        assert(a.edges@[wa].from == f && a.edges@[wa].to == t);
        assert(b.edges@[wa].from == f && b.edges@[wa].to == t);
        let wb = b.edge_idx(f, t);
        assert(b.edges@[wb].from == f && b.edges@[wb].to == t);
        assert(wb != n);
        assert(a.edges@[wb].from == f && a.edges@[wb].to == t);
        assert(wb == wa);
    };
}

} // verus!
