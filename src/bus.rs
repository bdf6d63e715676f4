//! Team channels of the blackboard: bounded per-subscriber queues fed by
//! every posted message. A full queue drops its oldest message, so that a
//! publisher never waits; each drop is reported for the subscriber it hit.
use vstd::prelude::*;
use crate::text::str_eq;
use crate::vox::{VoxMessage, clone_message};

verus! {

/// Default capacity of a subscriber's queue.
pub const CHANNEL_CAPACITY: usize = 1024;
/// Longest wait between two reconnection attempts, in milliseconds.
pub const MAX_RECONNECT_BACKOFF_MS: u64 = 60_000;

/// The lower-case form of a text, as std computes it.
pub uninterp spec fn lower_of(s: Seq<char>) -> Seq<char>;

/// Relies on `str::to_lowercase`: the result depends on the characters alone.
#[verifier::external_body]
fn lowercase(s: &str) -> (r: String)
    ensures
        r@ == lower_of(s@),
{
    s.to_lowercase()
}

/// Whether a message addressed to `target` goes to channel `channel`: the
/// channel named by the target, every channel for "all", and the "all"
/// channel for every message.
pub open spec fn routed_to(target: Seq<char>, channel: Seq<char>) -> bool {
    lower_of(target) == channel || lower_of(target) == "all"@ || channel == "all"@
}

/// One subscriber: the channel it listens on and its pending messages.
pub struct Subscriber {
    pub id: u64,
    pub channel: String,
    pub queue: Vec<VoxMessage>,
}

/// The queue of a reached subscriber after `m` arrives: the oldest message
/// is dropped first when the queue is full.
pub open spec fn enqueued(q: Seq<VoxMessage>, m: VoxMessage, cap: nat) -> Seq<VoxMessage> {
    if q.len() >= cap && q.len() > 0 { q.drop_first().push(m) } else { q.push(m) }
}

/// Whether one of the first `n` subscribers of `subs`, with id `id`, was
/// reached by a message for `target` while its queue was full.
pub open spec fn overflowed(subs: Seq<Subscriber>, n: int, target: Seq<char>, cap: nat, id: u64) -> bool {
    exists|k: int| 0 <= k < n && k < subs.len() && (#[trigger] subs[k]).id == id && routed_to(target, subs[k].channel@)
        && subs[k].queue@.len() >= cap
}

fn copy_tail(q: &Vec<VoxMessage>, from: usize) -> (r: Vec<VoxMessage>)
    requires
        from <= q@.len(),
    ensures
        r@ == q@.subrange(from as int, q@.len() as int),
{
    let mut out: Vec<VoxMessage> = Vec::new();
    let mut j = from;
    while j < q.len()
        invariant
            from <= j <= q@.len(),
            out@ == q@.subrange(from as int, j as int),
        decreases q@.len() - j,
    {
        out.push(clone_message(&q[j]));
        proof {
            assert(q@.subrange(from as int, j + 1) =~= q@.subrange(from as int, j as int).push(q@[j as int]));
        }
        j = j + 1;
    }
    out
}

/// The channels of all teams.
pub struct TeamBus {
    subscribers: Vec<Subscriber>,
    capacity: usize,
    next_id: u64,
}

impl TeamBus {
    pub closed spec fn subs(&self) -> Seq<Subscriber> {
        self.subscribers@
    }

    pub closed spec fn cap(&self) -> nat {
        self.capacity as nat
    }

    pub closed spec fn next(&self) -> u64 {
        self.next_id
    }

    /// Subscriber ids are below the next id and distinct, and no queue is
    /// longer than the capacity.
    pub open spec fn wf(&self) -> bool {
        &&& self.cap() > 0
        &&& forall|i: int| 0 <= i < self.subs().len() ==> (#[trigger] self.subs()[i]).id < self.next()
        &&& forall|i: int, j: int|
            0 <= i < j < self.subs().len() ==> (#[trigger] self.subs()[i]).id < (#[trigger] self.subs()[j]).id
        &&& forall|i: int| 0 <= i < self.subs().len() ==> (#[trigger] self.subs()[i]).queue@.len() <= self.cap()
    }

    /// A bus whose queues hold `capacity` messages.
    pub fn new(capacity: usize) -> (r: Self)
        requires
            capacity > 0,
        ensures
            r.wf(),
            r.subs().len() == 0,
            r.cap() == capacity,
    {
        TeamBus { subscribers: Vec::new(), capacity, next_id: 0 }
    }

    /// Adds a subscriber on `channel` and returns its id.
    pub fn subscribe(&mut self, channel: &str) -> (r: Option<u64>)
        requires
            old(self).wf(),
        ensures
            final(self).wf(),
            final(self).cap() == old(self).cap(),
            r matches Some(id) ==> final(self).subs().len() == old(self).subs().len() + 1
                && final(self).subs().drop_last() == old(self).subs()
                && final(self).subs().last().id == id
                && final(self).subs().last().channel@ == lower_of(channel@)
                && final(self).subs().last().queue@.len() == 0,
            r is None ==> final(self).subs() == old(self).subs() && old(self).next() == u64::MAX,
    {
        if self.next_id == u64::MAX {
            return None;
        }
        let id = self.next_id;
        self.subscribers.push(Subscriber { id, channel: lowercase(channel), queue: Vec::new() });
        self.next_id = id + 1;
        proof {
            let before = old(self).subs();
            assert(self.subscribers@.drop_last() =~= before);
            assert forall|i: int| 0 <= i < self.subs().len() implies (#[trigger] self.subs()[i]).id < self.next() by {
                if i < self.subs().len() - 1 {
                    assert(self.subs()[i] == before[i]);
                }
            }
            assert forall|i: int| 0 <= i < self.subs().len() implies (#[trigger] self.subs()[i]).queue@.len() <= self.cap() by {
                if i < self.subs().len() - 1 {
                    assert(self.subs()[i] == before[i]);
                }
            }
            assert forall|i: int, j: int| 0 <= i < j < self.subs().len() implies (#[trigger] self.subs()[i]).id < (
            #[trigger] self.subs()[j]).id by {
                if j < self.subs().len() - 1 {
                    assert(self.subs()[i] == before[i] && self.subs()[j] == before[j]);
                } else {
                    assert(self.subs()[i] == before[i]);
                }
            }
        }
        Some(id)
    }

    /// Delivers `msg` to every subscriber it is routed to. Returns the ids of
    /// the subscribers whose full queue dropped its oldest message.
    pub fn publish(&mut self, msg: &VoxMessage) -> (dropped: Vec<u64>)
        requires
            old(self).wf(),
        ensures
            final(self).wf(),
            final(self).cap() == old(self).cap(),
            final(self).next() == old(self).next(),
            final(self).subs().len() == old(self).subs().len(),
            forall|i: int| 0 <= i < old(self).subs().len() ==> {
                let s = #[trigger] old(self).subs()[i];
                &&& final(self).subs()[i].id == s.id
                &&& final(self).subs()[i].channel == s.channel
                &&& final(self).subs()[i].queue@ == if routed_to(msg.target_team@, s.channel@) {
                    enqueued(s.queue@, *msg, old(self).cap())
                } else {
                    s.queue@
                }
            },
            forall|i: int| 0 <= i < dropped@.len() ==> overflowed(old(self).subs(), old(self).subs().len() as int, msg.target_team@, old(self).cap(), #[trigger] dropped@[i]),
            forall|k: int| 0 <= k < old(self).subs().len() && routed_to(msg.target_team@, (#[trigger] old(self).subs()[k]).channel@)
                && old(self).subs()[k].queue@.len() >= old(self).cap() ==> dropped@.contains(old(self).subs()[k].id),
    {
        let target = lowercase(msg.target_team.as_str());
        let mut dropped: Vec<u64> = Vec::new();
        let n = self.subscribers.len();
        let mut i: usize = 0;
        while i < n
            invariant
                n == self.subscribers@.len(),
                n == old(self).subs().len(),
                i <= n,
                target@ == lower_of(msg.target_team@),
                self.capacity == old(self).capacity,
                self.next_id == old(self).next_id,
                old(self).wf(),
                forall|k: int| i <= k < n ==> self.subscribers@[k] == old(self).subs()[k],
                forall|k: int| 0 <= k < i ==> {
                    let s = #[trigger] old(self).subs()[k];
                    &&& self.subscribers@[k].id == s.id
                    &&& self.subscribers@[k].channel == s.channel
                    &&& self.subscribers@[k].queue@ == if routed_to(msg.target_team@, s.channel@) {
                        enqueued(s.queue@, *msg, old(self).cap())
                    } else {
                        s.queue@
                    }
                },
                forall|d: int| 0 <= d < dropped@.len() ==> overflowed(old(self).subs(), i as int, msg.target_team@, old(self).cap(), #[trigger] dropped@[d]),
                forall|k: int| 0 <= k < i && routed_to(msg.target_team@, (#[trigger] old(self).subs()[k]).channel@)
                    && old(self).subs()[k].queue@.len() >= old(self).cap() ==> dropped@.contains(old(self).subs()[k].id),
            decreases n - i,
        {
            let ch = self.subscribers[i].channel.as_str();
            let hit = str_eq(target.as_str(), ch) || str_eq(target.as_str(), "all") || str_eq(ch, "all");
            let ghost s_old = old(self).subs()[i as int];
            let ghost pre = self.subscribers@;
            let ghost dropped_pre = dropped@;
            assert(pre[i as int] == s_old);
            if hit {
                let full = self.subscribers[i].queue.len() >= self.capacity;
                proof {
                    assert(old(self).subs()[i as int].queue@.len() <= old(self).cap());
                }
                let mut q = copy_tail(&self.subscribers[i].queue, if full { 1 } else { 0 });
                q.push(clone_message(msg));
                proof {
                    let q0 = s_old.queue@;
                    if full {
                        assert(q0.subrange(1, q0.len() as int) =~= q0.drop_first());
                    } else {
                        assert(q0.subrange(0, q0.len() as int) =~= q0);
                    }
                    assert(q@ == enqueued(q0, *msg, old(self).cap()));
                }
                let sub = Subscriber { id: self.subscribers[i].id, channel: self.subscribers[i].channel.clone(), queue: q };
                if full {
                    dropped.push(self.subscribers[i].id);
                }
                self.subscribers.set(i, sub);
            }
            proof {
                assert(hit == routed_to(msg.target_team@, s_old.channel@));
                assert forall|k: int| 0 <= k < i + 1 implies {
                    let s = #[trigger] old(self).subs()[k];
                    &&& self.subscribers@[k].id == s.id
                    &&& self.subscribers@[k].channel == s.channel
                    &&& self.subscribers@[k].queue@ == if routed_to(msg.target_team@, s.channel@) {
                        enqueued(s.queue@, *msg, old(self).cap())
                    } else {
                        s.queue@
                    }
                } by {
                    if k < i {
                        assert(self.subscribers@[k] == pre[k]);
                    }
                }
                assert forall|k: int| i + 1 <= k < n implies self.subscribers@[k] == old(self).subs()[k] by {
                    assert(self.subscribers@[k] == pre[k]);
                }
                assert forall|d: int| 0 <= d < dropped@.len() implies overflowed(old(self).subs(), i + 1, msg.target_team@, old(self).cap(), #[trigger] dropped@[d]) by {
                    if d < dropped@.len() - 1 || !(hit && s_old.queue@.len() >= old(self).cap()) {
                        assert(dropped@[d] == dropped_pre[d]);
                        assert(overflowed(old(self).subs(), i as int, msg.target_team@, old(self).cap(), dropped_pre[d]));
                        let k = choose|k: int| 0 <= k < i && k < old(self).subs().len() && (#[trigger] old(self).subs()[k]).id == dropped@[d] && routed_to(msg.target_team@, old(self).subs()[k].channel@)
                            && old(self).subs()[k].queue@.len() >= old(self).cap();
                        assert(old(self).subs()[k].id == dropped@[d]);
                    } else {
                        assert(old(self).subs()[i as int].id == dropped@[d]);
                    }
                }
                assert forall|k: int| 0 <= k < i + 1 && routed_to(msg.target_team@, (#[trigger] old(self).subs()[k]).channel@)
                    && old(self).subs()[k].queue@.len() >= old(self).cap() implies dropped@.contains(old(self).subs()[k].id) by {
                    if k == i {
                        assert(dropped@[dropped@.len() - 1] == old(self).subs()[k].id);
                    } else {
                        assert(dropped_pre.contains(old(self).subs()[k].id));
                        let w = choose|w: int| 0 <= w < dropped_pre.len() && dropped_pre[w] == old(self).subs()[k].id;
                        assert(dropped@[w] == dropped_pre[w]);
                    }
                }
            }
            i = i + 1;
        }
        proof {
            assert forall|a: int, b: int| 0 <= a < b < self.subs().len() implies (#[trigger] self.subs()[a]).id < (
            #[trigger] self.subs()[b]).id by {
                assert(old(self).subs()[a].id < old(self).subs()[b].id);
            }
            assert forall|k: int| 0 <= k < self.subs().len() implies (#[trigger] self.subs()[k]).queue@.len() <= self.cap() by {
                assert(old(self).subs()[k].queue@.len() <= old(self).cap());
            }
            assert forall|k: int| 0 <= k < self.subs().len() implies (#[trigger] self.subs()[k]).id < self.next() by {
                assert(old(self).subs()[k].id < old(self).next());
            }
        }
        dropped
    }

    /// Takes the oldest pending message of subscriber `id`, if any.
    pub fn try_recv(&mut self, id: u64) -> (r: Option<VoxMessage>)
        requires
            old(self).wf(),
        ensures
            final(self).wf(),
            final(self).cap() == old(self).cap(),
            final(self).next() == old(self).next(),
            final(self).subs().len() == old(self).subs().len(),
            r is Some <==> exists|k: int| 0 <= k < old(self).subs().len() && (#[trigger] old(self).subs()[k]).id == id
                && old(self).subs()[k].queue@.len() > 0,
            r matches Some(m) ==> exists|k: int| 0 <= k < old(self).subs().len() && (#[trigger] old(self).subs()[k]).id == id
                && old(self).subs()[k].queue@.len() > 0 && m == old(self).subs()[k].queue@[0]
                && final(self).subs()[k].queue@ == old(self).subs()[k].queue@.drop_first()
                && final(self).subs()[k].id == id && final(self).subs()[k].channel == old(self).subs()[k].channel
                && forall|j: int| 0 <= j < old(self).subs().len() && j != k ==> final(self).subs()[j] == old(self).subs()[j],
            r is None ==> final(self).subs() == old(self).subs(),
    {
        let mut i: usize = 0;
        while i < self.subscribers.len()
            invariant
                i <= self.subscribers@.len(),
                *self == *old(self),
                old(self).wf(),
                forall|j: int| 0 <= j < i ==> (#[trigger] old(self).subs()[j]).id != id,
            decreases self.subscribers@.len() - i,
        {
            if self.subscribers[i].id == id {
                if self.subscribers[i].queue.len() == 0 {
                    proof {
                        assert(self.subs() == old(self).subs());
                        assert forall|k: int| 0 <= k < old(self).subs().len() && (#[trigger] old(self).subs()[k]).id == id implies old(
                            self,
                        ).subs()[k].queue@.len() == 0 by {
                            if k < i {
                            } else if k > i {
                                assert(old(self).subs()[i as int].id < old(self).subs()[k].id);
                            }
                        }
                    }
                    return None;
                }
                let ghost before = old(self).subs();
                let q0 = &self.subscribers[i].queue;
                let first = clone_message(&q0[0]);
                let rest = copy_tail(q0, 1);
                proof {
                    assert(q0@.subrange(1, q0@.len() as int) =~= q0@.drop_first());
                }
                let sub = Subscriber { id: self.subscribers[i].id, channel: self.subscribers[i].channel.clone(), queue: rest };
                self.subscribers.set(i, sub);
                proof {
                    assert forall|a: int, b: int| 0 <= a < b < self.subs().len() implies (#[trigger] self.subs()[a]).id < (
                    #[trigger] self.subs()[b]).id by {
                        assert(self.subs()[a].id == before[a].id);
                        assert(self.subs()[b].id == before[b].id);
                        assert(before[a].id < before[b].id);
                    }
                    assert forall|k: int| 0 <= k < self.subs().len() implies (#[trigger] self.subs()[k]).queue@.len() <= self.cap() by {
                        assert(before[k].queue@.len() <= self.cap());
                    }
                    assert forall|k: int| 0 <= k < self.subs().len() implies (#[trigger] self.subs()[k]).id < self.next() by {
                        assert(self.subs()[k].id == before[k].id);
                        assert(before[k].id < self.next());
                    }
                    assert(before[i as int].id == id);
                }
                return Some(first);
            }
            i = i + 1;
        }
        proof {
            assert(self.subs() == old(self).subs());
        }
        None
    }
}

/// The wait before the next reconnection after a failure: twice the last
/// wait, at most a minute.
pub fn reconnect_backoff(last_ms: u64) -> (r: u64)
    ensures
        r == if 2 * last_ms as int > MAX_RECONNECT_BACKOFF_MS as int { MAX_RECONNECT_BACKOFF_MS as int } else { 2 * last_ms as int },
{
    if last_ms > MAX_RECONNECT_BACKOFF_MS / 2 {
        MAX_RECONNECT_BACKOFF_MS
    } else {
        2 * last_ms
    }
}

} // verus!
