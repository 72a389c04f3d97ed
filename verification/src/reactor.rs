//! The reactor: a request/reply correlation engine.
//!
//! Sometimes incoming packets must be matched with the original request by
//! hand, with no underlying OS facility to rely on — ICMP pings and raw
//! socket scans are the prime examples.  The reactor takes the context of
//! each outbound request and every inbound reply, both tagged with a
//! caller-chosen index, and pairs them up: a context whose reply arrives is
//! concluded from that reply; one whose reply never comes is concluded as a
//! timeout after a bounded wait.  Replies may arrive before their context
//! and are buffered.
//!
//! The asynchronous driver owns the streams and the timer; it feeds one
//! [`ReactorEvent`] per wakeup into [`Reactor::step`], which performs the
//! whole per-wakeup algorithm: handle the event, collect timed-out
//! contexts, and drain everything once the inputs are exhausted.  To keep
//! timeout emission latency bounded even on a silent channel, the driver
//! must wake at least every [`Reactor::gc_period`] milliseconds.

use vstd::prelude::*;

verus! {

/// What a reactor needs of the per-request state: the time the request
/// started, and the two ways it can end.  The scanner's ICMP sweep
/// implements this; raw-socket scans would implement it the same way.
pub trait ReactorContext: Sized {
    /// The payload of an inbound reply.
    type Reply;

    /// The outcome emitted downstream.
    type Conclusion;

    /// The time this request started, in the driver's clock.
    spec fn spec_start_time(&self) -> u64;

    /// The conclusion this context yields when no reply arrives in time.
    spec fn spec_timeout_conclusion(&self) -> Self::Conclusion;

    /// The conclusion this context yields for a given reply.
    spec fn spec_conclusion(&self, reply: Self::Reply) -> Self::Conclusion;

    /// The time this request started.
    fn start_time(&self) -> (t: u64)
        ensures
            t == self.spec_start_time(),
    ;

    /// Build the conclusion for a request that timed out.
    fn create_timeout_conclusion(&self) -> (c: Self::Conclusion)
        ensures
            c == self.spec_timeout_conclusion(),
    ;

    /// Build the conclusion for a request whose reply arrived.
    fn create_conclusion(&self, reply: Self::Reply) -> (c: Self::Conclusion)
        ensures
            c == self.spec_conclusion(reply),
    ;
}

/// One wakeup's worth of input to the reactor: what the merged input
/// channels yielded, or nothing.
pub enum ReactorEvent<C: ReactorContext> {
    /// A new outbound request context, tagged with its index.
    Context(u64, C),
    /// An inbound reply, tagged with its index.
    Reply(u64, C::Reply),
    /// Both input channels are exhausted.
    InputsClosed,
    /// Nothing arrived; the wakeup came from the periodic timer.
    Idle,
}

/// Whether an entry list holds the index.
pub open spec fn has_key<T>(entries: Seq<(u64, T)>, index: u64) -> bool {
    exists|k: int| 0 <= k < entries.len() && (#[trigger] entries[k]).0 == index
}

/// The position of the index in an entry list.
pub open spec fn key_index<T>(entries: Seq<(u64, T)>, index: u64) -> int {
    choose|k: int| 0 <= k < entries.len() && (#[trigger] entries[k]).0 == index
}

/// No index appears twice in the entry list.
pub open spec fn entries_distinct<T>(entries: Seq<(u64, T)>) -> bool {
    forall|j: int, k: int|
        0 <= j < k < entries.len() ==> (#[trigger] entries[j]).0 != (#[trigger] entries[k]).0
}

/// A request has outlived its allowance at time `now`.
pub open spec fn spec_expired(start: u64, now: u64, timeout: u64) -> bool {
    start + timeout <= now
}

/// The timeout conclusions of a run of waiting entries, in order.
pub open spec fn timeout_emissions<C: ReactorContext>(entries: Seq<(u64, C)>) -> Seq<
    (C, C::Conclusion),
> {
    entries.map_values(|e: (u64, C)| (e.1, e.1.spec_timeout_conclusion()))
}

/// What handling one context does to the state, and what it emits: a
/// buffered out-of-order reply concludes it at once; otherwise it joins the
/// waiting list, superseding a stale entry under the same index if one is
/// present (which is a caller error, but must not wedge the reactor).
pub open spec fn spec_handle_context<C: ReactorContext>(
    waiting: Seq<(u64, C)>,
    out_of_order: Seq<(u64, C::Reply)>,
    index: u64,
    ctx: C,
) -> (Seq<(u64, C)>, Seq<(u64, C::Reply)>, Seq<(C, C::Conclusion)>) {
    if has_key(out_of_order, index) {
        let k = key_index(out_of_order, index);
        (waiting, out_of_order.remove(k), seq![(ctx, ctx.spec_conclusion(out_of_order[k].1))])
    } else if has_key(waiting, index) {
        (waiting.update(key_index(waiting, index), (index, ctx)), out_of_order, Seq::empty())
    } else {
        (waiting.push((index, ctx)), out_of_order, Seq::empty())
    }
}

/// What handling one reply does to the state, and what it emits: a waiting
/// context under the same index is concluded from the reply; with no such
/// context the reply is buffered, replacing any already-buffered reply
/// under the same index.
pub open spec fn spec_handle_reply<C: ReactorContext>(
    waiting: Seq<(u64, C)>,
    out_of_order: Seq<(u64, C::Reply)>,
    index: u64,
    reply: C::Reply,
) -> (Seq<(u64, C)>, Seq<(u64, C::Reply)>, Seq<(C, C::Conclusion)>) {
    if has_key(waiting, index) {
        let k = key_index(waiting, index);
        (
            waiting.remove(k),
            out_of_order,
            seq![(waiting[k].1, waiting[k].1.spec_conclusion(reply))],
        )
    } else if has_key(out_of_order, index) {
        (waiting, out_of_order.update(key_index(out_of_order, index), (index, reply)), Seq::empty())
    } else {
        (waiting, out_of_order.push((index, reply)), Seq::empty())
    }
}

/// How many entries the timeout collection removes: the longest prefix of
/// the waiting list whose entries have all expired.  The walk honors
/// insertion order and stops at the first entry still inside its
/// allowance.
pub open spec fn spec_gc_count<C: ReactorContext>(
    waiting: Seq<(u64, C)>,
    now: u64,
    timeout: u64,
) -> int
    decreases waiting.len(),
{
    if waiting.len() == 0 {
        0int
    } else if !spec_expired(waiting[0].1.spec_start_time(), now, timeout) {
        0int
    } else {
        1 + spec_gc_count(waiting.drop_first(), now, timeout)
    }
}

/// What one event does to the whole state.  The third component of the
/// result is the new inputs-exhausted flag.
pub open spec fn spec_apply_event<C: ReactorContext>(
    waiting: Seq<(u64, C)>,
    out_of_order: Seq<(u64, C::Reply)>,
    final_pass: bool,
    event: ReactorEvent<C>,
) -> (Seq<(u64, C)>, Seq<(u64, C::Reply)>, bool, Seq<(C, C::Conclusion)>) {
    match event {
        ReactorEvent::Context(index, ctx) => {
            let (w, o, em) = spec_handle_context(waiting, out_of_order, index, ctx);
            (w, o, final_pass, em)
        },
        ReactorEvent::Reply(index, reply) => {
            let (w, o, em) = spec_handle_reply(waiting, out_of_order, index, reply);
            (w, o, final_pass, em)
        },
        ReactorEvent::InputsClosed => (waiting, out_of_order, true, Seq::empty()),
        ReactorEvent::Idle => (waiting, out_of_order, final_pass, Seq::empty()),
    }
}

/// One whole wakeup: handle the event, collect the expired prefix of the
/// waiting list as timeouts, and, once the inputs are exhausted, drain
/// every remaining waiting entry as a timeout.
pub open spec fn spec_step<C: ReactorContext>(
    waiting: Seq<(u64, C)>,
    out_of_order: Seq<(u64, C::Reply)>,
    final_pass: bool,
    timeout: u64,
    event: ReactorEvent<C>,
    now: u64,
) -> (Seq<(u64, C)>, Seq<(u64, C::Reply)>, bool, Seq<(C, C::Conclusion)>) {
    let (w1, o1, fp1, em1) = spec_apply_event(waiting, out_of_order, final_pass, event);
    let n = spec_gc_count(w1, now, timeout);
    let w2 = w1.skip(n);
    let em2 = em1 + timeout_emissions(w1.take(n));
    if fp1 {
        (Seq::empty(), o1, fp1, em2 + timeout_emissions(w2))
    } else {
        (w2, o1, fp1, em2)
    }
}

/// The reactor's state: the insertion-ordered waiting list of contexts,
/// the buffer of replies that arrived before their context, the timeout
/// allowance, and whether the inputs are exhausted.
pub struct Reactor<C: ReactorContext> {
    waiting: Vec<(u64, C)>,
    out_of_order: Vec<(u64, C::Reply)>,
    timeout: u64,
    final_pass: bool,
}

impl<C: ReactorContext> Reactor<C> {
    /// The waiting contexts, in insertion order.
    pub closed spec fn spec_waiting(&self) -> Seq<(u64, C)> {
        self.waiting@
    }

    /// The buffered out-of-order replies.
    pub closed spec fn spec_out_of_order(&self) -> Seq<(u64, C::Reply)> {
        self.out_of_order@
    }

    /// The timeout allowance of every request.
    pub closed spec fn spec_timeout(&self) -> u64 {
        self.timeout
    }

    /// Whether both input channels are exhausted.
    pub closed spec fn spec_final_pass(&self) -> bool {
        self.final_pass
    }

    /// The reactor's invariant: an index is held by at most one waiting
    /// context and at most one buffered reply, and never by both at once.
    pub open spec fn well_formed(&self) -> bool {
        &&& entries_distinct(self.spec_waiting())
        &&& entries_distinct(self.spec_out_of_order())
        &&& forall|k: int|
            0 <= k < self.spec_waiting().len() ==> !has_key(
                self.spec_out_of_order(),
                (#[trigger] self.spec_waiting()[k]).0,
            )
    }

    /// A fresh reactor.  The timeout must allow a meaningful periodic
    /// wakeup of a fifth of its length.
    pub fn new(timeout: u64) -> (r: Self)
        requires
            timeout >= 5,
        ensures
            r.well_formed(),
            r.spec_waiting().len() == 0,
            r.spec_out_of_order().len() == 0,
            r.spec_timeout() == timeout,
            !r.spec_final_pass(),
    {
        Reactor { waiting: Vec::new(), out_of_order: Vec::new(), timeout, final_pass: false }
    }

    /// The period the driver's wakeup timer must use so that timeout
    /// emission has bounded latency even on a silent channel.
    pub fn gc_period(&self) -> (r: u64)
        requires
            self.spec_timeout() >= 5,
        ensures
            r == self.spec_timeout() / 5,
            r >= 1,
    {
        self.timeout / 5
    }

    /// Find the position of an index in the waiting list.
    fn find_waiting(&self, index: u64) -> (r: Option<usize>)
        requires
            self.well_formed(),
        ensures
            match r {
                Some(k) => has_key(self.spec_waiting(), index) && k == key_index(
                    self.spec_waiting(),
                    index,
                ) && k < self.spec_waiting().len() && self.spec_waiting()[k as int].0 == index,
                None => !has_key(self.spec_waiting(), index),
            },
    {
        let mut k: usize = 0;
        while k < self.waiting.len()
            invariant
                self.well_formed(),
                k <= self.waiting@.len(),
                forall|j: int| 0 <= j < k ==> (#[trigger] self.waiting@[j]).0 != index,
            decreases self.waiting@.len() - k,
        {
            if self.waiting[k].0 == index {
                proof {
                    let w = key_index(self.spec_waiting(), index);
                    assert(self.spec_waiting()[w].0 == index);
                    assert(w == k as int);
                }
                return Some(k);
            }
            k = k + 1;
        }
        None
    }

    /// Find the position of an index in the out-of-order buffer.
    fn find_out_of_order(&self, index: u64) -> (r: Option<usize>)
        requires
            self.well_formed(),
        ensures
            match r {
                Some(k) => has_key(self.spec_out_of_order(), index) && k == key_index(
                    self.spec_out_of_order(),
                    index,
                ) && k < self.spec_out_of_order().len() && self.spec_out_of_order()[k as int].0
                    == index,
                None => !has_key(self.spec_out_of_order(), index),
            },
    {
        let mut k: usize = 0;
        while k < self.out_of_order.len()
            invariant
                self.well_formed(),
                k <= self.out_of_order@.len(),
                forall|j: int| 0 <= j < k ==> (#[trigger] self.out_of_order@[j]).0 != index,
            decreases self.out_of_order@.len() - k,
        {
            if self.out_of_order[k].0 == index {
                proof {
                    let w = key_index(self.spec_out_of_order(), index);
                    assert(self.spec_out_of_order()[w].0 == index);
                    assert(w == k as int);
                }
                return Some(k);
            }
            k = k + 1;
        }
        None
    }

    /// Take in one outbound request context.
    pub fn handle_context(&mut self, index: u64, ctx: C) -> (r: Option<(C, C::Conclusion)>)
        requires
            old(self).well_formed(),
        ensures
            final(self).well_formed(),
            final(self).spec_timeout() == old(self).spec_timeout(),
            final(self).spec_final_pass() == old(self).spec_final_pass(),
            ({
                let (w, o, em) = spec_handle_context(
                    old(self).spec_waiting(),
                    old(self).spec_out_of_order(),
                    index,
                    ctx,
                );
                &&& final(self).spec_waiting() == w
                &&& final(self).spec_out_of_order() == o
                &&& emission_seq(r) == em
            }),
    {
        match self.find_out_of_order(index) {
            Some(k) => {
                let entry = self.out_of_order.remove(k);
                let conclusion = ctx.create_conclusion(entry.1);
                proof {
                    lemma_remove_keeps_state(old(self).spec_out_of_order(), k as int);
                    assert forall|m: int|
                        0 <= m < self.spec_waiting().len() implies !has_key(
                        self.spec_out_of_order(),
                        (#[trigger] self.spec_waiting()[m]).0,
                    ) by {
                        if has_key(self.spec_out_of_order(), self.spec_waiting()[m].0) {
                            lemma_removed_keys_subset(
                                old(self).spec_out_of_order(),
                                k as int,
                                self.spec_waiting()[m].0,
                            );
                        }
                    }
                }
                Some((ctx, conclusion))
            },
            None => {
                match self.find_waiting(index) {
                    Some(k) => {
                        let ghost w0 = self.waiting@;
                        self.waiting.remove(k);
                        self.waiting.insert(k, (index, ctx));
                        proof {
                            assert(self.waiting@ =~= w0.update(k as int, (index, ctx)));
                            assert forall|j: int, m: int|
                                0 <= j < m < self.spec_waiting().len() implies (
                            #[trigger] self.spec_waiting()[j]).0 != (
                            #[trigger] self.spec_waiting()[m]).0 by {
                                assert(w0[j].0 != w0[m].0);
                            }
                            assert forall|m: int|
                                0 <= m < self.spec_waiting().len() implies !has_key(
                                self.spec_out_of_order(),
                                (#[trigger] self.spec_waiting()[m]).0,
                            ) by {
                                assert(self.spec_waiting()[m].0 == w0[m].0);
                            }
                        }
                        None
                    },
                    None => {
                        self.waiting.push((index, ctx));
                        proof {
                            let w = self.spec_waiting();
                            assert forall|j: int, m: int|
                                0 <= j < m < w.len() implies (#[trigger] w[j]).0 != (
                            #[trigger] w[m]).0 by {
                                if m == w.len() - 1 {
                                    assert(w[j] == old(self).spec_waiting()[j]);
                                }
                            }
                            assert forall|m: int|
                                0 <= m < w.len() implies !has_key(
                                self.spec_out_of_order(),
                                (#[trigger] w[m]).0,
                            ) by {
                                if m < w.len() - 1 {
                                    assert(w[m] == old(self).spec_waiting()[m]);
                                }
                            }
                        }
                        None
                    },
                }
            },
        }
    }

    /// Take in one inbound reply.
    pub fn handle_reply(&mut self, index: u64, reply: C::Reply) -> (r: Option<(C, C::Conclusion)>)
        requires
            old(self).well_formed(),
        ensures
            final(self).well_formed(),
            final(self).spec_timeout() == old(self).spec_timeout(),
            final(self).spec_final_pass() == old(self).spec_final_pass(),
            ({
                let (w, o, em) = spec_handle_reply(
                    old(self).spec_waiting(),
                    old(self).spec_out_of_order(),
                    index,
                    reply,
                );
                &&& final(self).spec_waiting() == w
                &&& final(self).spec_out_of_order() == o
                &&& emission_seq(r) == em
            }),
    {
        match self.find_waiting(index) {
            Some(k) => {
                let entry = self.waiting.remove(k);
                let conclusion = entry.1.create_conclusion(reply);
                proof {
                    lemma_remove_keeps_state(old(self).spec_waiting(), k as int);
                    assert forall|m: int|
                        0 <= m < self.spec_waiting().len() implies !has_key(
                        self.spec_out_of_order(),
                        (#[trigger] self.spec_waiting()[m]).0,
                    ) by {
                        let m0 = if m < k as int { m } else { m + 1 };
                        assert(self.spec_waiting()[m] == old(self).spec_waiting()[m0]);
                    }
                }
                Some((entry.1, conclusion))
            },
            None => {
                match self.find_out_of_order(index) {
                    Some(k) => {
                        let ghost o0 = self.out_of_order@;
                        self.out_of_order.remove(k);
                        self.out_of_order.insert(k, (index, reply));
                        proof {
                            assert(self.out_of_order@ =~= o0.update(k as int, (index, reply)));
                            assert forall|j: int, m: int|
                                0 <= j < m < self.spec_out_of_order().len() implies (
                            #[trigger] self.spec_out_of_order()[j]).0 != (
                            #[trigger] self.spec_out_of_order()[m]).0 by {
                                assert(o0[j].0 != o0[m].0);
                            }
                            assert forall|m: int|
                                0 <= m < self.spec_waiting().len() implies !has_key(
                                self.spec_out_of_order(),
                                (#[trigger] self.spec_waiting()[m]).0,
                            ) by {
                                let key = self.spec_waiting()[m].0;
                                assert(!has_key(o0, key));
                                if has_key(self.spec_out_of_order(), key) {
                                    let j = key_index(self.spec_out_of_order(), key);
                                    assert(o0[j].0 == key);
                                }
                            }
                        }
                        None
                    },
                    None => {
                        self.out_of_order.push((index, reply));
                        proof {
                            let o = self.spec_out_of_order();
                            assert forall|j: int, m: int|
                                0 <= j < m < o.len() implies (#[trigger] o[j]).0 != (
                            #[trigger] o[m]).0 by {
                                if m == o.len() - 1 {
                                    assert(o[j] == old(self).spec_out_of_order()[j]);
                                }
                            }
                            assert forall|m: int|
                                0 <= m < self.spec_waiting().len() implies !has_key(
                                o,
                                (#[trigger] self.spec_waiting()[m]).0,
                            ) by {
                                let key = self.spec_waiting()[m].0;
                                assert(!has_key(old(self).spec_out_of_order(), key));
                                if has_key(o, key) {
                                    let j = key_index(o, key);
                                    assert(o[j].0 == key);
                                    if j < o.len() - 1 {
                                        assert(old(self).spec_out_of_order()[j].0 == key);
                                    }
                                }
                            }
                        }
                        None
                    },
                }
            },
        }
    }

    /// Note that both input channels are exhausted.
    pub fn mark_inputs_finished(&mut self)
        requires
            old(self).well_formed(),
        ensures
            final(self).well_formed(),
            final(self).spec_waiting() == old(self).spec_waiting(),
            final(self).spec_out_of_order() == old(self).spec_out_of_order(),
            final(self).spec_timeout() == old(self).spec_timeout(),
            final(self).spec_final_pass(),
    {
        self.final_pass = true;
    }

    /// Whether the head of the waiting list has outlived its allowance.
    fn head_expired(&self, now: u64) -> (r: bool)
        requires
            self.spec_waiting().len() > 0,
        ensures
            r == spec_expired(
                self.spec_waiting()[0].1.spec_start_time(),
                now,
                self.spec_timeout(),
            ),
    {
        let start = self.waiting[0].1.start_time();
        now >= self.timeout && start <= now - self.timeout
    }

    /// Walk the waiting list in insertion order and remove every context
    /// at its head that has outlived the timeout allowance, emitting its
    /// timeout conclusion.  The walk stops at the first context still
    /// inside its allowance.
    pub fn collect_timeouts(&mut self, now: u64) -> (r: Vec<(C, C::Conclusion)>)
        requires
            old(self).well_formed(),
        ensures
            final(self).well_formed(),
            final(self).spec_timeout() == old(self).spec_timeout(),
            final(self).spec_final_pass() == old(self).spec_final_pass(),
            final(self).spec_out_of_order() == old(self).spec_out_of_order(),
            ({
                let n = spec_gc_count(old(self).spec_waiting(), now, old(self).spec_timeout());
                &&& final(self).spec_waiting() == old(self).spec_waiting().skip(n)
                &&& r@ == timeout_emissions(old(self).spec_waiting().take(n))
            }),
    {
        let ghost w0 = self.waiting@;
        let ghost o0 = self.out_of_order@;
        let ghost timeout = self.timeout;
        let mut out: Vec<(C, C::Conclusion)> = Vec::new();
        proof {
            assert(w0.skip(0int) =~= w0);
            assert(timeout_emissions::<C>(w0.take(0int)) =~= Seq::<(C, C::Conclusion)>::empty());
        }
        while self.waiting.len() > 0 && self.head_expired(now)
            invariant
                entries_distinct(w0),
                entries_distinct(o0),
                forall|m: int| 0 <= m < w0.len() ==> !has_key(o0, (#[trigger] w0[m]).0),
                self.well_formed(),
                self.timeout == timeout,
                self.final_pass == old(self).spec_final_pass(),
                self.out_of_order@ == o0,
                out@.len() <= w0.len(),
                self.waiting@ == w0.skip(out@.len() as int),
                out@ == timeout_emissions(w0.take(out@.len() as int)),
                forall|j: int|
                    0 <= j < out@.len() ==> spec_expired(
                        (#[trigger] w0[j]).1.spec_start_time(),
                        now,
                        timeout,
                    ),
            decreases self.waiting@.len(),
        {
            let ghost j = out@.len() as int;
            let entry = self.waiting.remove(0);
            let conclusion = entry.1.create_timeout_conclusion();
            proof {
                assert(w0.skip(j)[0] == w0[j]);
                assert(w0.skip(j).drop_first() =~= w0.skip(j + 1));
                assert(w0.take(j + 1) =~= w0.take(j).push(w0[j]));
                assert(timeout_emissions(w0.take(j + 1)) =~= timeout_emissions(w0.take(j)).push(
                    (w0[j].1, w0[j].1.spec_timeout_conclusion()),
                ));
                lemma_suffix_entries(w0, j + 1);
                assert forall|m: int|
                    0 <= m < self.spec_waiting().len() implies !has_key(
                    o0,
                    (#[trigger] self.spec_waiting()[m]).0,
                ) by {
                    assert(self.spec_waiting()[m] == w0[m + j + 1]);
                }
            }
            out.push((entry.1, conclusion));
        }
        proof {
            let j = out@.len() as int;
            lemma_gc_count_characterized(w0, now, timeout, j);
        }
        out
    }

    /// Remove every remaining waiting context, emitting its timeout
    /// conclusion, in insertion order.  Used for the final pass once both
    /// inputs are exhausted.
    pub fn drain_all(&mut self) -> (r: Vec<(C, C::Conclusion)>)
        requires
            old(self).well_formed(),
        ensures
            final(self).well_formed(),
            final(self).spec_timeout() == old(self).spec_timeout(),
            final(self).spec_final_pass() == old(self).spec_final_pass(),
            final(self).spec_out_of_order() == old(self).spec_out_of_order(),
            final(self).spec_waiting().len() == 0,
            r@ == timeout_emissions(old(self).spec_waiting()),
    {
        let ghost w0 = self.waiting@;
        let ghost o0 = self.out_of_order@;
        let mut out: Vec<(C, C::Conclusion)> = Vec::new();
        proof {
            assert(w0.skip(0int) =~= w0);
            assert(timeout_emissions::<C>(w0.take(0int)) =~= Seq::<(C, C::Conclusion)>::empty());
        }
        while self.waiting.len() > 0
            invariant
                entries_distinct(w0),
                forall|m: int| 0 <= m < w0.len() ==> !has_key(o0, (#[trigger] w0[m]).0),
                self.well_formed(),
                self.timeout == old(self).spec_timeout(),
                self.final_pass == old(self).spec_final_pass(),
                self.out_of_order@ == o0,
                o0 == old(self).spec_out_of_order(),
                out@.len() <= w0.len(),
                self.waiting@ == w0.skip(out@.len() as int),
                out@ == timeout_emissions(w0.take(out@.len() as int)),
            decreases self.waiting@.len(),
        {
            let ghost j = out@.len() as int;
            let entry = self.waiting.remove(0);
            let conclusion = entry.1.create_timeout_conclusion();
            proof {
                assert(w0.skip(j)[0] == w0[j]);
                assert(w0.skip(j).drop_first() =~= w0.skip(j + 1));
                assert(w0.take(j + 1) =~= w0.take(j).push(w0[j]));
                assert(timeout_emissions(w0.take(j + 1)) =~= timeout_emissions(w0.take(j)).push(
                    (w0[j].1, w0[j].1.spec_timeout_conclusion()),
                ));
                lemma_suffix_entries(w0, j + 1);
                assert forall|m: int|
                    0 <= m < self.spec_waiting().len() implies !has_key(
                    o0,
                    (#[trigger] self.spec_waiting()[m]).0,
                ) by {
                    assert(self.spec_waiting()[m] == w0[m + j + 1]);
                }
            }
            out.push((entry.1, conclusion));
        }
        proof {
            assert(w0.take(w0.len() as int) =~= w0);
        }
        out
    }

    /// One whole wakeup of the reactor, as the per-wakeup algorithm
    /// prescribes: handle whatever the inputs yielded, collect the expired
    /// prefix of the waiting list as timeouts, and, once the inputs are
    /// exhausted, drain every remaining context as a timeout.
    pub fn step(&mut self, event: ReactorEvent<C>, now: u64) -> (r: Vec<(C, C::Conclusion)>)
        requires
            old(self).well_formed(),
        ensures
            final(self).well_formed(),
            final(self).spec_timeout() == old(self).spec_timeout(),
            ({
                let (w, o, fp, em) = spec_step(
                    old(self).spec_waiting(),
                    old(self).spec_out_of_order(),
                    old(self).spec_final_pass(),
                    old(self).spec_timeout(),
                    event,
                    now,
                );
                &&& final(self).spec_waiting() == w
                &&& final(self).spec_out_of_order() == o
                &&& final(self).spec_final_pass() == fp
                &&& r@ == em
            }),
    {
        let mut out: Vec<(C, C::Conclusion)> = Vec::new();
        match event {
            ReactorEvent::Context(index, ctx) => {
                match self.handle_context(index, ctx) {
                    Some(p) => { out.push(p) },
                    None => {},
                }
            },
            ReactorEvent::Reply(index, reply) => {
                match self.handle_reply(index, reply) {
                    Some(p) => { out.push(p) },
                    None => {},
                }
            },
            ReactorEvent::InputsClosed => {
                self.mark_inputs_finished();
            },
            ReactorEvent::Idle => {},
        }
        let mut collected = self.collect_timeouts(now);
        proof {
            let (w1, o1, fp1, em1) = spec_apply_event(
                old(self).spec_waiting(),
                old(self).spec_out_of_order(),
                old(self).spec_final_pass(),
                event,
            );
            assert(out@ + collected@ =~= em1 + timeout_emissions(
                w1.take(spec_gc_count(w1, now, old(self).spec_timeout())),
            ));
        }
        out.append(&mut collected);
        if self.final_pass {
            let mut rest = self.drain_all();
            let ghost before = out@;
            let ghost rest0 = rest@;
            out.append(&mut rest);
            proof {
                assert(out@ =~= before + rest0);
            }
        }
        out
    }
}

/// The sequence an optional emission stands for.
pub open spec fn emission_seq<C: ReactorContext>(r: Option<(C, C::Conclusion)>) -> Seq<
    (C, C::Conclusion),
> {
    match r {
        Some(p) => seq![p],
        None => Seq::empty(),
    }
}

/// Removing an entry keeps the remaining indices distinct, and introduces
/// no index that was not there.
proof fn lemma_remove_keeps_state<T>(entries: Seq<(u64, T)>, k: int)
    requires
        0 <= k < entries.len(),
        entries_distinct(entries),
    ensures
        entries_distinct(entries.remove(k)),
{
    let removed = entries.remove(k);
    assert forall|j: int, m: int|
        0 <= j < m < removed.len() implies (#[trigger] removed[j]).0 != (#[trigger] removed[m]).0
    by {
        let j0 = if j < k { j } else { j + 1 };
        let m0 = if m < k { m } else { m + 1 };
        assert(removed[j] == entries[j0]);
        assert(removed[m] == entries[m0]);
    }
}

/// A key present after a removal was present before it.
proof fn lemma_removed_keys_subset<T>(entries: Seq<(u64, T)>, k: int, key: u64)
    requires
        0 <= k < entries.len(),
        has_key(entries.remove(k), key),
    ensures
        has_key(entries, key),
{
    let removed = entries.remove(k);
    let j = key_index(removed, key);
    assert(removed[j].0 == key);
    let j0 = if j < k { j } else { j + 1 };
    assert(entries[j0] == removed[j]);
}

/// A suffix of a distinct entry list is distinct, and each of its entries
/// is an entry of the whole list.
proof fn lemma_suffix_entries<T>(entries: Seq<(u64, T)>, n: int)
    requires
        0 <= n <= entries.len(),
        entries_distinct(entries),
    ensures
        entries_distinct(entries.skip(n)),
        forall|k: int|
            0 <= k < entries.len() - n ==> (#[trigger] entries.skip(n)[k]) == entries[k + n],
{
    let suffix = entries.skip(n);
    assert forall|j: int, m: int|
        0 <= j < m < suffix.len() implies (#[trigger] suffix[j]).0 != (#[trigger] suffix[m]).0 by {
        assert(suffix[j] == entries[j + n]);
        assert(suffix[m] == entries[m + n]);
    }
}

/// The number of entries the timeout walk removes is characterized by the
/// first entry still inside its allowance: every entry before it has
/// expired, and it has not.
proof fn lemma_gc_count_characterized<C: ReactorContext>(
    waiting: Seq<(u64, C)>,
    now: u64,
    timeout: u64,
    j: int,
)
    requires
        0 <= j <= waiting.len(),
        forall|m: int|
            0 <= m < j ==> spec_expired((#[trigger] waiting[m]).1.spec_start_time(), now, timeout),
        j < waiting.len() ==> !spec_expired(waiting[j].1.spec_start_time(), now, timeout),
    ensures
        spec_gc_count(waiting, now, timeout) == j,
    decreases j,
{
    if j == 0 {
    } else {
        assert(waiting[0] == waiting.drop_first().insert(0, waiting[0])[0]);
        assert forall|m: int|
            0 <= m < j - 1 implies spec_expired(
            (#[trigger] waiting.drop_first()[m]).1.spec_start_time(),
            now,
            timeout,
        ) by {
            assert(waiting.drop_first()[m] == waiting[m + 1]);
        }
        if j - 1 < waiting.drop_first().len() {
            assert(waiting.drop_first()[j - 1] == waiting[j]);
        }
        lemma_gc_count_characterized(waiting.drop_first(), now, timeout, j - 1);
    }
}


/// The cumulative behavior of a reactor driven from a given state by a
/// sequence of wakeups, each an event paired with the time it happens.
pub open spec fn spec_run<C: ReactorContext>(
    waiting: Seq<(u64, C)>,
    out_of_order: Seq<(u64, C::Reply)>,
    final_pass: bool,
    timeout: u64,
    events: Seq<(ReactorEvent<C>, u64)>,
) -> (Seq<(u64, C)>, Seq<(u64, C::Reply)>, bool, Seq<(C, C::Conclusion)>)
    decreases events.len(),
{
    if events.len() == 0 {
        (waiting, out_of_order, final_pass, Seq::empty())
    } else {
        let (w1, o1, fp1, em1) = spec_step(
            waiting,
            out_of_order,
            final_pass,
            timeout,
            events[0].0,
            events[0].1,
        );
        let (w2, o2, fp2, em2) = spec_run(w1, o1, fp1, timeout, events.drop_first());
        (w2, o2, fp2, em1 + em2)
    }
}

/// How many contexts a wakeup sequence inserts.
pub open spec fn context_count<C: ReactorContext>(events: Seq<(ReactorEvent<C>, u64)>) -> int
    decreases events.len(),
{
    if events.len() == 0 {
        0int
    } else {
        (if events[0].0 is Context {
            1int
        } else {
            0int
        }) + context_count(events.drop_first())
    }
}

/// Whether the wakeup sequence announces the end of the inputs.
pub open spec fn has_close<C: ReactorContext>(events: Seq<(ReactorEvent<C>, u64)>) -> bool
    decreases events.len(),
{
    if events.len() == 0 {
        false
    } else {
        events[0].0 is InputsClosed || has_close(events.drop_first())
    }
}

/// No two context events of the wakeup sequence share an index.  Reusing
/// an index while it is outstanding is a caller error: the older context
/// would be superseded and dropped without a conclusion.
pub open spec fn distinct_context_indices<C: ReactorContext>(
    events: Seq<(ReactorEvent<C>, u64)>,
) -> bool {
    forall|j: int, k: int|
        0 <= j < k < events.len() && (#[trigger] events[j]).0 is Context && (
        #[trigger] events[k]).0 is Context ==> events[j].0->Context_0 != events[k].0->Context_0
}

/// Whether some context event of the sequence carries the index.
pub open spec fn context_event_with<C: ReactorContext>(
    events: Seq<(ReactorEvent<C>, u64)>,
    index: u64,
) -> bool {
    exists|k: int|
        0 <= k < events.len() && (#[trigger] events[k]).0 is Context && events[k].0->Context_0
            == index
}

/// The timeout walk removes between none and all of the waiting entries.
proof fn lemma_gc_count_bounds<C: ReactorContext>(waiting: Seq<(u64, C)>, now: u64, timeout: u64)
    ensures
        0 <= spec_gc_count(waiting, now, timeout) <= waiting.len(),
    decreases waiting.len(),
{
    if waiting.len() > 0 && spec_expired(waiting[0].1.spec_start_time(), now, timeout) {
        lemma_gc_count_bounds(waiting.drop_first(), now, timeout);
    }
}

/// The accounting of one wakeup: it concludes exactly one context per
/// context inserted or removed, it never invents a waiting entry, and once
/// the inputs are closed the waiting list is empty.
proof fn lemma_step_count<C: ReactorContext>(
    w: Seq<(u64, C)>,
    o: Seq<(u64, C::Reply)>,
    fp: bool,
    timeout: u64,
    event: ReactorEvent<C>,
    now: u64,
)
    requires
        fp ==> w.len() == 0,
        event is Context ==> !has_key(w, event->Context_0),
    ensures
        ({
            let (w2, o2, fp2, em) = spec_step(w, o, fp, timeout, event, now);
            &&& em.len() + w2.len() == w.len() + (if event is Context {
                1int
            } else {
                0int
            })
            &&& fp2 == (fp || event is InputsClosed)
            &&& (fp2 ==> w2.len() == 0)
            &&& forall|key: u64|
                has_key(w2, key) ==> has_key(w, key) || (event is Context && event->Context_0
                    == key)
        }),
{
    let (w1, o1, fp1, em1) = spec_apply_event(w, o, fp, event);
    lemma_gc_count_bounds(w1, now, timeout);
    let n = spec_gc_count(w1, now, timeout);
    let (w2, o2, fp2, em) = spec_step(w, o, fp, timeout, event, now);
    assert(timeout_emissions(w1.take(n)).len() == n);
    assert(timeout_emissions(w1.skip(n)).len() == w1.len() - n);
    assert forall|key: u64| has_key(w1.skip(n), key) implies has_key(w1, key) by {
        let k = key_index(w1.skip(n), key);
        assert(w1.skip(n)[k] == w1[k + n]);
    }
    match event {
        ReactorEvent::Context(index, ctx) => {
            if has_key(o, index) {
                assert(w1 == w);
            } else {
                assert(w1 == w.push((index, ctx)));
                assert forall|key: u64| has_key(w1, key) implies has_key(w, key) || key == index by {
                    let k = key_index(w1, key);
                    if k < w.len() {
                        assert(w[k].0 == key);
                    }
                }
            }
        },
        ReactorEvent::Reply(index, reply) => {
            if has_key(w, index) {
                let k = key_index(w, index);
                assert(w1 == w.remove(k));
                assert forall|key: u64| has_key(w1, key) implies has_key(w, key) by {
                    lemma_removed_keys_subset(w, k, key);
                }
            } else {
                assert(w1 == w);
            }
        },
        ReactorEvent::InputsClosed => {
            assert(w1 == w);
        },
        ReactorEvent::Idle => {
            assert(w1 == w);
        },
    }
}

/// The accounting of a whole run, from any state whose outstanding
/// contexts do not collide with the contexts still to come.
proof fn lemma_run_count<C: ReactorContext>(
    w: Seq<(u64, C)>,
    o: Seq<(u64, C::Reply)>,
    fp: bool,
    timeout: u64,
    events: Seq<(ReactorEvent<C>, u64)>,
)
    requires
        fp ==> w.len() == 0,
        distinct_context_indices(events),
        forall|k: int|
            0 <= k < events.len() && (#[trigger] events[k]).0 is Context ==> !has_key(
                w,
                events[k].0->Context_0,
            ),
    ensures
        ({
            let (w2, o2, fp2, em) = spec_run(w, o, fp, timeout, events);
            &&& em.len() + w2.len() == w.len() + context_count(events)
            &&& fp2 == (fp || has_close(events))
            &&& (fp2 ==> w2.len() == 0)
            &&& forall|key: u64|
                has_key(w2, key) ==> has_key(w, key) || context_event_with(events, key)
        }),
    decreases events.len(),
{
    if events.len() == 0 {
    } else {
        let ev = events[0].0;
        let now = events[0].1;
        let rest = events.drop_first();
        lemma_step_count(w, o, fp, timeout, ev, now);
        let (w1, o1, fp1, em1) = spec_step(w, o, fp, timeout, ev, now);
        assert forall|k: int|
            0 <= k < rest.len() && (#[trigger] rest[k]).0 is Context implies !has_key(
            w1,
            rest[k].0->Context_0,
        ) by {
            assert(rest[k] == events[k + 1]);
            let key = rest[k].0->Context_0;
            if has_key(w1, key) {
                assert(has_key(w, key) || (ev is Context && ev->Context_0 == key));
            }
        }
        assert forall|j: int, k: int|
            0 <= j < k < rest.len() && (#[trigger] rest[j]).0 is Context && (
        #[trigger] rest[k]).0 is Context implies rest[j].0->Context_0 != rest[k].0->Context_0 by {
            assert(rest[j] == events[j + 1]);
            assert(rest[k] == events[k + 1]);
        }
        lemma_run_count(w1, o1, fp1, timeout, rest);
        let (w2, o2, fp2, em2) = spec_run(w1, o1, fp1, timeout, rest);
        assert forall|key: u64|
            has_key(w2, key) implies has_key(w, key) || context_event_with(events, key) by {
            if has_key(w2, key) {
                if context_event_with(rest, key) {
                    let k = choose|k: int|
                        0 <= k < rest.len() && (#[trigger] rest[k]).0 is Context
                            && rest[k].0->Context_0 == key;
                    assert(events[k + 1] == rest[k]);
                } else if !has_key(w1, key) {
                    assert(false);
                } else if !has_key(w, key) {
                    assert(ev is Context && ev->Context_0 == key);
                    assert(events[0].0 is Context && events[0].0->Context_0 == key);
                }
            }
        }
    }
}

/// The conclusion law of the reactor: drive a fresh reactor with any
/// wakeup sequence whose context indices are distinct and which announces
/// the end of its inputs, and the number of emitted conclusions equals the
/// number of inserted contexts — every context is concluded exactly once,
/// whether matched by a reply or timed out, and nothing else is ever
/// emitted.
pub proof fn lemma_reactor_concludes_each_context_once<C: ReactorContext>(
    timeout: u64,
    events: Seq<(ReactorEvent<C>, u64)>,
)
    requires
        distinct_context_indices(events),
        has_close(events),
    ensures
        spec_run(
            Seq::<(u64, C)>::empty(),
            Seq::<(u64, C::Reply)>::empty(),
            false,
            timeout,
            events,
        ).3.len() == context_count(events),
{
    lemma_run_count(
        Seq::<(u64, C)>::empty(),
        Seq::<(u64, C::Reply)>::empty(),
        false,
        timeout,
        events,
    );
}

/// The waiting list is ordered by start time.  The driver inserts contexts
/// as their requests start, so insertion order is start-time order.
pub open spec fn starts_ordered<C: ReactorContext>(waiting: Seq<(u64, C)>) -> bool {
    forall|j: int, k: int|
        0 <= j <= k < waiting.len() ==> (#[trigger] waiting[j]).1.spec_start_time() <= (
        #[trigger] waiting[k]).1.spec_start_time()
}

/// The timeout walk stops at the list's end or at an entry still inside
/// its allowance.
proof fn lemma_gc_count_stop<C: ReactorContext>(waiting: Seq<(u64, C)>, now: u64, timeout: u64)
    ensures
        spec_gc_count(waiting, now, timeout) == waiting.len() || (0 <= spec_gc_count(
            waiting,
            now,
            timeout,
        ) < waiting.len() && !spec_expired(
            waiting[spec_gc_count(waiting, now, timeout)].1.spec_start_time(),
            now,
            timeout,
        )),
    decreases waiting.len(),
{
    lemma_gc_count_bounds(waiting, now, timeout);
    if waiting.len() > 0 && spec_expired(waiting[0].1.spec_start_time(), now, timeout) {
        lemma_gc_count_stop(waiting.drop_first(), now, timeout);
        let m = spec_gc_count(waiting.drop_first(), now, timeout);
        if m < waiting.len() - 1 {
            assert(waiting.drop_first()[m] == waiting[m + 1]);
        }
    }
}

/// The timeout completeness law of a wakeup: when the waiting list is in
/// start-time order, the timeout walk of a wakeup at time `now` removes
/// every context that has outlived its allowance — none remains waiting
/// past its deadline once the wakeup has run.
pub proof fn lemma_gc_complete<C: ReactorContext>(waiting: Seq<(u64, C)>, now: u64, timeout: u64)
    requires
        starts_ordered(waiting),
    ensures
        forall|k: int|
            spec_gc_count(waiting, now, timeout) <= k < waiting.len() ==> !spec_expired(
                (#[trigger] waiting[k]).1.spec_start_time(),
                now,
                timeout,
            ),
{
    lemma_gc_count_stop(waiting, now, timeout);
    let n = spec_gc_count(waiting, now, timeout);
    assert forall|k: int| n <= k < waiting.len() implies !spec_expired(
        (#[trigger] waiting[k]).1.spec_start_time(),
        now,
        timeout,
    ) by {
        assert(waiting[n].1.spec_start_time() <= waiting[k].1.spec_start_time());
    }
}

/// The bounded-latency law of the periodic timer: when consecutive wakeups
/// are never more than `grace` apart, and the wakeups bracket a deadline,
/// some wakeup falls within `grace` after the deadline.  With
/// `grace == timeout / 5`, a context whose deadline `start + timeout` is
/// bracketed by the wakeups is therefore visited by a timeout walk no
/// later than `start + timeout + timeout / 5`; by the completeness law
/// that walk cannot leave it waiting.
pub proof fn lemma_wakeup_within_grace(wakeups: Seq<u64>, deadline: u64, grace: u64)
    requires
        wakeups.len() > 0,
        forall|j: int| 0 < j < wakeups.len() ==> (#[trigger] wakeups[j]) <= wakeups[j - 1] + grace,
        wakeups[0] <= deadline,
        deadline <= wakeups[wakeups.len() - 1],
    ensures
        exists|j: int|
            0 <= j < wakeups.len() && deadline <= #[trigger] wakeups[j] <= deadline + grace,
    decreases wakeups.len(),
{
    if wakeups[0] >= deadline {
        assert(deadline <= wakeups[0] <= deadline + grace);
    } else {
        assert(wakeups.len() >= 2);
        if wakeups[1] >= deadline {
            assert(wakeups[1] <= wakeups[0] + grace);
            assert(deadline <= wakeups[1] <= deadline + grace);
        } else {
            let rest = wakeups.drop_first();
            assert forall|j: int| 0 < j < rest.len() implies (#[trigger] rest[j]) <= rest[j - 1]
                + grace by {
                assert(rest[j] == wakeups[j + 1]);
                assert(rest[j - 1] == wakeups[j]);
            }
            assert(rest[rest.len() - 1] == wakeups[wakeups.len() - 1]);
            lemma_wakeup_within_grace(rest, deadline, grace);
            let j = choose|j: int|
                0 <= j < rest.len() && deadline <= #[trigger] rest[j] <= deadline + grace;
            assert(wakeups[j + 1] == rest[j]);
        }
    }
}


/// Removing one entry keeps a start-ordered waiting list ordered.
proof fn lemma_remove_keeps_ordered<C: ReactorContext>(waiting: Seq<(u64, C)>, i: int)
    requires
        0 <= i < waiting.len(),
        starts_ordered(waiting),
    ensures
        starts_ordered(waiting.remove(i)),
{
    let removed = waiting.remove(i);
    assert forall|j: int, k: int|
        0 <= j <= k < removed.len() implies (#[trigger] removed[j]).1.spec_start_time() <= (
    #[trigger] removed[k]).1.spec_start_time() by {
        let j0 = if j < i {
            j
        } else {
            j + 1
        };
        let k0 = if k < i {
            k
        } else {
            k + 1
        };
        assert(removed[j] == waiting[j0]);
        assert(removed[k] == waiting[k0]);
    }
}

/// The timeout-latency law at the level of one whole wakeup: when the
/// waiting list is in start-time order and an arriving context is the
/// newest request under a fresh index — which is how the driver inserts
/// them — then after [`spec_step`] runs at time `now`, no context remains
/// waiting whose deadline `start + timeout` has passed.  Together with
/// [`lemma_wakeup_within_grace`], which places a wakeup no later than
/// `start + timeout + timeout / 5` past any bracketed deadline, a request
/// that is never matched is concluded as a timeout by that wakeup at the
/// latest.
pub proof fn lemma_step_leaves_no_expired<C: ReactorContext>(
    waiting: Seq<(u64, C)>,
    out_of_order: Seq<(u64, C::Reply)>,
    final_pass: bool,
    timeout: u64,
    event: ReactorEvent<C>,
    now: u64,
)
    requires
        starts_ordered(waiting),
        event is Context ==> !has_key(waiting, event->Context_0),
        event is Context ==> forall|k: int|
            0 <= k < waiting.len() ==> (#[trigger] waiting[k]).1.spec_start_time()
                <= event->Context_1.spec_start_time(),
    ensures
        ({
            let (w2, o2, fp2, em) = spec_step(
                waiting,
                out_of_order,
                final_pass,
                timeout,
                event,
                now,
            );
            forall|k: int|
                0 <= k < w2.len() ==> !spec_expired(
                    (#[trigger] w2[k]).1.spec_start_time(),
                    now,
                    timeout,
                )
        }),
{
    let (w1, o1, fp1, em1) = spec_apply_event(waiting, out_of_order, final_pass, event);
    assert(starts_ordered(w1)) by {
        match event {
            ReactorEvent::Context(index, ctx) => {
                if !has_key(out_of_order, index) {
                    assert(w1 == waiting.push((index, ctx)));
                    assert forall|j: int, k: int|
                        0 <= j <= k < w1.len() implies (#[trigger] w1[j]).1.spec_start_time() <= (
                    #[trigger] w1[k]).1.spec_start_time() by {
                        if k == w1.len() - 1 {
                            if j < k {
                                assert(w1[j] == waiting[j]);
                            }
                        } else {
                            assert(w1[j] == waiting[j]);
                            assert(w1[k] == waiting[k]);
                        }
                    }
                }
            },
            ReactorEvent::Reply(index, reply) => {
                if has_key(waiting, index) {
                    lemma_remove_keeps_ordered(waiting, key_index(waiting, index));
                }
            },
            ReactorEvent::InputsClosed => {},
            ReactorEvent::Idle => {},
        }
    }
    lemma_gc_complete(w1, now, timeout);
    let n = spec_gc_count(w1, now, timeout);
    lemma_gc_count_bounds(w1, now, timeout);
    let (w2, o2, fp2, em) = spec_step(waiting, out_of_order, final_pass, timeout, event, now);
    if !fp1 {
        assert forall|k: int|
            0 <= k < w2.len() implies !spec_expired(
            (#[trigger] w2[k]).1.spec_start_time(),
            now,
            timeout,
        ) by {
            assert(w2[k] == w1[k + n]);
        }
    }
}

} // verus!
