//! The matching law of the reactor: what a whole run emits.
//!
//! For a finite run — contexts and replies in any interleaving, each
//! reply following its own request, ending when the inputs close — the
//! reactor's output is exactly one conclusion per context: the reply
//! conclusion for every context whose reply arrived, and the timeout
//! conclusion for every context whose reply never came.  This module
//! states and proves that as a law over [`crate::reactor::spec_run`],
//! for runs in which no request outlives its timeout allowance while the
//! inputs are still open; mid-run expiry is the business of the timeout
//! laws beside [`crate::reactor::lemma_gc_complete`].

use vstd::multiset::Multiset;
use vstd::prelude::*;
use vstd::seq_lib::lemma_multiset_commutative;

use crate::reactor::{
    distinct_context_indices, entries_distinct, has_key, key_index, spec_apply_event, spec_gc_count,
    spec_run, spec_step, timeout_emissions, ReactorContext, ReactorEvent,
};

verus! {

/// Whether some event of the sequence is a reply carrying the index.
pub open spec fn has_reply_for<C: ReactorContext>(
    events: Seq<(ReactorEvent<C>, u64)>,
    index: u64,
) -> bool
    decreases events.len(),
{
    if events.len() == 0 {
        false
    } else if events[0].0 is Reply && events[0].0->Reply_0 == index {
        true
    } else {
        has_reply_for(events.drop_first(), index)
    }
}

/// The payload of the first reply carrying the index.
pub open spec fn first_reply_for<C: ReactorContext>(
    events: Seq<(ReactorEvent<C>, u64)>,
    index: u64,
) -> C::Reply
    decreases events.len(),
{
    if events.len() == 0 {
        arbitrary()
    } else if events[0].0 is Reply && events[0].0->Reply_0 == index {
        events[0].0->Reply_1
    } else {
        first_reply_for(events.drop_first(), index)
    }
}

/// The conclusion one outstanding request is owed, given the events still
/// to come: the conclusion from its reply when one will arrive, its
/// timeout conclusion otherwise.
pub open spec fn expected_conclusion_for<C: ReactorContext>(
    index: u64,
    ctx: C,
    future: Seq<(ReactorEvent<C>, u64)>,
) -> (C, C::Conclusion) {
    if has_reply_for(future, index) {
        (ctx, ctx.spec_conclusion(first_reply_for(future, index)))
    } else {
        (ctx, ctx.spec_timeout_conclusion())
    }
}

/// What every entry of a waiting list is owed, given the events to come.
pub open spec fn expected_for_waiting<C: ReactorContext>(
    waiting: Seq<(u64, C)>,
    future: Seq<(ReactorEvent<C>, u64)>,
) -> Seq<(C, C::Conclusion)> {
    waiting.map_values(|e: (u64, C)| expected_conclusion_for(e.0, e.1, future))
}

/// What every context the events insert is owed: each context event's
/// conclusion is decided by the events after it.
pub open spec fn expected_for_contexts<C: ReactorContext>(
    events: Seq<(ReactorEvent<C>, u64)>,
) -> Seq<(C, C::Conclusion)>
    decreases events.len(),
{
    if events.len() == 0 {
        Seq::empty()
    } else {
        let rest = expected_for_contexts(events.drop_first());
        if events[0].0 is Context {
            seq![
                expected_conclusion_for(
                    events[0].0->Context_0,
                    events[0].0->Context_1,
                    events.drop_first(),
                ),
            ] + rest
        } else {
            rest
        }
    }
}

/// No two reply events of the sequence share an index.
pub open spec fn distinct_reply_indices<C: ReactorContext>(
    events: Seq<(ReactorEvent<C>, u64)>,
) -> bool {
    forall|j: int, k: int|
        0 <= j < k < events.len() && (#[trigger] events[j]).0 is Reply && (
        #[trigger] events[k]).0 is Reply ==> events[j].0->Reply_0 != events[k].0->Reply_0
}

/// Every reply is for a request of this run, and follows it: its index is
/// an initially waiting one, or an earlier context event's.
pub open spec fn replies_follow_requests<C: ReactorContext>(
    waiting: Seq<(u64, C)>,
    events: Seq<(ReactorEvent<C>, u64)>,
) -> bool {
    forall|k: int|
        0 <= k < events.len() && (#[trigger] events[k]).0 is Reply ==> has_key(
            waiting,
            events[k].0->Reply_0,
        ) || (exists|j: int|
            0 <= j < k && (#[trigger] events[j]).0 is Context && events[j].0->Context_0
                == events[k].0->Reply_0)
}

/// No wakeup of the run reaches the deadline of any request, initially
/// waiting or inserted by the events, while the inputs are open.
pub open spec fn no_expiry_during_run<C: ReactorContext>(
    waiting: Seq<(u64, C)>,
    events: Seq<(ReactorEvent<C>, u64)>,
    timeout: u64,
) -> bool {
    &&& forall|k: int, m: int|
        0 <= k < waiting.len() && 0 <= m < events.len() ==> (#[trigger] events[m]).1 < (
        #[trigger] waiting[k]).1.spec_start_time() + timeout
    &&& forall|j: int, m: int|
        0 <= j < events.len() && 0 <= m < events.len() && (#[trigger] events[j]).0 is Context
            ==> (#[trigger] events[m]).1 < events[j].0->Context_1.spec_start_time() + timeout
}

/// The run ends exactly once: its last event closes the inputs, and no
/// earlier one does.
pub open spec fn closes_at_end<C: ReactorContext>(events: Seq<(ReactorEvent<C>, u64)>) -> bool {
    &&& events.len() > 0
    &&& events[events.len() - 1].0 is InputsClosed
    &&& forall|k: int| 0 <= k < events.len() - 1 ==> !((#[trigger] events[k]).0 is InputsClosed)
}

/// The generalized induction behind the matching law, from any waiting
/// list the run may start with.
proof fn lemma_run_matches_from<C: ReactorContext>(
    waiting: Seq<(u64, C)>,
    out_of_order: Seq<(u64, C::Reply)>,
    timeout: u64,
    events: Seq<(ReactorEvent<C>, u64)>,
)
    requires
        entries_distinct(waiting),
        out_of_order.len() == 0,
        distinct_context_indices(events),
        forall|k: int|
            0 <= k < events.len() && (#[trigger] events[k]).0 is Context ==> !has_key(
                waiting,
                events[k].0->Context_0,
            ),
        distinct_reply_indices(events),
        replies_follow_requests(waiting, events),
        no_expiry_during_run(waiting, events, timeout),
        closes_at_end(events),
    ensures
        spec_run(waiting, out_of_order, false, timeout, events).3.to_multiset()
            == expected_for_waiting(waiting, events).to_multiset().add(
            expected_for_contexts(events).to_multiset(),
        ),
    decreases events.len(),
{
    broadcast use vstd::seq_lib::group_to_multiset_ensures;
    broadcast use vstd::multiset::group_multiset_axioms;
    broadcast use lemma_multiset_commutative;

    let event = events[0].0;
    let now = events[0].1;
    let rest = events.drop_first();
    let (w1, o1, fp1, em1) = spec_apply_event(waiting, out_of_order, false, event);
    let (w2, o2, fp2, em) = spec_step(waiting, out_of_order, false, timeout, event, now);
    let run_out = spec_run(waiting, out_of_order, false, timeout, events).3;

    if events.len() == 1 {
        // The run is just the close: everything waiting is drained as a
        // timeout, and that is exactly what each entry is owed, since no
        // reply is to come.
        assert(event is InputsClosed);
        assert(w1 == waiting && o1 == out_of_order && fp1);
        lemma_gc_empty_when_unexpired(w1, events, timeout, 0);
        assert(em =~= timeout_emissions(w1.take(0int)) + timeout_emissions(w1.skip(0int)));
        assert(w1.take(0int) =~= Seq::<(u64, C)>::empty());
        assert(timeout_emissions(w1.take(0int)) =~= Seq::<(C, C::Conclusion)>::empty());
        assert(w1.skip(0int) =~= w1);
        assert(em =~= timeout_emissions(waiting));
        assert(expected_for_waiting(waiting, events) =~= timeout_emissions(waiting)) by {
            assert forall|k: int| 0 <= k < waiting.len() implies expected_for_waiting(
                waiting,
                events,
            )[k] == timeout_emissions(waiting)[k] by {
                lemma_no_reply_means_timeout(waiting[k].0, waiting[k].1, events);
            }
        }
        assert(expected_for_contexts(events) =~= Seq::<(C, C::Conclusion)>::empty());
        assert(spec_run(w2, o2, fp2, timeout, rest).3 =~= Seq::<(C, C::Conclusion)>::empty());
        assert(run_out =~= em + spec_run(w2, o2, fp2, timeout, rest).3);
        assert(run_out =~= timeout_emissions(waiting));
        assert(run_out.to_multiset() =~= expected_for_waiting(waiting, events).to_multiset().add(
            expected_for_contexts(events).to_multiset(),
        ));
    } else {
        assert(!(event is InputsClosed));
        assert(!fp1);
        match event {
            ReactorEvent::Context(index, ctx) => {
                // A fresh context joins the waiting list; nothing can be
                // emitted for it yet.
                assert(!has_key(out_of_order, index));
                assert(!has_key(waiting, index));
                assert(w1 == waiting.push((index, ctx)) && o1 == out_of_order);
                assert(em1 =~= Seq::<(C, C::Conclusion)>::empty());
                lemma_push_distinct(waiting, index, ctx);
                lemma_no_gc(w1, waiting, events, timeout, index, ctx);
                assert(w2 == w1 && em =~= em1 + timeout_emissions(
                    w1.take(spec_gc_count(w1, now, timeout)),
                ));
                assert(em =~= Seq::<(C, C::Conclusion)>::empty());
                lemma_conditions_shift_context(waiting, events, timeout, index, ctx);
                lemma_run_matches_from(w1, o1, timeout, rest);
                // The expected conclusions bookkeeping: the head being a
                // context changes nothing about which replies are to come.
                assert(expected_for_waiting(waiting, events) =~= expected_for_waiting(
                    waiting,
                    rest,
                )) by {
                    assert forall|k: int| 0 <= k < waiting.len() implies expected_for_waiting(
                        waiting,
                        events,
                    )[k] == expected_for_waiting(waiting, rest)[k] by {
                        lemma_reply_lookup_skips_head(waiting[k].0, events);
                    }
                }
                assert(expected_for_waiting(w1, rest) =~= expected_for_waiting(waiting, rest).push(
                    expected_conclusion_for(index, ctx, rest),
                ));
                assert(expected_for_contexts(events) =~= seq![
                    expected_conclusion_for(index, ctx, rest),
                ] + expected_for_contexts(rest));
                assert(run_out =~= em + spec_run(w1, o1, fp1, timeout, rest).3);
                assert(run_out.to_multiset() =~= spec_run(w1, o1, fp1, timeout, rest).3.to_multiset());
                assert(run_out.to_multiset() =~= expected_for_waiting(waiting, events).to_multiset()
                    .add(expected_for_contexts(events).to_multiset()));
            },
            ReactorEvent::Reply(index, reply) => {
                // The reply's request is outstanding right now: it is
                // matched and concluded, and that is exactly what that
                // entry was owed.
                assert(has_key(waiting, index)) by {
                    assert(events[0].0 is Reply && events[0].0->Reply_0 == index);
                }
                let ki = key_index(waiting, index);
                assert(0 <= ki < waiting.len() && waiting[ki].0 == index);
                assert(w1 == waiting.remove(ki) && o1 == out_of_order);
                assert(em1 =~= seq![(waiting[ki].1, waiting[ki].1.spec_conclusion(reply))]);
                lemma_remove_distinct(waiting, ki);
                lemma_no_gc_after_remove(w1, waiting, ki, events, timeout);
                assert(w2 == w1 && em =~= em1);
                lemma_conditions_shift_reply(waiting, events, timeout, index, ki);
                lemma_run_matches_from(w1, o1, timeout, rest);
                // The matched entry was owed exactly this conclusion.
                assert(has_reply_for(events, index) && first_reply_for(events, index) == reply);
                assert(expected_conclusion_for(index, waiting[ki].1, events) == (
                    waiting[ki].1,
                    waiting[ki].1.spec_conclusion(reply),
                ));
                // Every other entry is owed the same with or without this
                // reply at the head.
                assert(expected_for_waiting(w1, rest) =~= expected_for_waiting(
                    waiting,
                    events,
                ).remove(ki)) by {
                    assert forall|k: int| 0 <= k < w1.len() implies expected_for_waiting(
                        w1,
                        rest,
                    )[k] == expected_for_waiting(waiting, events).remove(ki)[k] by {
                        let k0 = if k < ki {
                            k
                        } else {
                            k + 1
                        };
                        assert(w1[k] == waiting[k0]);
                        assert(waiting[k0].0 != index);
                        lemma_reply_lookup_skips_head(waiting[k0].0, events);
                    }
                }
                assert(expected_for_contexts(events) =~= expected_for_contexts(rest));
                assert(expected_for_waiting(waiting, events).to_multiset()
                    =~= expected_for_waiting(waiting, events).remove(ki).to_multiset().insert(
                    expected_for_waiting(waiting, events)[ki],
                ));
                assert(expected_for_waiting(waiting, events)[ki] == (
                    waiting[ki].1,
                    waiting[ki].1.spec_conclusion(reply),
                ));
                assert(run_out =~= em + spec_run(w1, o1, fp1, timeout, rest).3);
                assert(run_out.to_multiset() =~= spec_run(
                    w1,
                    o1,
                    fp1,
                    timeout,
                    rest,
                ).3.to_multiset().insert((waiting[ki].1, waiting[ki].1.spec_conclusion(reply))));
                assert(run_out.to_multiset() =~= expected_for_waiting(waiting, events).to_multiset()
                    .add(expected_for_contexts(events).to_multiset()));
            },
            ReactorEvent::InputsClosed => {
                assert(false);
            },
            ReactorEvent::Idle => {
                assert(w1 == waiting && o1 == out_of_order);
                assert(em1 =~= Seq::<(C, C::Conclusion)>::empty());
                lemma_gc_empty_when_unexpired(w1, events, timeout, 0);
                assert(w2 == w1 && em =~= Seq::<(C, C::Conclusion)>::empty());
                lemma_conditions_shift_idle(waiting, events, timeout);
                lemma_run_matches_from(w1, o1, timeout, rest);
                assert(expected_for_waiting(waiting, events) =~= expected_for_waiting(
                    waiting,
                    rest,
                )) by {
                    assert forall|k: int| 0 <= k < waiting.len() implies expected_for_waiting(
                        waiting,
                        events,
                    )[k] == expected_for_waiting(waiting, rest)[k] by {
                        lemma_reply_lookup_skips_head(waiting[k].0, events);
                    }
                }
                assert(expected_for_contexts(events) =~= expected_for_contexts(rest));
                assert(run_out =~= em + spec_run(w1, o1, fp1, timeout, rest).3);
                assert(run_out.to_multiset() =~= expected_for_waiting(waiting, events).to_multiset()
                    .add(expected_for_contexts(events).to_multiset()));
            },
        }
    }
}

/// The matching law of the reactor (the request/reply correlation law):
/// drive a fresh reactor with any finite wakeup sequence in which context
/// indices are distinct, reply indices are distinct, every reply follows
/// its own request, no request reaches its deadline while the inputs are
/// open, and the inputs close at the end — then the multiset of emitted
/// conclusions is exactly one per context: the conclusion from its reply
/// for every context whose reply arrives, and its timeout conclusion for
/// every context whose reply never does.
pub proof fn lemma_reactor_matches_replies<C: ReactorContext>(
    timeout: u64,
    events: Seq<(ReactorEvent<C>, u64)>,
)
    requires
        distinct_context_indices(events),
        distinct_reply_indices(events),
        replies_follow_requests(Seq::<(u64, C)>::empty(), events),
        no_expiry_during_run(Seq::<(u64, C)>::empty(), events, timeout),
        closes_at_end(events),
    ensures
        spec_run(
            Seq::<(u64, C)>::empty(),
            Seq::<(u64, C::Reply)>::empty(),
            false,
            timeout,
            events,
        ).3.to_multiset() == expected_for_contexts(events).to_multiset(),
{
    broadcast use vstd::multiset::group_multiset_axioms;
    broadcast use vstd::seq_lib::group_to_multiset_ensures;
    broadcast use vstd::multiset::lemma_multiset_empty_len;

    lemma_run_matches_from(
        Seq::<(u64, C)>::empty(),
        Seq::<(u64, C::Reply)>::empty(),
        timeout,
        events,
    );
    assert(expected_for_waiting(Seq::<(u64, C)>::empty(), events) =~= Seq::<
        (C, C::Conclusion),
    >::empty());
    assert(Seq::<(C, C::Conclusion)>::empty().to_multiset().len() == 0);
    assert(Seq::<(C, C::Conclusion)>::empty().to_multiset() =~= Multiset::<
        (C, C::Conclusion),
    >::empty());
    assert(Multiset::<(C, C::Conclusion)>::empty().add(
        expected_for_contexts(events).to_multiset(),
    ) =~= expected_for_contexts(events).to_multiset());
}

/// When no reply for the index is to come, the owed conclusion is the
/// timeout conclusion.
proof fn lemma_no_reply_means_timeout<C: ReactorContext>(
    index: u64,
    ctx: C,
    events: Seq<(ReactorEvent<C>, u64)>,
)
    requires
        forall|k: int| 0 <= k < events.len() ==> !((#[trigger] events[k]).0 is Reply),
    ensures
        expected_conclusion_for(index, ctx, events) == (ctx, ctx.spec_timeout_conclusion()),
    decreases events.len(),
{
    if events.len() > 0 {
        assert forall|k: int|
            0 <= k < events.drop_first().len() implies !(
        (#[trigger] events.drop_first()[k]).0 is Reply) by {
            assert(events.drop_first()[k] == events[k + 1]);
        }
        lemma_no_reply_means_timeout(index, ctx, events.drop_first());
    }
}

/// A head event that is not a reply for the index changes neither whether
/// a reply for it is to come nor which one comes first.
proof fn lemma_reply_lookup_skips_head<C: ReactorContext>(
    index: u64,
    events: Seq<(ReactorEvent<C>, u64)>,
)
    requires
        events.len() > 0,
        !(events[0].0 is Reply && events[0].0->Reply_0 == index),
    ensures
        has_reply_for(events, index) == has_reply_for(events.drop_first(), index),
        has_reply_for(events, index) ==> first_reply_for(events, index) == first_reply_for(
            events.drop_first(),
            index,
        ),
{
}

/// Pushing an entry under a fresh index keeps the indices distinct.
proof fn lemma_push_distinct<C>(waiting: Seq<(u64, C)>, index: u64, ctx: C)
    requires
        entries_distinct(waiting),
        !has_key(waiting, index),
    ensures
        entries_distinct(waiting.push((index, ctx))),
{
    let pushed = waiting.push((index, ctx));
    assert forall|j: int, k: int|
        0 <= j < k < pushed.len() implies (#[trigger] pushed[j]).0 != (#[trigger] pushed[k]).0 by {
        if k == pushed.len() - 1 {
            assert(pushed[j] == waiting[j]);
        }
    }
}

/// Removing an entry keeps the indices distinct.
proof fn lemma_remove_distinct<C>(waiting: Seq<(u64, C)>, i: int)
    requires
        entries_distinct(waiting),
        0 <= i < waiting.len(),
    ensures
        entries_distinct(waiting.remove(i)),
{
    let removed = waiting.remove(i);
    assert forall|j: int, k: int|
        0 <= j < k < removed.len() implies (#[trigger] removed[j]).0 != (#[trigger] removed[k]).0
    by {
        let j0 = if j < i {
            j
        } else {
            j + 1
        };
        let k0 = if k < i {
            k
        } else {
            k + 1
        };
        assert(removed[j] == waiting[j0]);
        assert(removed[k] == waiting[k0]);
    }
}

/// With every deadline ahead of every wakeup, a timeout walk at any of the
/// run's wakeups removes nothing.
proof fn lemma_gc_empty_when_unexpired<C: ReactorContext>(
    waiting: Seq<(u64, C)>,
    events: Seq<(ReactorEvent<C>, u64)>,
    timeout: u64,
    m: int,
)
    requires
        0 <= m < events.len(),
        forall|k: int|
            0 <= k < waiting.len() ==> events[m].1 < (#[trigger] waiting[k]).1.spec_start_time()
                + timeout,
    ensures
        spec_gc_count(waiting, events[m].1, timeout) == 0,
{
}

/// The waiting list after a fresh context joins still expires nothing at
/// the current wakeup.
proof fn lemma_no_gc<C: ReactorContext>(
    pushed: Seq<(u64, C)>,
    waiting: Seq<(u64, C)>,
    events: Seq<(ReactorEvent<C>, u64)>,
    timeout: u64,
    index: u64,
    ctx: C,
)
    requires
        events.len() > 0,
        events[0].0 is Context,
        events[0].0->Context_0 == index,
        events[0].0->Context_1 == ctx,
        pushed == waiting.push((index, ctx)),
        no_expiry_during_run(waiting, events, timeout),
    ensures
        spec_gc_count(pushed, events[0].1, timeout) == 0,
{
    assert forall|k: int|
        0 <= k < pushed.len() implies events[0].1 < (#[trigger] pushed[k]).1.spec_start_time()
        + timeout by {
        if k < waiting.len() {
            assert(pushed[k] == waiting[k]);
        } else {
            assert(pushed[k] == (index, ctx));
        }
    }
    lemma_gc_empty_when_unexpired(pushed, events, timeout, 0);
}

/// The waiting list after a match is removed still expires nothing at the
/// current wakeup.
proof fn lemma_no_gc_after_remove<C: ReactorContext>(
    shrunk: Seq<(u64, C)>,
    waiting: Seq<(u64, C)>,
    i: int,
    events: Seq<(ReactorEvent<C>, u64)>,
    timeout: u64,
)
    requires
        events.len() > 0,
        0 <= i < waiting.len(),
        shrunk == waiting.remove(i),
        no_expiry_during_run(waiting, events, timeout),
    ensures
        spec_gc_count(shrunk, events[0].1, timeout) == 0,
{
    assert forall|k: int|
        0 <= k < shrunk.len() implies events[0].1 < (#[trigger] shrunk[k]).1.spec_start_time()
        + timeout by {
        let k0 = if k < i {
            k
        } else {
            k + 1
        };
        assert(shrunk[k] == waiting[k0]);
    }
    lemma_gc_empty_when_unexpired(shrunk, events, timeout, 0);
}

/// Re-establish every condition of the induction after a context event.
proof fn lemma_conditions_shift_context<C: ReactorContext>(
    waiting: Seq<(u64, C)>,
    events: Seq<(ReactorEvent<C>, u64)>,
    timeout: u64,
    index: u64,
    ctx: C,
)
    requires
        events.len() > 1,
        events[0].0 is Context,
        events[0].0->Context_0 == index,
        events[0].0->Context_1 == ctx,
        distinct_context_indices(events),
        distinct_reply_indices(events),
        forall|k: int|
            0 <= k < events.len() && (#[trigger] events[k]).0 is Context ==> !has_key(
                waiting,
                events[k].0->Context_0,
            ),
        replies_follow_requests(waiting, events),
        no_expiry_during_run(waiting, events, timeout),
        closes_at_end(events),
    ensures
        distinct_context_indices(events.drop_first()),
        distinct_reply_indices(events.drop_first()),
        forall|k: int|
            0 <= k < events.drop_first().len() && (#[trigger] events.drop_first()[k]).0 is Context
                ==> !has_key(
                waiting.push((index, ctx)),
                events.drop_first()[k].0->Context_0,
            ),
        replies_follow_requests(waiting.push((index, ctx)), events.drop_first()),
        no_expiry_during_run(waiting.push((index, ctx)), events.drop_first(), timeout),
        closes_at_end(events.drop_first()),
    decreases events.len(),
{
    let rest = events.drop_first();
    let pushed = waiting.push((index, ctx));
    assert(forall|k: int| 0 <= k < rest.len() ==> (#[trigger] rest[k]) == events[k + 1]);
    assert forall|j: int, k: int|
        0 <= j < k < rest.len() && (#[trigger] rest[j]).0 is Context && (
    #[trigger] rest[k]).0 is Context implies rest[j].0->Context_0 != rest[k].0->Context_0 by {
        assert(rest[j] == events[j + 1] && rest[k] == events[k + 1]);
    }
    assert forall|j: int, k: int|
        0 <= j < k < rest.len() && (#[trigger] rest[j]).0 is Reply && (
    #[trigger] rest[k]).0 is Reply implies rest[j].0->Reply_0 != rest[k].0->Reply_0 by {
        assert(rest[j] == events[j + 1] && rest[k] == events[k + 1]);
    }
    assert forall|k: int|
        0 <= k < rest.len() && (#[trigger] rest[k]).0 is Context implies !has_key(
        pushed,
        rest[k].0->Context_0,
    ) by {
        assert(rest[k] == events[k + 1]);
        let key = rest[k].0->Context_0;
        assert(key != index);
        assert(!has_key(waiting, key));
        if has_key(pushed, key) {
            let p = key_index(pushed, key);
            assert(pushed[p].0 == key);
            assert(p < waiting.len());
            assert(waiting[p].0 == key);
        }
    }
    assert forall|k: int|
        0 <= k < rest.len() && (#[trigger] rest[k]).0 is Reply implies has_key(
        pushed,
        rest[k].0->Reply_0,
    ) || (exists|j: int|
        0 <= j < k && (#[trigger] rest[j]).0 is Context && rest[j].0->Context_0
            == rest[k].0->Reply_0) by {
        assert(rest[k] == events[k + 1]);
        let key = rest[k].0->Reply_0;
        if has_key(waiting, key) {
            let p = key_index(waiting, key);
            assert(waiting[p].0 == key);
            assert(pushed[p].0 == key);
            assert(has_key(pushed, key));
        } else {
            let j = choose|j: int|
                0 <= j < k + 1 && (#[trigger] events[j]).0 is Context && events[j].0->Context_0
                    == key;
            if j == 0 {
                assert(key == index);
                assert(pushed[pushed.len() - 1].0 == index);
                assert(has_key(pushed, key));
            } else {
                assert(rest[j - 1] == events[j]);
                assert(rest[j - 1].0 is Context && rest[j - 1].0->Context_0 == key);
            }
        }
    }
    assert forall|k: int, m: int|
        0 <= k < pushed.len() && 0 <= m < rest.len() implies (#[trigger] rest[m]).1 < (
    #[trigger] pushed[k]).1.spec_start_time() + timeout by {
        assert(rest[m] == events[m + 1]);
        if k < waiting.len() {
            assert(pushed[k] == waiting[k]);
        } else {
            assert(pushed[k] == (index, ctx));
        }
    }
    assert forall|j: int, m: int|
        0 <= j < rest.len() && 0 <= m < rest.len() && (#[trigger] rest[j]).0 is Context implies (
    #[trigger] rest[m]).1 < rest[j].0->Context_1.spec_start_time() + timeout by {
        assert(rest[j] == events[j + 1] && rest[m] == events[m + 1]);
    }
    assert(rest[rest.len() - 1] == events[events.len() - 1]);
    assert forall|k: int| 0 <= k < rest.len() - 1 implies !(
    (#[trigger] rest[k]).0 is InputsClosed) by {
        assert(rest[k] == events[k + 1]);
    }
}

/// Re-establish every condition of the induction after a reply event.
proof fn lemma_conditions_shift_reply<C: ReactorContext>(
    waiting: Seq<(u64, C)>,
    events: Seq<(ReactorEvent<C>, u64)>,
    timeout: u64,
    index: u64,
    i: int,
)
    requires
        events.len() > 1,
        events[0].0 is Reply,
        events[0].0->Reply_0 == index,
        0 <= i < waiting.len(),
        waiting[i].0 == index,
        entries_distinct(waiting),
        distinct_context_indices(events),
        distinct_reply_indices(events),
        forall|k: int|
            0 <= k < events.len() && (#[trigger] events[k]).0 is Context ==> !has_key(
                waiting,
                events[k].0->Context_0,
            ),
        replies_follow_requests(waiting, events),
        no_expiry_during_run(waiting, events, timeout),
        closes_at_end(events),
    ensures
        distinct_context_indices(events.drop_first()),
        distinct_reply_indices(events.drop_first()),
        forall|k: int|
            0 <= k < events.drop_first().len() && (#[trigger] events.drop_first()[k]).0 is Context
                ==> !has_key(waiting.remove(i), events.drop_first()[k].0->Context_0),
        replies_follow_requests(waiting.remove(i), events.drop_first()),
        no_expiry_during_run(waiting.remove(i), events.drop_first(), timeout),
        closes_at_end(events.drop_first()),
{
    let rest = events.drop_first();
    let shrunk = waiting.remove(i);
    assert(forall|k: int| 0 <= k < rest.len() ==> (#[trigger] rest[k]) == events[k + 1]);
    assert forall|j: int, k: int|
        0 <= j < k < rest.len() && (#[trigger] rest[j]).0 is Context && (
    #[trigger] rest[k]).0 is Context implies rest[j].0->Context_0 != rest[k].0->Context_0 by {
        assert(rest[j] == events[j + 1] && rest[k] == events[k + 1]);
    }
    assert forall|j: int, k: int|
        0 <= j < k < rest.len() && (#[trigger] rest[j]).0 is Reply && (
    #[trigger] rest[k]).0 is Reply implies rest[j].0->Reply_0 != rest[k].0->Reply_0 by {
        assert(rest[j] == events[j + 1] && rest[k] == events[k + 1]);
    }
    assert forall|k: int|
        0 <= k < rest.len() && (#[trigger] rest[k]).0 is Context implies !has_key(
        shrunk,
        rest[k].0->Context_0,
    ) by {
        assert(rest[k] == events[k + 1]);
        let key = rest[k].0->Context_0;
        assert(!has_key(waiting, key));
        if has_key(shrunk, key) {
            let p = key_index(shrunk, key);
            assert(shrunk[p].0 == key);
            let p0 = if p < i {
                p
            } else {
                p + 1
            };
            assert(shrunk[p] == waiting[p0]);
        }
    }
    assert forall|k: int|
        0 <= k < rest.len() && (#[trigger] rest[k]).0 is Reply implies has_key(
        shrunk,
        rest[k].0->Reply_0,
    ) || (exists|j: int|
        0 <= j < k && (#[trigger] rest[j]).0 is Context && rest[j].0->Context_0
            == rest[k].0->Reply_0) by {
        assert(rest[k] == events[k + 1]);
        let key = rest[k].0->Reply_0;
        assert(key != index);
        if has_key(waiting, key) {
            let p = key_index(waiting, key);
            assert(waiting[p].0 == key);
            assert(p != i);
            let q = if p < i {
                p
            } else {
                p - 1
            };
            assert(shrunk[q] == waiting[p]);
            assert(has_key(shrunk, key));
        } else {
            let j = choose|j: int|
                0 <= j < k + 1 && (#[trigger] events[j]).0 is Context && events[j].0->Context_0
                    == key;
            assert(j >= 1);
            assert(rest[j - 1] == events[j]);
            assert(rest[j - 1].0 is Context && rest[j - 1].0->Context_0 == key);
        }
    }
    assert forall|k: int, m: int|
        0 <= k < shrunk.len() && 0 <= m < rest.len() implies (#[trigger] rest[m]).1 < (
    #[trigger] shrunk[k]).1.spec_start_time() + timeout by {
        assert(rest[m] == events[m + 1]);
        let k0 = if k < i {
            k
        } else {
            k + 1
        };
        assert(shrunk[k] == waiting[k0]);
    }
    assert forall|j: int, m: int|
        0 <= j < rest.len() && 0 <= m < rest.len() && (#[trigger] rest[j]).0 is Context implies (
    #[trigger] rest[m]).1 < rest[j].0->Context_1.spec_start_time() + timeout by {
        assert(rest[j] == events[j + 1] && rest[m] == events[m + 1]);
    }
    assert(rest[rest.len() - 1] == events[events.len() - 1]);
    assert forall|k: int| 0 <= k < rest.len() - 1 implies !(
    (#[trigger] rest[k]).0 is InputsClosed) by {
        assert(rest[k] == events[k + 1]);
    }
}

/// Re-establish every condition of the induction after an idle wakeup.
proof fn lemma_conditions_shift_idle<C: ReactorContext>(
    waiting: Seq<(u64, C)>,
    events: Seq<(ReactorEvent<C>, u64)>,
    timeout: u64,
)
    requires
        events.len() > 1,
        events[0].0 is Idle,
        distinct_context_indices(events),
        distinct_reply_indices(events),
        forall|k: int|
            0 <= k < events.len() && (#[trigger] events[k]).0 is Context ==> !has_key(
                waiting,
                events[k].0->Context_0,
            ),
        replies_follow_requests(waiting, events),
        no_expiry_during_run(waiting, events, timeout),
        closes_at_end(events),
    ensures
        distinct_context_indices(events.drop_first()),
        distinct_reply_indices(events.drop_first()),
        forall|k: int|
            0 <= k < events.drop_first().len() && (#[trigger] events.drop_first()[k]).0 is Context
                ==> !has_key(waiting, events.drop_first()[k].0->Context_0),
        replies_follow_requests(waiting, events.drop_first()),
        no_expiry_during_run(waiting, events.drop_first(), timeout),
        closes_at_end(events.drop_first()),
{
    let rest = events.drop_first();
    assert(forall|k: int| 0 <= k < rest.len() ==> (#[trigger] rest[k]) == events[k + 1]);
    assert forall|j: int, k: int|
        0 <= j < k < rest.len() && (#[trigger] rest[j]).0 is Context && (
    #[trigger] rest[k]).0 is Context implies rest[j].0->Context_0 != rest[k].0->Context_0 by {
        assert(rest[j] == events[j + 1] && rest[k] == events[k + 1]);
    }
    assert forall|j: int, k: int|
        0 <= j < k < rest.len() && (#[trigger] rest[j]).0 is Reply && (
    #[trigger] rest[k]).0 is Reply implies rest[j].0->Reply_0 != rest[k].0->Reply_0 by {
        assert(rest[j] == events[j + 1] && rest[k] == events[k + 1]);
    }
    assert forall|k: int|
        0 <= k < rest.len() && (#[trigger] rest[k]).0 is Reply implies has_key(
        waiting,
        rest[k].0->Reply_0,
    ) || (exists|j: int|
        0 <= j < k && (#[trigger] rest[j]).0 is Context && rest[j].0->Context_0
            == rest[k].0->Reply_0) by {
        assert(rest[k] == events[k + 1]);
        let key = rest[k].0->Reply_0;
        if !has_key(waiting, key) {
            let j = choose|j: int|
                0 <= j < k + 1 && (#[trigger] events[j]).0 is Context && events[j].0->Context_0
                    == key;
            assert(j >= 1);
            assert(rest[j - 1] == events[j]);
            assert(rest[j - 1].0 is Context && rest[j - 1].0->Context_0 == key);
        }
    }
    assert forall|k: int, m: int|
        0 <= k < waiting.len() && 0 <= m < rest.len() implies (#[trigger] rest[m]).1 < (
    #[trigger] waiting[k]).1.spec_start_time() + timeout by {
        assert(rest[m] == events[m + 1]);
    }
    assert forall|j: int, m: int|
        0 <= j < rest.len() && 0 <= m < rest.len() && (#[trigger] rest[j]).0 is Context implies (
    #[trigger] rest[m]).1 < rest[j].0->Context_1.spec_start_time() + timeout by {
        assert(rest[j] == events[j + 1] && rest[m] == events[m + 1]);
    }
    assert(rest[rest.len() - 1] == events[events.len() - 1]);
    assert forall|k: int| 0 <= k < rest.len() - 1 implies !(
    (#[trigger] rest[k]).0 is InputsClosed) by {
        assert(rest[k] == events[k + 1]);
    }
}

} // verus!
