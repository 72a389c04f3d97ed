use bowbend_core::{
    IpAddress, PingResultType, PingSentSummary, Reactor, ReactorEvent, ReceivedIcmpPacket,
    TargetInstance,
};

type PingContext = (TargetInstance, PingSentSummary);

fn context(identity: u16, host: u32, sent: u64) -> PingContext {
    (
        TargetInstance::IP(IpAddress::V4(host)),
        PingSentSummary {
            icmp_identity: identity,
            time_sent: sent,
        },
    )
}

fn reply(identity: u16, host: u32, received: u64) -> ReceivedIcmpPacket {
    ReceivedIcmpPacket {
        source: IpAddress::V4(host),
        identity,
        time_received: received,
    }
}

#[test]
fn basic_reactor_test() {
    let mut reactor: Reactor<PingContext> = Reactor::new(500);
    let mut results = Vec::new();
    results.extend(reactor.step(ReactorEvent::Context(1, context(1, 0x0a000001, 0)), 0));
    results.extend(reactor.step(ReactorEvent::Context(2, context(2, 0x0a000002, 1)), 1));
    results.extend(reactor.step(ReactorEvent::Context(3, context(3, 0x0a000003, 2)), 2));
    results.extend(reactor.step(ReactorEvent::Reply(1, reply(1, 0x0a000001, 10)), 10));
    results.extend(reactor.step(ReactorEvent::Reply(2, reply(2, 0x0a000002, 11)), 11));
    results.extend(reactor.step(ReactorEvent::Reply(3, reply(3, 0x0a000003, 12)), 12));
    results.extend(reactor.step(ReactorEvent::InputsClosed, 13));

    assert_eq!(results.len(), 3);
    for (k, (ctx, conclusion)) in results.iter().enumerate() {
        assert_eq!(ctx.1.icmp_identity, (k + 1) as u16);
        match &conclusion.result_type {
            PingResultType::Reply(summary) => {
                assert_eq!(summary.time_received, (10 + k) as u64);
            }
            other => panic!("expected a reply conclusion, got {:?}", other),
        }
    }
}

#[test]
fn basic_timeout() {
    // One reply arrives; the other context must time out on the periodic
    // wakeup well before any ten-second stall of the reply stream ends.
    let mut reactor: Reactor<PingContext> = Reactor::new(500);
    let mut results = Vec::new();
    results.extend(reactor.step(ReactorEvent::Context(1, context(1, 0x0a000001, 0)), 0));
    results.extend(reactor.step(ReactorEvent::Context(2, context(2, 0x0a000002, 0)), 0));
    results.extend(reactor.step(ReactorEvent::Reply(1, reply(1, 0x0a000001, 10)), 10));
    assert_eq!(results.len(), 1);

    // A timer wakeup at 600 ms: context 2 (sent at 0, timeout 500) expires.
    results.extend(reactor.step(ReactorEvent::Idle, 600));
    assert_eq!(results.len(), 2);
    assert!(matches!(
        results[0].1.result_type,
        PingResultType::Reply(_)
    ));
    assert!(matches!(results[1].1.result_type, PingResultType::Timeout));
    assert_eq!(results[1].0 .1.icmp_identity, 2);

    results.extend(reactor.step(ReactorEvent::InputsClosed, 601));
    assert_eq!(results.len(), 2);
}

#[test]
fn out_of_order_reply_is_buffered_until_its_context() {
    let mut reactor: Reactor<PingContext> = Reactor::new(500);
    let early = reactor.step(ReactorEvent::Reply(7, reply(7, 0x0a000007, 3)), 3);
    assert!(early.is_empty());
    let matched = reactor.step(ReactorEvent::Context(7, context(7, 0x0a000007, 4)), 4);
    assert_eq!(matched.len(), 1);
    assert!(matches!(
        matched[0].1.result_type,
        PingResultType::Reply(_)
    ));
}

#[test]
fn close_drains_unanswered_contexts_as_timeouts() {
    let mut reactor: Reactor<PingContext> = Reactor::new(500);
    let mut results = Vec::new();
    results.extend(reactor.step(ReactorEvent::Context(1, context(1, 1, 0)), 0));
    results.extend(reactor.step(ReactorEvent::Context(2, context(2, 2, 0)), 0));
    results.extend(reactor.step(ReactorEvent::InputsClosed, 1));
    assert_eq!(results.len(), 2);
    assert!(results
        .iter()
        .all(|r| matches!(r.1.result_type, PingResultType::Timeout)));
}

#[test]
fn gc_period_is_a_fifth_of_the_timeout() {
    let reactor: Reactor<PingContext> = Reactor::new(500);
    assert_eq!(reactor.gc_period(), 100);
}
