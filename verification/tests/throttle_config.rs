use bowbend_core::{ConfigBuilder, IpAddress, Target, Throttle};

#[test]
fn throttle_stream_basic_test() {
    // The adapted shape of the original timing test: the first item of a
    // throttled stream goes through with no sleep outstanding, and every
    // later gap is a delay drawn from the configured range.
    let mut throttle = Throttle::new(100, 300);
    assert!(!throttle.is_sleeping());
    for _ in 0..50 {
        let delay = throttle.on_item().expect("a real range always delays");
        assert!((100..300).contains(&delay));
        assert!(throttle.is_sleeping());
        throttle.on_sleep_complete();
        assert!(!throttle.is_sleeping());
    }
}

#[test]
fn zero_throttle_is_a_pass_through() {
    let mut throttle = Throttle::new(0, 0);
    assert!(throttle.on_item().is_none());
    assert!(!throttle.is_sleeping());
}

#[test]
fn narrow_throttle_range_pins_the_delay() {
    let mut throttle = Throttle::new(10, 11);
    assert_eq!(throttle.on_item(), Some(10));
}

#[test]
fn config_builder_defaults() {
    let builder = ConfigBuilder::default();
    assert!(builder.targets.is_empty());
    assert_eq!(builder.ports, vec![80]);
    assert!(!builder.run_service_detection);
    assert!(!builder.ping);
    assert!(!builder.tracing);
    assert!(builder.throttle_range.is_none());
    assert_eq!(builder.max_in_flight, 500_000);
}

#[test]
fn config_builder_setters() {
    let mut builder = ConfigBuilder::default();
    builder.add_target(Target::IP(IpAddress::V4(0xc0a83803)));
    builder.add_target(Target::Hostname("web".to_string()));
    builder.set_port_list(vec![80, 1337]);
    builder.set_ping(true);
    builder.set_run_service_detection(true);
    builder.set_tracing(true);
    builder.set_throttle(5..50);
    builder.set_max_in_flight(10);
    assert_eq!(builder.targets.len(), 2);
    assert_eq!(builder.ports, vec![80, 1337]);
    assert!(builder.ping);
    assert!(builder.run_service_detection);
    assert!(builder.tracing);
    assert_eq!(builder.throttle_range, Some((5, 50)));
    assert_eq!(builder.max_in_flight, 10);
    builder.clear_throttle();
    assert!(builder.throttle_range.is_none());
}
