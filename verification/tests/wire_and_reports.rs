use bowbend_core::{
    build_port_reports, classify_connect, encode_echo_request, host_report,
    parse_ipv4_reply_identity, parse_ipv6_reply_identity, should_scan, shuffled_ports,
    socket_open_error, IcmpSummary, InFlightBudget, IpAddress, PingResult, PingResultType,
    PortStatus, PortscanErr, Target, TargetInstance,
};

#[test]
fn echo_request_v4_exact_bytes() {
    // type 8, code 0, checksum of the zero-checksum buffer, big-endian
    // identity and sequence, fixed payload.  The word sum for identity
    // 0x1234 and sequence 1 is 0x0800 + 0x1234 + 0x0001 + 0x0102 + 0x0304
    // = 7739, so the checksum is 65535 - 7739 = 0xE1C4.
    let bytes = encode_echo_request(true, 0x1234, 1);
    assert_eq!(
        bytes,
        vec![8, 0, 0xE1, 0xC4, 0x12, 0x34, 0x00, 0x01, 1, 2, 3, 4]
    );
}

#[test]
fn echo_request_v6_leaves_checksum_to_the_kernel() {
    let bytes = encode_echo_request(false, 0xABCD, 7);
    assert_eq!(
        bytes,
        vec![128, 0, 0, 0, 0xAB, 0xCD, 0x00, 0x07, 1, 2, 3, 4]
    );
}

#[test]
fn reply_identity_recovered_from_v4_frame() {
    // A minimal IPv4 frame: version 4, header length 5 words, then the
    // ICMP header and the big-endian identity.
    let mut frame = vec![0u8; 26];
    frame[0] = 0x45;
    frame[24] = 0x12;
    frame[25] = 0x34;
    assert_eq!(parse_ipv4_reply_identity(&frame), Some(0x1234));
}

#[test]
fn malformed_v4_frames_are_dropped() {
    assert_eq!(parse_ipv4_reply_identity(&vec![]), None);
    assert_eq!(parse_ipv4_reply_identity(&vec![0x45, 0, 0]), None);
    // version 6 in an IPv4 parser
    let mut frame = vec![0u8; 26];
    frame[0] = 0x65;
    assert_eq!(parse_ipv4_reply_identity(&frame), None);
    // nonsense header length
    let mut frame = vec![0u8; 26];
    frame[0] = 0x42;
    assert_eq!(parse_ipv4_reply_identity(&frame), None);
}

#[test]
fn reply_identity_recovered_from_v6_frame() {
    let mut frame = vec![0u8; 46];
    frame[44] = 0xBE;
    frame[45] = 0xEF;
    assert_eq!(parse_ipv6_reply_identity(&frame), Some(0xBEEF));
    assert_eq!(parse_ipv6_reply_identity(&vec![0u8; 45]), None);
}

#[test]
fn connect_outcomes_classify_ports() {
    assert_eq!(classify_connect(true), PortStatus::Open);
    assert_eq!(classify_connect(false), PortStatus::Closed);
}

#[test]
fn port_reports_follow_connect_results() {
    let reports = build_port_reports(&vec![(80, true), (1337, false)]);
    assert_eq!(reports.len(), 2);
    assert_eq!(reports[0].port, 80);
    assert_eq!(reports[0].status, PortStatus::Open);
    assert_eq!(reports[1].port, 1337);
    assert_eq!(reports[1].status, PortStatus::Closed);
    assert!(reports[1].service_detection_conclusions.is_none());
}

#[test]
fn duplicate_ports_collapse_to_one_report() {
    // The report is a per-port mapping: a port attempted twice gets one
    // entry, the last attempt deciding its status.
    let reports = build_port_reports(&vec![(80, false), (22, true), (80, true)]);
    assert_eq!(reports.len(), 2);
    let port80 = reports.iter().find(|r| r.port == 80).unwrap();
    assert_eq!(port80.status, PortStatus::Open);
    let port22 = reports.iter().find(|r| r.port == 22).unwrap();
    assert_eq!(port22.status, PortStatus::Open);
}

#[test]
fn ping_errors_skip_the_tcp_stage() {
    let failed = PingResult {
        ping_sent: 0,
        result_type: PingResultType::Error("raw socket write failed".to_string()),
    };
    let timed_out = PingResult {
        ping_sent: 0,
        result_type: PingResultType::Timeout,
    };
    let replied = PingResult {
        ping_sent: 0,
        result_type: PingResultType::Reply(IcmpSummary { time_received: 9 }),
    };
    assert!(!should_scan(&Some(failed)));
    assert!(should_scan(&Some(timed_out)));
    assert!(should_scan(&Some(replied)));
    assert!(should_scan(&None));
}

#[test]
fn host_report_carries_instance_and_findings() {
    let instance = TargetInstance::IP(IpAddress::V4(0xc0a83803));
    let reports = build_port_reports(&vec![(80, true)]);
    let report = host_report(instance.clone(), None, Some(reports));
    assert!(matches!(report.target, Target::IP(IpAddress::V4(0xc0a83803))));
    assert!(report.instance.is_some());
    let contents = report.contents.unwrap();
    assert!(contents.icmp.is_none());
    assert_eq!(contents.ports.unwrap().len(), 1);
}

#[test]
fn shuffled_ports_keep_the_port_multiset() {
    let ports = vec![80, 443, 8080, 8081, 1337, 22, 22];
    let mut shuffled = shuffled_ports(&ports);
    assert_eq!(shuffled.len(), ports.len());
    shuffled.sort_unstable();
    let mut expected = ports.clone();
    expected.sort_unstable();
    assert_eq!(shuffled, expected);
}

#[test]
fn in_flight_budget_never_exceeds_its_maximum() {
    let mut budget = InFlightBudget::new(3);
    assert!(budget.try_acquire());
    assert!(budget.try_acquire());
    assert!(budget.try_acquire());
    assert_eq!(budget.in_use(), 3);
    assert!(!budget.try_acquire());
    assert_eq!(budget.in_use(), 3);
    budget.release();
    assert_eq!(budget.in_use(), 2);
    assert!(budget.try_acquire());
    assert!(!budget.try_acquire());
}

#[test]
fn raw_socket_failures_mean_insufficient_permission() {
    assert!(matches!(
        socket_open_error(),
        PortscanErr::InsufficientPermission
    ));
}
