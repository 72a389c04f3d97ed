use bowbend_core::{target_from_str, IpAddress, Target};
use std::str::FromStr;

#[test]
fn dotted_quads_become_ip_targets() {
    assert!(matches!(
        target_from_str("192.168.56.3"),
        Target::IP(IpAddress::V4(0xC0A83803))
    ));
    assert!(matches!(
        target_from_str("0.0.0.0"),
        Target::IP(IpAddress::V4(0))
    ));
    assert!(matches!(
        target_from_str("255.255.255.255"),
        Target::IP(IpAddress::V4(0xFFFFFFFF))
    ));
}

#[test]
fn cidr_blocks_become_network_targets() {
    match target_from_str("10.0.0.0/30") {
        Target::Network(n) => {
            assert_eq!(n.addr, IpAddress::V4(0x0A000000));
            assert_eq!(n.prefix_len, 30);
        }
        other => panic!("unexpected target {other:?}"),
    }
    assert!(matches!(target_from_str("10.0.0.0/0"), Target::Network(_)));
    assert!(matches!(target_from_str("10.0.0.0/32"), Target::Network(_)));
}

#[test]
fn ipv6_literals_become_ip_targets() {
    assert!(matches!(target_from_str("::1"), Target::IP(IpAddress::V6(1))));
    assert!(matches!(target_from_str("::"), Target::IP(IpAddress::V6(0))));
    assert!(matches!(
        target_from_str("2001:db8::8:800:200c:417a"),
        Target::IP(IpAddress::V6(0x2001_0db8_0000_0000_0008_0800_200c_417a))
    ));
    assert!(matches!(
        target_from_str("1:2:3:4:5:6:7:8"),
        Target::IP(IpAddress::V6(0x0001_0002_0003_0004_0005_0006_0007_0008))
    ));
    // An embedded dotted quad stands for the last two groups.
    assert!(matches!(
        target_from_str("::ffff:192.168.56.3"),
        Target::IP(IpAddress::V6(0xffff_c0a8_3803))
    ));
    // Uppercase hex digits are accepted.
    assert!(matches!(
        target_from_str("FE80::1"),
        Target::IP(IpAddress::V6(0xfe80_0000_0000_0000_0000_0000_0000_0001))
    ));
}

#[test]
fn ipv6_blocks_become_network_targets() {
    match target_from_str("fe80::/10") {
        Target::Network(n) => {
            assert_eq!(n.addr, IpAddress::V6(0xfe80 << 112));
            assert_eq!(n.prefix_len, 10);
        }
        other => panic!("unexpected target {other:?}"),
    }
    assert!(matches!(target_from_str("::/0"), Target::Network(_)));
    assert!(matches!(target_from_str("::1/128"), Target::Network(_)));
    assert!(matches!(
        target_from_str("::1/129"),
        Target::Hostname(_)
    ));
}

#[test]
fn malformed_ipv6_stays_a_hostname() {
    let cases = [
        "1:2:3:4:5:6:7",
        "1:2:3:4:5:6:7:8:9",
        "1:::2",
        "::1::2",
        "12345::",
        "fe80::1%eth0",
        ":::",
        "1.2.3.4::",
    ];
    for case in cases {
        assert!(
            matches!(target_from_str(case), Target::Hostname(_)),
            "{case:?} should stay a hostname"
        );
    }
}

#[test]
fn everything_else_is_a_permissive_hostname() {
    let cases = [
        "web",
        "nonexistent.invalid",
        "256.1.1.1",
        "01.2.3.4",
        "1.2.3",
        "1.2.3.4.5",
        "1.2.3.4/33",
        "1.2.3.4/24x",
        "1.2.3.4/",
        "",
        "1..2.3",
    ];
    for case in cases {
        match target_from_str(case) {
            Target::Hostname(h) => assert_eq!(h, case),
            other => panic!("{case:?} should be a hostname, got {other:?}"),
        }
    }
}

#[test]
fn from_str_never_fails() {
    assert!(Target::from_str("anything at all").is_ok());
    assert!(matches!(
        Target::from_str("192.168.56.3").unwrap(),
        Target::IP(_)
    ));
}
