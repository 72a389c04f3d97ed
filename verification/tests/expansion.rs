use bowbend_core::{
    expand_targets, expand_targets_shuffled, network_hosts, IpAddress, IpNetwork, PortscanErr,
    Resolution, Target, TargetInstance,
};

#[test]
fn network_targets_expand_to_network_instances() {
    let block = IpNetwork {
        addr: IpAddress::V4(u32::from_be_bytes([10, 0, 0, 0])),
        prefix_len: 30,
    };
    let targets = vec![Target::Network(block)];
    let resolutions = vec![Resolution::Resolved(vec![])];
    let (instances, failures) = expand_targets(&targets, &resolutions);
    assert!(failures.is_empty());
    assert_eq!(instances.len(), 2);
    for (k, instance) in instances.iter().enumerate() {
        match instance {
            TargetInstance::Network {
                network,
                instance_ip,
            } => {
                assert_eq!(*network, block);
                assert_eq!(
                    *instance_ip,
                    IpAddress::V4(u32::from_be_bytes([10, 0, 0, 1 + k as u8]))
                );
            }
            other => panic!("expected a network instance, got {other:?}"),
        }
    }
}

fn v4(a: u8, b: u8, c: u8, d: u8) -> u32 {
    u32::from_be_bytes([a, b, c, d])
}

#[test]
fn network_hosts_excludes_network_and_broadcast() {
    // 10.0.0.0/30 has hosts .1 and .2 only.
    let net = IpNetwork {
        addr: IpAddress::V4(v4(10, 0, 0, 0)),
        prefix_len: 30,
    };
    let hosts = network_hosts(&net);
    assert_eq!(
        hosts,
        vec![
            IpAddress::V4(v4(10, 0, 0, 1)),
            IpAddress::V4(v4(10, 0, 0, 2)),
        ]
    );
}

#[test]
fn network_hosts_point_to_point_and_single() {
    let net31 = IpNetwork {
        addr: IpAddress::V4(v4(10, 0, 0, 0)),
        prefix_len: 31,
    };
    assert_eq!(
        network_hosts(&net31),
        vec![
            IpAddress::V4(v4(10, 0, 0, 0)),
            IpAddress::V4(v4(10, 0, 0, 1)),
        ]
    );
    let net32 = IpNetwork {
        addr: IpAddress::V4(v4(192, 168, 56, 3)),
        prefix_len: 32,
    };
    assert_eq!(
        network_hosts(&net32),
        vec![IpAddress::V4(v4(192, 168, 56, 3))]
    );
}

#[test]
fn network_hosts_v6_block() {
    // An IPv6 /126 covers four addresses, network included.
    let base: u128 = 0xfd00 << 112;
    let net = IpNetwork {
        addr: IpAddress::V6(base),
        prefix_len: 126,
    };
    assert_eq!(
        network_hosts(&net),
        vec![
            IpAddress::V6(base),
            IpAddress::V6(base + 1),
            IpAddress::V6(base + 2),
            IpAddress::V6(base + 3),
        ]
    );
}

#[test]
fn expansion_counts_instances_and_failures() {
    // One IP, one /30 network, one resolving hostname and one failing
    // hostname: 1 + 2 + 2 instances and 1 failure report.
    let targets = vec![
        Target::IP(IpAddress::V4(v4(192, 168, 56, 3))),
        Target::Network(IpNetwork {
            addr: IpAddress::V4(v4(10, 0, 0, 0)),
            prefix_len: 30,
        }),
        Target::Hostname("web".to_string()),
        Target::Hostname("nonexistent.invalid".to_string()),
    ];
    let resolutions = vec![
        Resolution::Resolved(vec![]),
        Resolution::Resolved(vec![]),
        Resolution::Resolved(vec![
            IpAddress::V4(v4(192, 168, 56, 4)),
            IpAddress::V6(1),
        ]),
        Resolution::Failed("name does not resolve".to_string()),
    ];
    let (instances, failures) = expand_targets(&targets, &resolutions);
    assert_eq!(instances.len(), 5);
    assert_eq!(failures.len(), 1);
    assert_eq!(instances.len() + failures.len(), 6);
}

#[test]
fn hostname_resolution_failure_report() {
    let targets = vec![Target::Hostname("nonexistent.invalid".to_string())];
    let resolutions = vec![Resolution::Failed("lookup failed".to_string())];
    let (instances, failures) = expand_targets(&targets, &resolutions);
    assert!(instances.is_empty());
    assert_eq!(failures.len(), 1);
    let report = &failures[0];
    assert!(report.instance.is_none());
    assert!(matches!(
        report.target,
        Target::Hostname(ref h) if h == "nonexistent.invalid"
    ));
    assert!(matches!(
        report.contents,
        Err(PortscanErr::FailedToResolveHostname(_))
    ));
}

#[test]
fn resolved_hostname_keeps_its_name() {
    let targets = vec![Target::Hostname("web".to_string())];
    let resolutions = vec![Resolution::Resolved(vec![IpAddress::V4(v4(
        192, 168, 56, 4,
    ))])];
    let (instances, failures) = expand_targets(&targets, &resolutions);
    assert!(failures.is_empty());
    assert_eq!(instances.len(), 1);
    match &instances[0] {
        TargetInstance::Hostname {
            hostname,
            resolved_ip,
        } => {
            assert_eq!(hostname, "web");
            assert_eq!(*resolved_ip, IpAddress::V4(v4(192, 168, 56, 4)));
        }
        other => panic!("unexpected instance {:?}", other),
    }
}

#[test]
fn shuffled_expansion_preserves_the_ip_multiset() {
    let targets = vec![Target::Network(IpNetwork {
        addr: IpAddress::V4(v4(10, 0, 0, 0)),
        prefix_len: 28,
    })];
    let resolutions = vec![Resolution::Resolved(vec![])];
    let (plain, _) = expand_targets(&targets, &resolutions);
    let (shuffled, failures) = expand_targets_shuffled(&targets, &resolutions);
    assert!(failures.is_empty());
    assert_eq!(shuffled.len(), plain.len());
    assert_eq!(shuffled.len(), 14);
    let mut expected: Vec<IpAddress> = plain.iter().map(|i| i.get_ip()).collect();
    let mut got: Vec<IpAddress> = shuffled.iter().map(|i| i.get_ip()).collect();
    expected.sort_by_key(|ip| match ip {
        IpAddress::V4(x) => *x as u128,
        IpAddress::V6(x) => *x,
    });
    got.sort_by_key(|ip| match ip {
        IpAddress::V4(x) => *x as u128,
        IpAddress::V6(x) => *x,
    });
    assert_eq!(expected, got);
}

#[test]
fn instance_ip_accessors() {
    let instance = TargetInstance::Network {
        network: IpNetwork {
            addr: IpAddress::V4(v4(10, 0, 0, 0)),
            prefix_len: 24,
        },
        instance_ip: IpAddress::V4(v4(10, 0, 0, 7)),
    };
    assert_eq!(instance.get_ip(), IpAddress::V4(v4(10, 0, 0, 7)));
    let target: Target = Target::from(instance);
    assert!(matches!(target, Target::Network(_)));
}
