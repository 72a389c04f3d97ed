//! The full-open TCP scan: classification and report building.
//!
//! The scan attempts a complete TCP handshake on every port of a host.
//! The connecting itself happens in the driver; what lives here is every
//! decision around it: whether a host is scanned at all after its ping,
//! the per-host shuffled port order, how each connect outcome is
//! classified, and the report each host ends up with.

use vstd::prelude::*;

use crate::icmp::PingResult;
use crate::report::{PortReport, PortStatus, Report, ReportContents};
use crate::rng::shuffle;
use crate::target::{target_of_instance, Target, TargetInstance};

verus! {

/// Whether a host reaches the TCP stage: only a ping that failed with an
/// I/O error makes the scan skip the host.  A timeout or no ping at all
/// still gets scanned.
pub fn should_scan(ping: &Option<PingResult>) -> (r: bool)
    ensures
        r == match ping {
            Some(p) => !(p.result_type is Error),
            None => true,
        },
{
    match ping {
        Some(p) => !p.is_error(),
        None => true,
    }
}

/// The ports of one host in a fresh random order.  Shuffling changes only
/// the order: the multiset of ports is exactly the configured list.
pub fn shuffled_ports(ports: &Vec<u16>) -> (r: Vec<u16>)
    ensures
        r@.to_multiset() == ports@.to_multiset(),
        r@.len() == ports@.len(),
{
    let mut out: Vec<u16> = Vec::new();
    let mut i: usize = 0;
    while i < ports.len()
        invariant
            i <= ports@.len(),
            out@ == ports@.take(i as int),
        decreases ports@.len() - i,
    {
        out.push(ports[i]);
        i = i + 1;
        proof {
            assert(out@ =~= ports@.take(i as int));
        }
    }
    proof {
        assert(out@ =~= ports@);
    }
    shuffle(&mut out);
    out
}

/// Classify one connect attempt: a completed handshake means the port is
/// open; every other outcome — timeout, refusal, unreachable, error —
/// counts as closed.
pub fn classify_connect(handshake_completed: bool) -> (r: PortStatus)
    ensures
        r == (if handshake_completed {
            PortStatus::Open
        } else {
            PortStatus::Closed
        }),
{
    if handshake_completed {
        PortStatus::Open
    } else {
        PortStatus::Closed
    }
}

/// Whether some connect result is for the given port.
pub open spec fn spec_has_port(results: Seq<(u16, bool)>, port: u16) -> bool {
    exists|k: int| 0 <= k < results.len() && (#[trigger] results[k]).0 == port
}

/// The outcome that decides a port when it was attempted more than once:
/// the last result for it wins, as a per-port mapping demands.
pub open spec fn spec_last_result(results: Seq<(u16, bool)>, port: u16) -> bool
    decreases results.len(),
{
    if results.len() == 0 {
        arbitrary()
    } else if results.last().0 == port {
        results.last().1
    } else {
        spec_last_result(results.drop_last(), port)
    }
}

/// Build the per-port reports of one host from its connect results, as a
/// mapping: exactly one report per distinct attempted port, in first-attempt
/// order, the last attempt's outcome deciding its status, with no service
/// conclusions attached yet.
pub fn build_port_reports(results: &Vec<(u16, bool)>) -> (r: Vec<PortReport>)
    ensures
        forall|j: int, k: int| 0 <= j < k < r@.len() ==> (#[trigger] r@[j]).port != (
        #[trigger] r@[k]).port,
        forall|k: int| 0 <= k < r@.len() ==> spec_has_port(results@, (#[trigger] r@[k]).port),
        forall|p: u16|
            spec_has_port(results@, p) ==> exists|k: int|
                0 <= k < r@.len() && (#[trigger] r@[k]).port == p,
        forall|k: int|
            0 <= k < r@.len() ==> {
                &&& (#[trigger] r@[k]).status == (if spec_last_result(results@, r@[k].port) {
                    PortStatus::Open
                } else {
                    PortStatus::Closed
                })
                &&& r@[k].service_detection_conclusions is None
            },
{
    let mut out: Vec<PortReport> = Vec::new();
    let mut i: usize = 0;
    while i < results.len()
        invariant
            i <= results@.len(),
            forall|j: int, k: int| 0 <= j < k < out@.len() ==> (#[trigger] out@[j]).port != (
            #[trigger] out@[k]).port,
            forall|k: int|
                0 <= k < out@.len() ==> spec_has_port(
                    results@.take(i as int),
                    (#[trigger] out@[k]).port,
                ),
            forall|p: u16|
                spec_has_port(results@.take(i as int), p) ==> exists|k: int|
                    0 <= k < out@.len() && (#[trigger] out@[k]).port == p,
            forall|k: int|
                0 <= k < out@.len() ==> {
                    &&& (#[trigger] out@[k]).status == (if spec_last_result(
                        results@.take(i as int),
                        out@[k].port,
                    ) {
                        PortStatus::Open
                    } else {
                        PortStatus::Closed
                    })
                    &&& out@[k].service_detection_conclusions is None
                },
        decreases results@.len() - i,
    {
        let (port, completed) = (results[i].0, results[i].1);
        let ghost prefix = results@.take(i as int);
        let ghost prefix1 = results@.take(i + 1int);
        proof {
            assert(prefix1.drop_last() =~= prefix);
            assert(prefix1.last() == results@[i as int]);
            assert forall|p: u16| spec_has_port(prefix1, p) implies p == port || spec_has_port(
                prefix,
                p,
            ) by {
                if p != port {
                    let w = choose|k: int|
                        0 <= k < prefix1.len() && (#[trigger] prefix1[k]).0 == p;
                    assert(prefix[w].0 == p);
                }
            }
            assert(spec_has_port(prefix1, port)) by {
                assert(prefix1[i as int].0 == port);
            }
        }
        let report = PortReport {
            port,
            status: classify_connect(completed),
            service_detection_conclusions: None,
        };
        match find_port_report(&out, port) {
            Some(pos) => {
                let ghost o0 = out@;
                out.remove(pos);
                out.insert(pos, report);
                proof {
                    assert(out@ =~= o0.update(pos as int, report));
                    assert forall|j: int, k: int|
                        0 <= j < k < out@.len() implies (#[trigger] out@[j]).port != (
                    #[trigger] out@[k]).port by {
                        assert(out@[j].port == o0[j].port);
                        assert(out@[k].port == o0[k].port);
                    }
                    assert forall|p: u16| spec_has_port(prefix1, p) implies exists|k: int|
                        0 <= k < out@.len() && (#[trigger] out@[k]).port == p by {
                        if p == port {
                            assert(out@[pos as int].port == p);
                        } else {
                            assert(spec_has_port(prefix, p));
                            let w = choose|k: int|
                                0 <= k < o0.len() && (#[trigger] o0[k]).port == p;
                            assert(out@[w].port == p);
                        }
                    }
                    assert forall|k: int| 0 <= k < out@.len() implies {
                        &&& (#[trigger] out@[k]).status == (if spec_last_result(
                            prefix1,
                            out@[k].port,
                        ) {
                            PortStatus::Open
                        } else {
                            PortStatus::Closed
                        })
                        &&& out@[k].service_detection_conclusions is None
                    } by {
                        if k == pos as int {
                            assert(out@[k] == report);
                            assert(spec_last_result(prefix1, port) == completed);
                        } else {
                            assert(out@[k] == o0[k]);
                            assert(o0[k].port != port);
                            assert(spec_last_result(prefix1, o0[k].port) == spec_last_result(
                                prefix,
                                o0[k].port,
                            ));
                        }
                    }
                }
            },
            None => {
                let ghost o0 = out@;
                out.push(report);
                proof {
                    assert forall|j: int, k: int|
                        0 <= j < k < out@.len() implies (#[trigger] out@[j]).port != (
                    #[trigger] out@[k]).port by {
                        if k == out@.len() - 1 {
                            assert(out@[j] == o0[j]);
                            assert(o0[j].port != port);
                        } else {
                            assert(out@[j] == o0[j]);
                            assert(out@[k] == o0[k]);
                        }
                    }
                    assert forall|p: u16| spec_has_port(prefix1, p) implies exists|k: int|
                        0 <= k < out@.len() && (#[trigger] out@[k]).port == p by {
                        if p == port {
                            assert(out@[out@.len() - 1].port == p);
                        } else {
                            assert(spec_has_port(prefix, p));
                            let w = choose|k: int|
                                0 <= k < o0.len() && (#[trigger] o0[k]).port == p;
                            assert(out@[w].port == p);
                        }
                    }
                    assert forall|k: int| 0 <= k < out@.len() implies {
                        &&& (#[trigger] out@[k]).status == (if spec_last_result(
                            prefix1,
                            out@[k].port,
                        ) {
                            PortStatus::Open
                        } else {
                            PortStatus::Closed
                        })
                        &&& out@[k].service_detection_conclusions is None
                    } by {
                        if k == out@.len() - 1 {
                            assert(out@[k] == report);
                            assert(spec_last_result(prefix1, port) == completed);
                        } else {
                            assert(out@[k] == o0[k]);
                            assert(o0[k].port != port);
                            assert(spec_last_result(prefix1, o0[k].port) == spec_last_result(
                                prefix,
                                o0[k].port,
                            ));
                        }
                    }
                }
            },
        }
        i = i + 1;
    }
    proof {
        assert(results@.take(results@.len() as int) =~= results@);
    }
    out
}

/// Find the position of a port's report, if one was already made.
fn find_port_report(reports: &Vec<PortReport>, port: u16) -> (r: Option<usize>)
    ensures
        match r {
            Some(pos) => pos < reports@.len() && reports@[pos as int].port == port,
            None => forall|k: int| 0 <= k < reports@.len() ==> (#[trigger] reports@[k]).port
                != port,
        },
{
    let mut k: usize = 0;
    while k < reports.len()
        invariant
            k <= reports@.len(),
            forall|j: int| 0 <= j < k ==> (#[trigger] reports@[j]).port != port,
        decreases reports@.len() - k,
    {
        if reports[k].port == port {
            return Some(k);
        }
        k = k + 1;
    }
    None
}

/// Copy a target instance value field by field.
pub fn clone_instance(instance: &TargetInstance) -> (r: TargetInstance)
    ensures
        r == *instance,
{
    match instance {
        TargetInstance::IP(ip) => TargetInstance::IP(*ip),
        TargetInstance::Network { network, instance_ip } => TargetInstance::Network {
            network: *network,
            instance_ip: *instance_ip,
        },
        TargetInstance::Hostname { hostname, resolved_ip } => TargetInstance::Hostname {
            hostname: hostname.clone(),
            resolved_ip: *resolved_ip,
        },
    }
}

/// The report of one host: its originating target, the instance itself,
/// its ping outcome, and its port findings — none when the host was
/// skipped after a failed ping.
pub fn host_report(instance: TargetInstance, ping: Option<PingResult>, ports: Option<
    Vec<PortReport>,
>) -> (r: Report)
    ensures
        r.target == target_of_instance(instance),
        r.instance == Some(instance),
        r.contents matches Ok(c) && c.icmp == ping && c.ports == ports,
{
    let target = Target::from(clone_instance(&instance));
    Report { target, instance: Some(instance), contents: Ok(ReportContents { icmp: ping, ports }) }
}

} // verus!
