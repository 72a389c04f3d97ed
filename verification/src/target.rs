//! The targets of a portscan, and their expansion into scannable instances.
//!
//! A user-supplied [`Target`] is broken down into [`TargetInstance`]s at the
//! start of the pipeline: an address yields itself, a network yields one
//! instance per usable host address of its block, each keeping its block,
//! and a hostname yields one instance per resolved address.  Name resolution is I/O and happens outside the
//! library; its outcome is handed in as a [`Resolution`] per target.

use vstd::prelude::*;
use vstd::multiset::Multiset;
use vstd::seq_lib::lemma_multiset_commutative;

use crate::err::PortscanErr;
use crate::ip::{IpAddress, IpNetwork};
use crate::report::Report;
use crate::rng::shuffle;

verus! {

/// An argument into the port scanner itself.  Broken down into individual
/// instances almost immediately; the [`TargetInstance`] structure is what
/// the internals actually work on.
#[derive(Clone, Debug)]
pub enum Target {
    /// One IP address, either family.
    IP(IpAddress),
    /// One CIDR block.
    Network(IpNetwork),
    /// An individual hostname to be scanned.  Hostnames are accepted
    /// permissively; they might not conform to standards.
    Hostname(String),
}

impl Target {
    /// Structural soundness: a network target carries a valid prefix.
    pub open spec fn well_formed(self) -> bool {
        match self {
            Target::Network(n) => n.well_formed(),
            _ => true,
        }
    }

    /// The target can be expanded on this machine: well formed, and a
    /// network block small enough for its hosts to fit in one vector.
    pub open spec fn expandable(self) -> bool {
        &&& self.well_formed()
        &&& match self {
            Target::Network(n) => n.host_count() <= usize::MAX,
            _ => true,
        }
    }
}

/// An instance of a portscan target: the unit the internals actually work
/// on.  The initial target may expand into many instances, and every
/// instance carries exactly one IP address.
#[derive(Clone, Debug)]
pub enum TargetInstance {
    /// A single address, requested directly or drawn from a network block.
    IP(IpAddress),
    /// One address of an expanded CIDR block, kept with its block.
    Network {
        /// The original block requested to be scanned.
        network: IpNetwork,
        /// The individual address to be scanned.
        instance_ip: IpAddress,
    },
    /// One resolved address of a hostname.  A hostname may resolve to many
    /// addresses; each gets its own instance.
    Hostname {
        /// The original hostname used in the lookup.
        hostname: String,
        /// The address actually being scanned for this hostname.
        resolved_ip: IpAddress,
    },
}

impl TargetInstance {
    /// The one IP address this instance stands for.
    pub open spec fn spec_ip(self) -> IpAddress {
        match self {
            TargetInstance::IP(ip) => ip,
            TargetInstance::Network { instance_ip, .. } => instance_ip,
            TargetInstance::Hostname { resolved_ip, .. } => resolved_ip,
        }
    }

    /// An instance always has an IP associated to it; this just makes it
    /// easy to grab.
    pub fn get_ip(&self) -> (r: IpAddress)
        ensures
            r == self.spec_ip(),
    {
        match self {
            TargetInstance::IP(ip) => *ip,
            TargetInstance::Network { instance_ip, .. } => *instance_ip,
            TargetInstance::Hostname { resolved_ip, .. } => *resolved_ip,
        }
    }
}

/// The target an instance originated from.
pub open spec fn target_of_instance(instance: TargetInstance) -> Target {
    match instance {
        TargetInstance::IP(ip) => Target::IP(ip),
        TargetInstance::Network { network, .. } => Target::Network(network),
        TargetInstance::Hostname { hostname, .. } => Target::Hostname(hostname),
    }
}

impl From<TargetInstance> for Target {
    /// Recover the (possibly collapsed) target an instance came from.
    fn from(instance: TargetInstance) -> (r: Target) {
        match instance {
            TargetInstance::IP(ip) => Target::IP(ip),
            TargetInstance::Network { network, .. } => Target::Network(network),
            TargetInstance::Hostname { hostname, .. } => Target::Hostname(hostname),
        }
    }
}

impl vstd::std_specs::convert::FromSpecImpl<TargetInstance> for Target {
    open spec fn obeys_from_spec() -> bool {
        true
    }

    open spec fn from_spec(instance: TargetInstance) -> Target {
        target_of_instance(instance)
    }
}

/// The outcome of resolving one hostname, handed in by the caller.  For
/// targets that are not hostnames the entry is ignored.
#[derive(Clone, Debug)]
pub enum Resolution {
    /// The name resolved to these addresses.
    Resolved(Vec<IpAddress>),
    /// The lookup failed; the payload describes the I/O failure.
    Failed(String),
}

/// The instances one target expands to, given the resolution of its name.
pub open spec fn spec_instances_of(target: Target, res: Resolution) -> Seq<TargetInstance> {
    match target {
        Target::IP(a) => seq![TargetInstance::IP(a)],
        Target::Network(n) => n.hosts().map_values(
            |a: IpAddress| TargetInstance::Network { network: n, instance_ip: a },
        ),
        Target::Hostname(h) => match res {
            Resolution::Resolved(ips) => ips@.map_values(
                |a: IpAddress| TargetInstance::Hostname { hostname: h, resolved_ip: a },
            ),
            Resolution::Failed(_) => Seq::empty(),
        },
    }
}

/// The failure reports one target contributes: exactly one when it is a
/// hostname whose resolution failed, none otherwise.
pub open spec fn spec_failures_of(target: Target, res: Resolution) -> Seq<Report> {
    match target {
        Target::Hostname(h) => match res {
            Resolution::Resolved(_) => Seq::empty(),
            Resolution::Failed(msg) => seq![
                Report {
                    target: Target::Hostname(h),
                    instance: None,
                    contents: Err(PortscanErr::FailedToResolveHostname(msg)),
                },
            ],
        },
        _ => Seq::empty(),
    }
}

/// All instances of a target list, in target order, before shuffling.
pub open spec fn spec_expand_instances(targets: Seq<Target>, res: Seq<Resolution>) -> Seq<
    TargetInstance,
>
    decreases targets.len(),
{
    if targets.len() == 0 {
        Seq::empty()
    } else {
        spec_instances_of(targets[0], res[0]) + spec_expand_instances(
            targets.drop_first(),
            res.drop_first(),
        )
    }
}

/// All failure reports of a target list, in target order.
pub open spec fn spec_expand_failures(targets: Seq<Target>, res: Seq<Resolution>) -> Seq<Report>
    decreases targets.len(),
{
    if targets.len() == 0 {
        Seq::empty()
    } else {
        spec_failures_of(targets[0], res[0]) + spec_expand_failures(
            targets.drop_first(),
            res.drop_first(),
        )
    }
}

/// How many reports a target list owes the caller: one per expanded
/// instance plus one per failed resolution.
pub open spec fn spec_expected_report_count(targets: Seq<Target>, res: Seq<Resolution>) -> int
    decreases targets.len(),
{
    if targets.len() == 0 {
        0int
    } else {
        spec_instances_of(targets[0], res[0]).len() + spec_failures_of(targets[0], res[0]).len()
            + spec_expected_report_count(targets.drop_first(), res.drop_first())
    }
}

/// The IP addresses a sequence of instances stands for, in order.
pub open spec fn instance_ips(instances: Seq<TargetInstance>) -> Seq<IpAddress> {
    instances.map_values(|i: TargetInstance| i.spec_ip())
}

/// The multiset of IP addresses a target list is expected to reach: the
/// union over the targets of each one's own addresses.
pub open spec fn spec_expected_ip_multiset(targets: Seq<Target>, res: Seq<Resolution>) -> Multiset<
    IpAddress,
>
    decreases targets.len(),
{
    if targets.len() == 0 {
        Multiset::empty()
    } else {
        instance_ips(spec_instances_of(targets[0], res[0])).to_multiset().add(
            spec_expected_ip_multiset(targets.drop_first(), res.drop_first()),
        )
    }
}

/// Expansion distributes over appending one target at the end.
proof fn lemma_expand_snoc(targets: Seq<Target>, res: Seq<Resolution>, t: Target, r: Resolution)
    requires
        targets.len() == res.len(),
    ensures
        spec_expand_instances(targets.push(t), res.push(r)) == spec_expand_instances(targets, res)
            + spec_instances_of(t, r),
        spec_expand_failures(targets.push(t), res.push(r)) == spec_expand_failures(targets, res)
            + spec_failures_of(t, r),
    decreases targets.len(),
{
    if targets.len() == 0 {
        assert(targets.push(t)[0] == t);
        assert(res.push(r)[0] == r);
        assert(targets.push(t).drop_first() =~= targets);
        assert(res.push(r).drop_first() =~= res);
        assert(spec_expand_instances(targets, res) =~= Seq::<TargetInstance>::empty());
        assert(spec_expand_failures(targets, res) =~= Seq::<Report>::empty());
        assert(spec_expand_instances(targets.push(t), res.push(r)) =~= spec_expand_instances(
            targets,
            res,
        ) + spec_instances_of(t, r));
        assert(spec_expand_failures(targets.push(t), res.push(r)) =~= spec_expand_failures(
            targets,
            res,
        ) + spec_failures_of(t, r));
    } else {
        assert(targets.push(t).drop_first() =~= targets.drop_first().push(t));
        assert(res.push(r).drop_first() =~= res.drop_first().push(r));
        lemma_expand_snoc(targets.drop_first(), res.drop_first(), t, r);
        assert(targets.push(t)[0] == targets[0]);
        assert(res.push(r)[0] == res[0]);
        assert(spec_expand_instances(targets.push(t), res.push(r)) =~= spec_expand_instances(
            targets,
            res,
        ) + spec_instances_of(t, r));
        assert(spec_expand_failures(targets.push(t), res.push(r)) =~= spec_expand_failures(
            targets,
            res,
        ) + spec_failures_of(t, r));
    }
}

/// Every target list owes exactly one report per expanded instance plus one
/// per resolution failure: the sizes of the two expansion outputs add up to
/// the expected report count.
pub proof fn lemma_expand_report_count(targets: Seq<Target>, res: Seq<Resolution>)
    requires
        targets.len() == res.len(),
    ensures
        spec_expand_instances(targets, res).len() + spec_expand_failures(targets, res).len()
            == spec_expected_report_count(targets, res),
    decreases targets.len(),
{
    if targets.len() > 0 {
        lemma_expand_report_count(targets.drop_first(), res.drop_first());
    }
}

/// The multiset of IP addresses of an expanded target list equals the union
/// of the per-target address multisets: expansion neither invents nor drops
/// an address, whatever order the instances come in.
pub proof fn lemma_expanded_ip_multiset(targets: Seq<Target>, res: Seq<Resolution>)
    requires
        targets.len() == res.len(),
    ensures
        instance_ips(spec_expand_instances(targets, res)).to_multiset()
            == spec_expected_ip_multiset(targets, res),
    decreases targets.len(),
{
    broadcast use vstd::seq_lib::group_to_multiset_ensures;
    broadcast use vstd::multiset::lemma_multiset_empty_len;

    if targets.len() == 0 {
        assert(instance_ips(spec_expand_instances(targets, res)) =~= Seq::<IpAddress>::empty());
        assert(Seq::<IpAddress>::empty().to_multiset().len() == 0);
    } else {
        lemma_expanded_ip_multiset(targets.drop_first(), res.drop_first());
        let head = spec_instances_of(targets[0], res[0]);
        let tail = spec_expand_instances(targets.drop_first(), res.drop_first());
        assert(instance_ips(head + tail) =~= instance_ips(head) + instance_ips(tail));
        lemma_multiset_commutative(instance_ips(head), instance_ips(tail));
    }
}

/// Expand one target into its instances.
fn instances_of_target(target: &Target, res: &Resolution) -> (r: Vec<TargetInstance>)
    requires
        target.expandable(),
    ensures
        r@ == spec_instances_of(*target, *res),
{
    match target {
        Target::IP(a) => {
            let mut out: Vec<TargetInstance> = Vec::new();
            out.push(TargetInstance::IP(*a));
            proof {
                assert(out@ =~= spec_instances_of(*target, *res));
            }
            out
        },
        Target::Network(n) => {
            let hosts = crate::ip::network_hosts(n);
            let ghost spec_out = spec_instances_of(*target, *res);
            let mut out: Vec<TargetInstance> = Vec::new();
            let mut j: usize = 0;
            while j < hosts.len()
                invariant
                    spec_out == n.hosts().map_values(
                        |a: IpAddress| TargetInstance::Network { network: *n, instance_ip: a },
                    ),
                    hosts@ == n.hosts(),
                    j <= hosts@.len(),
                    out@.len() == j,
                    forall|k: int| 0 <= k < j ==> out@[k] == spec_out[k],
                decreases hosts@.len() - j,
            {
                out.push(TargetInstance::Network { network: *n, instance_ip: hosts[j] });
                j = j + 1;
            }
            proof {
                assert(out@ =~= spec_out);
            }
            out
        },
        Target::Hostname(h) => {
            match res {
                Resolution::Resolved(ips) => {
                    let ghost spec_out = spec_instances_of(*target, *res);
                    let mut out: Vec<TargetInstance> = Vec::new();
                    let mut j: usize = 0;
                    while j < ips.len()
                        invariant
                            spec_out == ips@.map_values(
                                |a: IpAddress| TargetInstance::Hostname {
                                    hostname: *h,
                                    resolved_ip: a,
                                },
                            ),
                            j <= ips@.len(),
                            out@.len() == j,
                            forall|k: int| 0 <= k < j ==> out@[k] == spec_out[k],
                        decreases ips@.len() - j,
                    {
                        out.push(
                            TargetInstance::Hostname {
                                hostname: h.clone(),
                                resolved_ip: ips[j],
                            },
                        );
                        j = j + 1;
                    }
                    proof {
                        assert(out@ =~= spec_out);
                    }
                    out
                },
                Resolution::Failed(_) => {
                    let out: Vec<TargetInstance> = Vec::new();
                    proof {
                        assert(out@ =~= spec_instances_of(*target, *res));
                    }
                    out
                },
            }
        },
    }
}

/// The failure reports one target contributes.
fn failures_of_target(target: &Target, res: &Resolution) -> (r: Vec<Report>)
    ensures
        r@ == spec_failures_of(*target, *res),
{
    let mut out: Vec<Report> = Vec::new();
    match target {
        Target::Hostname(h) => {
            match res {
                Resolution::Failed(msg) => {
                    out.push(
                        Report {
                            target: Target::Hostname(h.clone()),
                            instance: None,
                            contents: Err(PortscanErr::FailedToResolveHostname(msg.clone())),
                        },
                    );
                },
                Resolution::Resolved(_) => {},
            }
        },
        _ => {},
    }
    proof {
        assert(out@ =~= spec_failures_of(*target, *res));
    }
    out
}

/// Expand a target list into instances and failure reports, in target
/// order.  `resolutions[i]` is consulted only when `targets[i]` is a
/// hostname; other entries are ignored.
pub fn expand_targets(targets: &Vec<Target>, resolutions: &Vec<Resolution>) -> (r: (
    Vec<TargetInstance>,
    Vec<Report>,
))
    requires
        targets@.len() == resolutions@.len(),
        forall|i: int| 0 <= i < targets@.len() ==> (#[trigger] targets@[i]).expandable(),
    ensures
        r.0@ == spec_expand_instances(targets@, resolutions@),
        r.1@ == spec_expand_failures(targets@, resolutions@),
{
    let mut instances: Vec<TargetInstance> = Vec::new();
    let mut failures: Vec<Report> = Vec::new();
    let mut i: usize = 0;
    proof {
        assert(targets@.take(0int) =~= Seq::<Target>::empty());
        assert(resolutions@.take(0int) =~= Seq::<Resolution>::empty());
    }
    while i < targets.len()
        invariant
            targets@.len() == resolutions@.len(),
            forall|k: int| 0 <= k < targets@.len() ==> (#[trigger] targets@[k]).expandable(),
            i <= targets@.len(),
            instances@ == spec_expand_instances(targets@.take(i as int), resolutions@.take(i as int)),
            failures@ == spec_expand_failures(targets@.take(i as int), resolutions@.take(i as int)),
        decreases targets@.len() - i,
    {
        let mut part_instances = instances_of_target(&targets[i], &resolutions[i]);
        let mut part_failures = failures_of_target(&targets[i], &resolutions[i]);
        proof {
            lemma_expand_snoc(
                targets@.take(i as int),
                resolutions@.take(i as int),
                targets@[i as int],
                resolutions@[i as int],
            );
            assert(targets@.take(i + 1int) =~= targets@.take(i as int).push(targets@[i as int]));
            assert(resolutions@.take(i + 1int) =~= resolutions@.take(i as int).push(
                resolutions@[i as int],
            ));
        }
        instances.append(&mut part_instances);
        failures.append(&mut part_failures);
        i = i + 1;
    }
    proof {
        assert(targets@.take(targets@.len() as int) =~= targets@);
        assert(resolutions@.take(resolutions@.len() as int) =~= resolutions@);
    }
    (instances, failures)
}

/// Expand a target list and emit the instances in a fresh random order.
/// Shuffling preserves exactly the multiset of instances; the failure
/// reports keep target order.
pub fn expand_targets_shuffled(targets: &Vec<Target>, resolutions: &Vec<Resolution>) -> (r: (
    Vec<TargetInstance>,
    Vec<Report>,
))
    requires
        targets@.len() == resolutions@.len(),
        forall|i: int| 0 <= i < targets@.len() ==> (#[trigger] targets@[i]).expandable(),
    ensures
        r.0@.to_multiset() == spec_expand_instances(targets@, resolutions@).to_multiset(),
        r.0@.len() == spec_expand_instances(targets@, resolutions@).len(),
        r.1@ == spec_expand_failures(targets@, resolutions@),
{
    let (mut instances, failures) = expand_targets(targets, resolutions);
    shuffle(&mut instances);
    (instances, failures)
}

} // verus!
