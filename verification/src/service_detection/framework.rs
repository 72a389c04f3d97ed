//! The core of the framework for service detection: the types that make up
//! rules and their scheduling, and the conclusions rules can reach.

use core::ops::Range;
use vstd::prelude::*;

use crate::target::TargetInstance;

verus! {

/// A stable unique identifier for a rule.
#[derive(Clone, Copy, Debug, PartialEq, Eq, Structural)]
pub struct RuleId {
    /// The stable numeric identity of the rule.
    pub internal: u64,
}

impl RuleId {
    /// Simple constructor for [`RuleId`].
    pub fn new(internal: u64) -> (r: RuleId)
        ensures
            r == (RuleId { internal }),
    {
        RuleId { internal }
    }
}

/// How likely a rule expects its service on any given port covered by one
/// of its hints.
#[derive(Clone, Copy, Debug, PartialEq, Eq, Structural)]
pub enum PortLikeliness {
    /// The default port of the protocol, the one its standard names.
    Standard,
    /// Common but not standard, like an alternate web port.
    Common,
    /// Seen in a few well-known setups, but not a first guess.
    Unusual,
    /// Barely above picking a random port.
    Rare,
}

/// A hint from a rule giving guidance on what ports it should run against.
#[derive(Debug)]
pub struct PortHint {
    /// The ports covered by this hint, as a half-open range.
    ports: Range<u16>,
    /// The likelihood that the service sits on the covered ports.
    likeliness: PortLikeliness,
}

impl PortHint {
    /// The lower bound of the covered range, inclusive.
    pub closed spec fn spec_start(&self) -> u16 {
        self.ports.start
    }

    /// The upper bound of the covered range, exclusive.
    pub closed spec fn spec_end(&self) -> u16 {
        self.ports.end
    }

    /// Whether this hint covers the given port.
    pub closed spec fn covers(&self, port: u16) -> bool {
        self.ports.start <= port < self.ports.end
    }

    /// Create a hint for one port.
    pub fn new(port: u16, likeliness: PortLikeliness) -> (r: Self)
        requires
            port < u16::MAX,
        ensures
            r.spec_start() == port,
            r.spec_end() == port + 1,
            forall|p: u16| r.covers(p) <==> p == port,
    {
        Self { ports: Range { start: port, end: port + 1 }, likeliness }
    }

    /// Create a hint that covers a half-open range of ports.
    pub fn new_from_range(ports: Range<u16>, likeliness: PortLikeliness) -> (r: Self)
        ensures
            r.spec_start() == ports.start,
            r.spec_end() == ports.end,
            forall|p: u16| r.covers(p) <==> ports.start <= p < ports.end,
    {
        Self { ports, likeliness }
    }

    /// A hint that applies to any port with equal, standard likeliness.
    /// The very last port number is left out, as a half-open range demands.
    pub fn any() -> (r: Self)
        ensures
            r.spec_start() == 0,
            r.spec_end() == u16::MAX,
            forall|p: u16| r.covers(p) <==> p < u16::MAX,
    {
        Self {
            ports: Range { start: u16::MIN, end: u16::MAX },
            likeliness: PortLikeliness::Standard,
        }
    }

    /// The ports covered by this hint as a half-open range; a single-port
    /// hint for port 80 reads as the range from 80 to 81.
    pub fn port_range(&self) -> (r: &Range<u16>)
        ensures
            r.start == self.spec_start(),
            r.end == self.spec_end(),
    {
        &self.ports
    }

    /// Whether this hint covers the given port.
    pub fn covers_port(&self, port: u16) -> (r: bool)
        ensures
            r == self.covers(port),
    {
        self.ports.start <= port && port < self.ports.end
    }
}

/// How much network traffic a rule can be expected to generate, and how
/// much that traffic stands out.
#[derive(Clone, Copy, Debug, PartialEq, Eq, Structural)]
pub enum RuleLoudness {
    /// Very many, very strange requests; possibly crashing the service.
    BangingTogetherPotsAndPans,
    /// Somewhere between three and ten or so requests.
    Noisy,
    /// At least one request, probably no more than three, all close to what
    /// a well-behaved client would send.
    Standard,
    /// At most one request, likely none.
    Quiet,
    /// No network request at all; relies solely on earlier rule results.
    Silent,
}

/// One unit of service-detection work: its identity, what it depends on,
/// where it applies and how loud it is.  The probing itself runs outside
/// the library; the planner schedules rules purely by this record.
#[derive(Debug)]
pub struct Rule {
    /// The unique ID of the rule.
    pub id: RuleId,
    /// The IDs of all rules this rule depends on.
    pub dependencies: Vec<RuleId>,
    /// The ports this rule should run against.
    pub port_hints: Vec<PortHint>,
    /// How much traffic the rule generates.
    pub loudness: RuleLoudness,
    /// Whether the rule needs privileged access, such as a raw socket.
    pub requires_privileged_access: bool,
}

impl Rule {
    /// Whether any of the rule's hints covers the port.
    pub open spec fn applies_to(&self, port: u16) -> bool {
        exists|k: int| 0 <= k < self.port_hints@.len() && (#[trigger] self.port_hints@[k]).covers(
            port,
        )
    }

    /// Whether any of the rule's hints covers the port.
    pub fn applies_to_port(&self, port: u16) -> (r: bool)
        ensures
            r == self.applies_to(port),
    {
        let mut k: usize = 0;
        while k < self.port_hints.len()
            invariant
                k <= self.port_hints@.len(),
                forall|j: int| 0 <= j < k ==> !(#[trigger] self.port_hints@[j]).covers(port),
            decreases self.port_hints@.len() - k,
        {
            if self.port_hints[k].covers_port(port) {
                return true;
            }
            k = k + 1;
        }
        false
    }
}

/// How certain the scanner is of a conclusion.
#[derive(Clone, Copy, Debug, PartialEq, Eq, Structural)]
pub enum ServiceDetectionCertainty {
    /// A version banner or header announced it; trusted, though it could
    /// be faked.
    Advertised,
    /// Pretty certain.
    High,
    /// Likely correct.
    Medium,
    /// More likely than not.
    Low,
}

/// One conclusion about a service that could be running on a port.
#[derive(Clone, Debug)]
pub struct ServiceDetectionConclusion {
    /// How certain this conclusion is.
    pub certainty: ServiceDetectionCertainty,
    /// A human-readable name of the service.
    pub service_name: String,
    /// The detected version, when one could be read.
    pub service_version: Option<String>,
}

/// The base error type for rules.
#[derive(Clone, Debug)]
pub enum RuleError {
    /// An I/O error met while probing; the payload describes it.
    IOError(String),
    /// A hard failure from bad internal state or a coding error.  Dependent
    /// rules are pruned.
    InternalRuleError(String),
}

/// All the information a rule needs about the port under analysis.  The
/// clearance waiting (permit plus jitter) happens in the driver; this
/// record carries the plain facts.
#[derive(Clone, Debug)]
pub struct PortToAnalyze {
    /// The inclusive-exclusive jitter range in milliseconds, if throttling
    /// is on.
    pub throttle_range: Option<(u64, u64)>,
    /// The instance under analysis.
    pub target_instance: TargetInstance,
    /// The port under analysis.
    pub port: u16,
}

impl PortToAnalyze {
    /// Simple constructor for [`PortToAnalyze`].
    pub fn new(
        throttle_range: Option<(u64, u64)>,
        target_instance: TargetInstance,
        port: u16,
    ) -> (r: Self)
        ensures
            r.throttle_range == throttle_range,
            r.target_instance == target_instance,
            r.port == port,
    {
        PortToAnalyze { throttle_range, target_instance, port }
    }

    /// The port to probe.
    pub fn port(&self) -> (r: u16)
        ensures
            r == self.port,
    {
        self.port
    }
}

} // verus!
