//! Everything needed to describe the results of a portscan.

use vstd::prelude::*;

use crate::err::PortscanErr;
use crate::icmp::PingResult;
use crate::service_detection::framework::ServiceDetectionConclusion;
use crate::target::{Target, TargetInstance};

verus! {

/// A portscan produces one report per expanded target instance, plus one per
/// target that could not be turned into an instance at all.
#[derive(Debug)]
pub struct Report {
    /// The original target as provided by the user.
    pub target: Target,
    /// The instance the scan was actually performed on.  It is left out when
    /// no instance could be made, for example when a hostname fails to
    /// resolve.
    pub instance: Option<TargetInstance>,
    /// What happened: detailed contents on a successful run, an error on a
    /// failure.  A remote host being down is not a failure; failing to even
    /// resolve its name is.
    pub contents: Result<ReportContents, PortscanErr>,
}

/// The detailed report of a portscan that ran.
#[derive(Clone, Debug)]
pub struct ReportContents {
    /// The result of pinging the host, when a ping was attempted.
    pub icmp: Option<PingResult>,
    /// The per-port findings.  Left out when the scan never reached the
    /// ports, for example when the ping hit an I/O error.
    pub ports: Option<Vec<PortReport>>,
}

/// The findings for one scanned port.
#[derive(Clone, Debug)]
pub struct PortReport {
    /// The port.
    pub port: u16,
    /// Whether it accepted a connection.
    pub status: PortStatus,
    /// The summary of all service detection conclusions, if detection ran.
    pub service_detection_conclusions: Option<Vec<ServiceDetectionConclusion>>,
}

impl PortReport {
    /// Attach the service-detection conclusions of this port.  This is the
    /// one mutation a port report undergoes after the TCP stage built it.
    pub fn attach_conclusions(&mut self, conclusions: Vec<ServiceDetectionConclusion>)
        ensures
            final(self).port == old(self).port,
            final(self).status == old(self).status,
            final(self).service_detection_conclusions == Some(conclusions),
    {
        self.service_detection_conclusions = Some(conclusions);
    }
}

/// The state of a scanned port.
#[derive(Clone, Copy, Debug, PartialEq, Eq, Structural)]
pub enum PortStatus {
    /// The port completed a connection handshake.
    Open,
    /// The port did not accept a connection: refused, timed out, or
    /// unreachable.
    Closed,
}

} // verus!
