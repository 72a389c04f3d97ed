//! Errors that can surface while a portscan runs.

use vstd::prelude::*;

verus! {

/// An error during the process of a portscan.  This covers all possible
/// errors at any point, so not all variants make sense in all cases.
#[derive(Clone, Debug)]
pub enum PortscanErr {
    /// The hostname target would not resolve.  The payload describes the
    /// underlying I/O failure.
    FailedToResolveHostname(String),
    /// An action that needs elevated privileges failed, most likely the
    /// opening of a raw socket for ICMP or SYN scans.
    InsufficientPermission,
}

impl PortscanErr {
    /// True for the variant produced when hostname resolution fails.
    pub fn is_resolution_failure(&self) -> (r: bool)
        ensures
            r == self is FailedToResolveHostname,
    {
        match self {
            PortscanErr::FailedToResolveHostname(_) => true,
            PortscanErr::InsufficientPermission => false,
        }
    }
}

} // verus!
