//! The data model of the ICMP sweep stage.
//!
//! Sending and receiving echo packets happens outside the library; what is
//! held here is the outcome model that flows through the rest of the
//! pipeline, and the mapping from raw socket failures to scanner errors.
//! Times are milliseconds on the driver's clock.

use vstd::prelude::*;

use crate::err::PortscanErr;
use crate::ip::IpAddress;
use crate::reactor::ReactorContext;
use crate::target::TargetInstance;

verus! {

/// The result of one ICMP hello, if one was sent.
#[derive(Clone, Debug)]
pub struct PingResult {
    /// The time when the ping was sent or attempted to be sent.
    pub ping_sent: u64,
    /// What came of it: a reply, a timeout, or an I/O failure.
    pub result_type: PingResultType,
}

/// What became of one ICMP hello.
#[derive(Clone, Debug)]
pub enum PingResultType {
    /// An I/O error was hit when trying to send the ping.  The payload
    /// describes the underlying failure.
    Error(String),
    /// The hello was sent but no reply arrived in time.
    Timeout,
    /// A reply arrived.
    Reply(IcmpSummary),
}

/// Details of an ICMP reply: presently only the time it was received.
#[derive(Clone, Debug)]
pub struct IcmpSummary {
    /// The time the reply was received.
    pub time_received: u64,
}

impl PingResult {
    /// True when the ping failed outright, which makes later stages skip
    /// the host.
    pub fn is_error(&self) -> (r: bool)
        ensures
            r == self.result_type is Error,
    {
        match self.result_type {
            PingResultType::Error(_) => true,
            _ => false,
        }
    }
}

/// The error every raw-socket open failure maps to: such a failure means
/// the process lacks the privilege to speak ICMP.
pub fn socket_open_error() -> (r: PortscanErr)
    ensures
        r is InsufficientPermission,
{
    PortscanErr::InsufficientPermission
}

/// What the writer hands back for one successfully sent ping.
#[derive(Clone, Copy, Debug)]
pub struct PingSentSummary {
    /// The identity the echo request went out with.
    pub icmp_identity: u16,
    /// The time the request was written.
    pub time_sent: u64,
}

/// A ping that could not be written at all.
#[derive(Clone, Debug)]
pub struct PingWriteError {
    /// The instance the write was for.
    pub target_instance: TargetInstance,
    /// The time of the attempt.
    pub time_attempted: u64,
    /// The underlying I/O failure.
    pub error: String,
}

impl PingWriteError {
    /// Package one failed write attempt.
    pub fn new(target_instance: TargetInstance, time_attempted: u64, error: String) -> (r: Self)
        ensures
            r.target_instance == target_instance,
            r.time_attempted == time_attempted,
            r.error == error,
    {
        Self { target_instance, time_attempted, error }
    }
}

/// One decoded inbound echo reply, as the listener hands it over.
#[derive(Clone, Copy, Debug)]
pub struct ReceivedIcmpPacket {
    /// Where the reply came from.
    pub source: IpAddress,
    /// The identity recovered from the reply.
    pub identity: u16,
    /// The time the reply was received.
    pub time_received: u64,
}

/// The ICMP sweep correlates sent pings with replies through the reactor:
/// the per-request context is the instance with its send summary, a reply
/// is a decoded packet, and the conclusion is the ping's result.
impl ReactorContext for (TargetInstance, PingSentSummary) {
    type Reply = ReceivedIcmpPacket;

    type Conclusion = PingResult;

    open spec fn spec_start_time(&self) -> u64 {
        self.1.time_sent
    }

    open spec fn spec_timeout_conclusion(&self) -> PingResult {
        PingResult { ping_sent: self.1.time_sent, result_type: PingResultType::Timeout }
    }

    open spec fn spec_conclusion(&self, reply: ReceivedIcmpPacket) -> PingResult {
        PingResult {
            ping_sent: self.1.time_sent,
            result_type: PingResultType::Reply(
                IcmpSummary { time_received: reply.time_received },
            ),
        }
    }

    fn start_time(&self) -> (t: u64) {
        self.1.time_sent
    }

    fn create_timeout_conclusion(&self) -> (c: PingResult) {
        PingResult { ping_sent: self.1.time_sent, result_type: PingResultType::Timeout }
    }

    fn create_conclusion(&self, reply: ReceivedIcmpPacket) -> (c: PingResult) {
        PingResult {
            ping_sent: self.1.time_sent,
            result_type: PingResultType::Reply(
                IcmpSummary { time_received: reply.time_received },
            ),
        }
    }
}

} // verus!
