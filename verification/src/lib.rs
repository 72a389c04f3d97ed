//! Core of a concurrent network port scanner.
//!
//! Given a set of targets (single addresses, CIDR networks, hostnames) and a
//! set of ports, the scanner produces one report per expanded target instance
//! describing host reachability, per-port connectivity and optional service
//! identification.  This crate holds the verified logic of that pipeline:
//! target expansion, the request/reply correlation reactor, the throttle and
//! batching state machines, the TCP result classification, the
//! service-detection planner and rules, and the configuration and report
//! model.  The asynchronous plumbing that drives these state machines lives
//! outside the library.

pub use crate::batch::BatchBuffer;
pub use crate::budget::InFlightBudget;
pub use crate::config::ConfigBuilder;
pub use crate::err::PortscanErr;
pub use crate::half_select::{InternalState, PollNext};
pub use crate::icmp::{
    socket_open_error, IcmpSummary, PingResult, PingResultType, PingSentSummary, PingWriteError,
    ReceivedIcmpPacket,
};
pub use crate::ip::{network_hosts, IpAddress, IpNetwork};
pub use crate::parse::target_from_str;
pub use crate::reactor::{Reactor, ReactorContext, ReactorEvent};
pub use crate::report::{PortReport, PortStatus, Report, ReportContents};
pub use crate::service_detection::framework::{
    PortHint, PortLikeliness, PortToAnalyze, Rule, RuleError, RuleId, RuleLoudness,
    ServiceDetectionCertainty, ServiceDetectionConclusion,
};
pub use crate::service_detection::plan::PortTestPlan;
pub use crate::service_detection::rule_results::{RuleOutcome, RuleResults};
pub use crate::service_detection::rules::{
    get_all_rules, parse_nginx_server_header, BasicHttpGetProbe, BasicHttpGetProbeResult,
    BasicSSLProbe, BasicSSLProbeResult, NginxDetectionRule, NginxDetectionRuleResult,
    HTTP_GET_PROBE_RULE_ID, NGINX_DETECTION_RULE_ID, SSL_PROBE_RULE_ID,
};
pub use crate::target::{
    expand_targets, expand_targets_shuffled, Resolution, Target, TargetInstance,
};
pub use crate::tcp::{
    build_port_reports, classify_connect, host_report, should_scan, shuffled_ports,
};
pub use crate::throttle::Throttle;
pub use crate::wire::{
    encode_echo_request, parse_ipv4_reply_identity, parse_ipv6_reply_identity,
};

pub mod batch;
pub mod budget;
pub mod config;
pub mod err;
pub mod half_select;
pub mod icmp;
pub mod ip;
pub mod parse;
pub mod report;
mod rng;
pub mod reactor;
pub mod reactor_laws;
pub mod service_detection;
pub mod target;
pub mod tcp;
pub mod throttle;
pub mod wire;
