//! The scan configuration builder: every knob a scan can be started with.

use core::ops::Range;
use vstd::prelude::*;

use crate::target::Target;

verus! {

/// A builder holding all parameters for a scan.
pub struct ConfigBuilder {
    /// The targets to scan.
    pub targets: Vec<Target>,
    /// The ports to scan on each target.
    pub ports: Vec<u16>,
    /// Whether to attempt to fingerprint services on open ports.
    pub run_service_detection: bool,
    /// Whether to ping each target before scanning.
    pub ping: bool,
    /// Whether to emit extremely detailed internal logging.
    pub tracing: bool,
    /// The inclusive-exclusive range, in milliseconds, of the random
    /// pauses inserted into the scan; unset means no throttling.
    pub throttle_range: Option<(u64, u64)>,
    /// The maximum number of in-flight tasks for a port scan.
    pub max_in_flight: u32,
}

impl Default for ConfigBuilder {
    /// The default settings of every scan: port 80 only, no ping, no
    /// service detection, no throttle, and a roomy in-flight budget.
    fn default() -> (r: Self)
        ensures
            r.targets@.len() == 0,
            r.ports@ == seq![80u16],
            !r.run_service_detection,
            !r.ping,
            !r.tracing,
            r.throttle_range is None,
            r.max_in_flight == 500000u32,
    {
        let mut ports: Vec<u16> = Vec::new();
        ports.push(80);
        proof {
            assert(ports@ =~= seq![80u16]);
        }
        ConfigBuilder {
            targets: Vec::new(),
            ports,
            run_service_detection: false,
            ping: false,
            tracing: false,
            throttle_range: None,
            max_in_flight: 500000,
        }
    }
}

impl ConfigBuilder {
    /// Add a target to the list of potential targets held in the builder.
    pub fn add_target(&mut self, target: Target)
        ensures
            final(self).targets@ == old(self).targets@.push(target),
            final(self).ports == old(self).ports,
            final(self).run_service_detection == old(self).run_service_detection,
            final(self).ping == old(self).ping,
            final(self).tracing == old(self).tracing,
            final(self).throttle_range == old(self).throttle_range,
            final(self).max_in_flight == old(self).max_in_flight,
    {
        self.targets.push(target)
    }

    /// Replace the list of ports to scan on each target.  This does not
    /// add to the list; it replaces it.
    pub fn set_port_list(&mut self, ports: Vec<u16>)
        ensures
            final(self).ports == ports,
            final(self).targets == old(self).targets,
            final(self).throttle_range == old(self).throttle_range,
    {
        self.ports = ports;
    }

    /// Set whether to attempt to fingerprint services on open ports.
    pub fn set_run_service_detection(&mut self, run_service_detection: bool)
        ensures
            final(self).run_service_detection == run_service_detection,
            final(self).targets == old(self).targets,
            final(self).ports == old(self).ports,
            final(self).throttle_range == old(self).throttle_range,
    {
        self.run_service_detection = run_service_detection;
    }

    /// Set whether to ping each target before scanning.
    pub fn set_ping(&mut self, ping: bool)
        ensures
            final(self).ping == ping,
            final(self).targets == old(self).targets,
            final(self).ports == old(self).ports,
            final(self).throttle_range == old(self).throttle_range,
    {
        self.ping = ping;
    }

    /// Enable or disable extremely detailed internal logging.  Only
    /// useful for internal development.
    pub fn set_tracing(&mut self, tracing: bool)
        ensures
            final(self).tracing == tracing,
            final(self).targets == old(self).targets,
            final(self).ports == old(self).ports,
            final(self).throttle_range == old(self).throttle_range,
    {
        self.tracing = tracing;
    }

    /// Set the range, in milliseconds, used when generating random pauses
    /// in the scan.  The range must be a real interval.
    pub fn set_throttle(&mut self, throttle_range: Range<u64>)
        requires
            throttle_range.start < throttle_range.end,
        ensures
            final(self).throttle_range == Some((throttle_range.start, throttle_range.end)),
            final(self).targets == old(self).targets,
            final(self).ports == old(self).ports,
    {
        self.throttle_range = Some((throttle_range.start, throttle_range.end));
    }

    /// Clear any previously set throttle.
    pub fn clear_throttle(&mut self)
        ensures
            final(self).throttle_range is None,
            final(self).targets == old(self).targets,
            final(self).ports == old(self).ports,
    {
        self.throttle_range = None;
    }

    /// Set the maximum number of in-flight tasks for a port scan.  Useful
    /// for limiting resource utilization.
    pub fn set_max_in_flight(&mut self, max_in_flight: u32)
        ensures
            final(self).max_in_flight == max_in_flight,
            final(self).targets == old(self).targets,
            final(self).ports == old(self).ports,
            final(self).throttle_range == old(self).throttle_range,
    {
        self.max_in_flight = max_in_flight;
    }
}

} // verus!
