//! One configured upstream service.
//!
//! An upstream is written on the command line as
//! `scheme://host[:port]/?interval=<dur>[&http2_only=true][&timeout=<dur>]`;
//! [`Upstream::from_str_bytes`] parses that form.  Durations are carried in
//! nanoseconds.

use vstd::prelude::*;

verus! {

/// One configured upstream: where to probe, how, and how often.
pub struct Upstream {
    pub scheme: Vec<u8>,
    pub host: Vec<u8>,
    pub port: Option<u16>,
    pub http2_only: bool,
    /// Nominal polling interval, nanoseconds.
    pub interval: u64,
    /// Per-probe timeout, nanoseconds, if bounded.
    pub timeout: Option<u64>,
}

/// Mathematical value of an [`Upstream`].
pub ghost struct UpstreamV {
    pub scheme: Seq<u8>,
    pub host: Seq<u8>,
    pub port: Option<u16>,
    pub http2_only: bool,
    pub interval: u64,
    pub timeout: Option<u64>,
}

impl DeepView for Upstream {
    type V = UpstreamV;

    open spec fn deep_view(&self) -> UpstreamV {
        UpstreamV {
            scheme: self.scheme.deep_view(),
            host: self.host.deep_view(),
            port: self.port,
            http2_only: self.http2_only,
            interval: self.interval,
            timeout: self.timeout,
        }
    }
}

/// The port probes and clusters use: the configured one, or 80.
pub open spec fn port_of(u: UpstreamV) -> u16 {
    match u.port {
        Some(p) => p,
        None => 80,
    }
}

impl Upstream {
    /// The port probes and clusters use: the configured one, or 80.
    pub fn effective_port(&self) -> (r: u16)
        ensures
            r == port_of(self.deep_view()),
    {
        match self.port {
            Some(p) => p,
            None => 80,
        }
    }
}

} // verus!
