//! Scan configuration.
//!
//! One immutable bundle of inputs for a scan: the address pattern, the
//! target port, the concurrency ceiling, the per-probe timeout and the
//! highest last-octet value to try. The former process-wide constants are
//! fields here, so a caller (or a test) can scan a small range with a tight
//! timeout.

use vstd::prelude::*;

verus! {

/// The highest last-octet value substituted into the pattern.
pub const HIGHEST_LAST_OCTET: u8 = 254;

/// The default concurrency ceiling: one slot per possible candidate.
pub const DEFAULT_CONCURRENCY_LIMIT: usize = 254;

/// The default per-probe timeout, in milliseconds.
pub const DEFAULT_TIMEOUT_MS: u64 = 1000;

/// The inputs of one scan. Created once, never mutated.
#[derive(Clone, Debug)]
pub struct Configuration {
    /// Address template with a `{}` placeholder for the last octet.
    pub pattern: String,
    /// Target TCP port.
    pub port: u16,
    /// Most probes allowed in flight at once.
    pub concurrency_limit: usize,
    /// Wall-clock budget of a single probe, in milliseconds.
    pub timeout_ms: u64,
    /// Last-octet values `1..=max_last_octet` are tried.
    pub max_last_octet: u8,
}

impl Configuration {
    /// A usable configuration: the ceiling leaves room for at least one probe.
    pub open spec fn wf(self) -> bool {
        self.concurrency_limit >= 1
    }

    /// A configuration with the default ceiling, timeout and octet range.
    pub fn new(pattern: String, port: u16) -> (c: Configuration)
        ensures
            c.wf(),
            c.pattern == pattern,
            c.port == port,
            c.concurrency_limit == DEFAULT_CONCURRENCY_LIMIT,
            c.timeout_ms == DEFAULT_TIMEOUT_MS,
            c.max_last_octet == HIGHEST_LAST_OCTET,
    {
        Configuration {
            pattern,
            port,
            concurrency_limit: DEFAULT_CONCURRENCY_LIMIT,
            timeout_ms: DEFAULT_TIMEOUT_MS,
            max_last_octet: HIGHEST_LAST_OCTET,
        }
    }
}

} // verus!
