//! Probe outcomes.
//!
//! A probe issues one HTTP GET against a candidate and a port; the caller
//! reports back what it observed as a `ProbeResponse`. Classification
//! collapses every failure mode — transport error, timeout, task failure,
//! non-success status — to `Unreachable`; only a response that arrived in
//! time with a success status makes the candidate `Reachable`.

use vstd::prelude::*;

use crate::address::Ipv4Address;

verus! {

/// What the caller observed for one probe before the timeout.
#[derive(Clone, Copy, Debug, PartialEq, Eq, Structural)]
pub enum ProbeResponse {
    /// A response arrived in time, with this HTTP status code.
    Completed(u16),
    /// The request failed (connection refused, transport error, task failure).
    Failed,
    /// No terminal state was reached before the timeout.
    TimedOut,
}

/// The outcome of one probe.
#[derive(Clone, Copy, Debug, PartialEq, Eq, Structural)]
pub enum ProbeOutcome {
    /// The candidate answered in time with a success status.
    Reachable(Ipv4Address),
    /// Anything else.
    Unreachable,
}

/// Whether an HTTP status code indicates success.
pub open spec fn is_success_status(status: u16) -> bool {
    200 <= status <= 299
}

/// The outcome a response classifies to.
pub open spec fn outcome_of(address: Ipv4Address, response: ProbeResponse) -> ProbeOutcome {
    match response {
        ProbeResponse::Completed(status) => if is_success_status(status) {
            ProbeOutcome::Reachable(address)
        } else {
            ProbeOutcome::Unreachable
        },
        ProbeResponse::Failed => ProbeOutcome::Unreachable,
        ProbeResponse::TimedOut => ProbeOutcome::Unreachable,
    }
}

/// Timeout isolation, as far as classification goes: a probe that reached no
/// terminal state within its budget is `Unreachable`, for every address —
/// the same as any active failure.
pub proof fn lemma_timeout_is_unreachable(address: Ipv4Address)
    ensures
        outcome_of(address, ProbeResponse::TimedOut) == ProbeOutcome::Unreachable,
        outcome_of(address, ProbeResponse::TimedOut) == outcome_of(
            address,
            ProbeResponse::Failed,
        ),
{
}

/// Classifies what was observed for `address`: `Reachable(address)` exactly
/// when a response arrived in time and its status is in `200..=299`.
pub fn classify_probe(address: Ipv4Address, response: ProbeResponse) -> (o: ProbeOutcome)
    ensures
        o == outcome_of(address, response),
{
    match response {
        ProbeResponse::Completed(status) => {
            if 200 <= status && status <= 299 {
                ProbeOutcome::Reachable(address)
            } else {
                ProbeOutcome::Unreachable
            }
        },
        ProbeResponse::Failed => ProbeOutcome::Unreachable,
        ProbeResponse::TimedOut => ProbeOutcome::Unreachable,
    }
}

} // verus!
