//! The scan coordinator.
//!
//! `ScanCoordinator` is the decision core of a bounded-concurrency scan. The
//! caller's loop asks it which candidate to launch next and reports each
//! probe's outcome back; the coordinator enforces the concurrency ceiling
//! (a launch is only allowed while fewer than `limit` probes are in flight),
//! hands out every candidate exactly once and in order, and accumulates the
//! reachable addresses in the order their outcomes were reported — completion
//! order, which need not be candidate order.

use vstd::prelude::*;

use crate::address::Ipv4Address;
use crate::config::Configuration;
use crate::generator::candidate_seq;
use crate::generator::generate_candidates;
use crate::probe::ProbeOutcome;
use crate::probe::ProbeResponse;
use crate::probe::classify_probe;
use crate::probe::outcome_of;

verus! {

/// The addresses that answered, in the order their outcomes resolved.
/// An empty result is a normal result, not an error.
#[derive(Clone, Debug)]
pub struct ScanResult {
    pub reachable: Vec<Ipv4Address>,
}

impl ScanResult {
    /// How many addresses answered.
    pub fn len(&self) -> (n: usize)
        ensures
            n == self.reachable@.len(),
    {
        self.reachable.len()
    }

    /// Whether no address answered.
    pub fn is_empty(&self) -> (b: bool)
        ensures
            b == (self.reachable@.len() == 0),
    {
        self.reachable.len() == 0
    }
}

/// The state of one scan in progress.
pub struct ScanCoordinator {
    /// All candidates, in generation order.
    pub candidates: Vec<Ipv4Address>,
    /// How many candidates have been launched so far; candidates before this
    /// index have each been handed out exactly once.
    pub launched: usize,
    /// Launched probes whose outcome has not been reported yet.
    pub in_flight: usize,
    /// Probes whose outcome has been reported.
    pub resolved: usize,
    /// The reachable addresses, in the order their outcomes were reported.
    pub reachable: Vec<Ipv4Address>,
    /// The concurrency ceiling.
    pub limit: usize,
    /// The candidates handed out so far, in the order they were handed out.
    pub handed_out: Ghost<Seq<Ipv4Address>>,
}

impl ScanCoordinator {
    /// The coordinator's invariant: every launched probe is either in flight
    /// or resolved, at most `limit` are in flight at once, only resolved
    /// probes can have contributed a reachable address, and the candidates
    /// handed out so far are exactly the first `launched` ones — each handed
    /// out once, none skipped, none repeated.
    pub open spec fn wf(self) -> bool {
        &&& self.limit >= 1
        &&& self.launched <= self.candidates@.len()
        &&& self.in_flight + self.resolved == self.launched
        &&& self.handed_out@ == self.candidates@.subrange(0, self.launched as int)
        &&& self.in_flight <= self.limit
        &&& self.reachable@.len() <= self.resolved
    }

    /// Whether every candidate's probe has resolved.
    pub open spec fn complete_spec(self) -> bool {
        self.resolved == self.candidates@.len()
    }

    /// A fresh scan over `candidates` with concurrency ceiling `limit`.
    pub fn new(candidates: Vec<Ipv4Address>, limit: usize) -> (c: ScanCoordinator)
        requires
            limit >= 1,
        ensures
            c.wf(),
            c.candidates == candidates,
            c.launched == 0,
            c.in_flight == 0,
            c.resolved == 0,
            c.reachable@ == Seq::<Ipv4Address>::empty(),
            c.limit == limit,
            c.handed_out@ == Seq::<Ipv4Address>::empty(),
    {
        let c = ScanCoordinator {
            candidates,
            launched: 0,
            in_flight: 0,
            resolved: 0,
            reachable: Vec::new(),
            limit,
            handed_out: Ghost(Seq::empty()),
        };
        proof {
            assert(c.reachable@ =~= Seq::<Ipv4Address>::empty());
            assert(c.handed_out@ =~= c.candidates@.subrange(0, 0));
        }
        c
    }

    /// Whether another probe may be launched now: a candidate is waiting and
    /// the concurrency ceiling leaves room.
    pub fn can_launch(&self) -> (b: bool)
        ensures
            b == (self.in_flight < self.limit && self.launched < self.candidates@.len()),
    {
        self.in_flight < self.limit && self.launched < self.candidates.len()
    }

    /// Launches the next candidate. Never exceeds the ceiling: callable only
    /// while fewer than `limit` probes are in flight.
    pub fn launch(&mut self) -> (a: Ipv4Address)
        requires
            old(self).wf(),
            old(self).in_flight < old(self).limit,
            old(self).launched < old(self).candidates@.len(),
        ensures
            final(self).wf(),
            a == old(self).candidates@[old(self).launched as int],
            final(self).launched == old(self).launched + 1,
            final(self).in_flight == old(self).in_flight + 1,
            final(self).resolved == old(self).resolved,
            final(self).reachable == old(self).reachable,
            final(self).candidates == old(self).candidates,
            final(self).limit == old(self).limit,
            final(self).handed_out@ == old(self).handed_out@.push(a),
    {
        let n = self.candidates.len();
        let a = self.candidates[self.launched];
        proof {
            assert(self.launched < n);
            assert(self.handed_out@.push(a) =~= self.candidates@.subrange(
                0,
                self.launched + 1,
            ));
        }
        self.handed_out = Ghost(self.handed_out@.push(a));
        self.launched = self.launched + 1;
        self.in_flight = self.in_flight + 1;
        a
    }

    /// Reports one in-flight probe's outcome. A `Reachable` outcome appends
    /// its address to the result; every outcome frees one slot under the
    /// ceiling.
    pub fn resolve(&mut self, outcome: ProbeOutcome)
        requires
            old(self).wf(),
            old(self).in_flight >= 1,
        ensures
            final(self).wf(),
            final(self).in_flight == old(self).in_flight - 1,
            final(self).resolved == old(self).resolved + 1,
            final(self).reachable@ == match outcome {
                ProbeOutcome::Reachable(a) => old(self).reachable@.push(a),
                ProbeOutcome::Unreachable => old(self).reachable@,
            },
            final(self).launched == old(self).launched,
            final(self).candidates == old(self).candidates,
            final(self).limit == old(self).limit,
            final(self).handed_out == old(self).handed_out,
    {
        self.in_flight = self.in_flight - 1;
        self.resolved = self.resolved + 1;
        match outcome {
            ProbeOutcome::Reachable(a) => self.reachable.push(a),
            ProbeOutcome::Unreachable => (),
        }
    }

    /// Whether the scan is complete: every candidate's probe has resolved.
    pub fn is_complete(&self) -> (b: bool)
        ensures
            b == self.complete_spec(),
    {
        self.resolved == self.candidates.len()
    }

    /// The finished scan's result.
    pub fn into_result(self) -> (r: ScanResult)
        requires
            self.wf(),
            self.complete_spec(),
        ensures
            r.reachable == self.reachable,
    {
        ScanResult { reachable: self.reachable }
    }
}

/// The concurrency bound: a well-formed coordinator never has more than
/// `limit` probes in flight, and a launch cannot happen at the ceiling.
pub proof fn lemma_concurrency_bounded(c: ScanCoordinator)
    requires
        c.wf(),
    ensures
        c.in_flight <= c.limit,
{
}

/// The full join: once a scan is complete, no probe is still in flight, and
/// the candidates handed out are exactly all of them, in order — each was
/// probed exactly once, none skipped, none repeated.
pub proof fn lemma_complete_is_full_join(c: ScanCoordinator)
    requires
        c.wf(),
        c.complete_spec(),
    ensures
        c.launched == c.candidates@.len(),
        c.in_flight == 0,
        c.resolved == c.candidates@.len(),
        c.handed_out@ == c.candidates@,
{
    assert(c.candidates@.subrange(0, c.candidates@.len() as int) =~= c.candidates@);
}

/// The reachable addresses among `cands[..k]`, probed in candidate order
/// against the response each candidate would get.
pub open spec fn reachable_upto(
    cands: Seq<Ipv4Address>,
    resps: Seq<ProbeResponse>,
    k: int,
) -> Seq<Ipv4Address>
    decreases k,
{
    if k <= 0 {
        Seq::empty()
    } else {
        reachable_upto(cands, resps, k - 1) + match outcome_of(cands[k - 1], resps[k - 1]) {
            ProbeOutcome::Reachable(a) => seq![a],
            ProbeOutcome::Unreachable => Seq::empty(),
        }
    }
}

/// The reachable addresses among all of `cands`, in candidate order.
pub open spec fn reachable_of(cands: Seq<Ipv4Address>, resps: Seq<ProbeResponse>) -> Seq<
    Ipv4Address,
> {
    reachable_upto(cands, resps, cands.len() as int)
}

/// Set reading of a scan's result: an address is in it exactly when some
/// candidate equal to it was answered with a success status.
pub proof fn lemma_reachable_membership(
    cands: Seq<Ipv4Address>,
    resps: Seq<ProbeResponse>,
    k: int,
    a: Ipv4Address,
)
    requires
        0 <= k <= cands.len(),
        resps.len() == cands.len(),
    ensures
        reachable_upto(cands, resps, k).contains(a) <==> exists|j: int|
            0 <= j < k && cands[j] == a && outcome_of(cands[j], resps[j])
                == ProbeOutcome::Reachable(a),
    decreases k,
{
    if k > 0 {
        lemma_reachable_membership(cands, resps, k - 1, a);
        let r0 = reachable_upto(cands, resps, k - 1);
        let r = reachable_upto(cands, resps, k);
        match outcome_of(cands[k - 1], resps[k - 1]) {
            ProbeOutcome::Reachable(b) => {
                assert(b == cands[k - 1]);
                assert(r =~= r0.push(b));
                if r.contains(a) {
                    let i = choose|i: int| 0 <= i < r.len() && r[i] == a;
                    if i < r0.len() {
                        assert(r0[i] == a);
                    } else {
                        assert(a == b);
                    }
                }
                if a == b {
                    assert(r[r.len() - 1] == a);
                }
                assert forall|j: int|
                    0 <= j < k - 1 && cands[j] == a && outcome_of(cands[j], resps[j])
                        == ProbeOutcome::Reachable(a) implies r.contains(a) by {
                    assert(r0.contains(a));
                    let i = choose|i: int| 0 <= i < r0.len() && r0[i] == a;
                    assert(r[i] == a);
                }
            },
            ProbeOutcome::Unreachable => {
                assert(r == r0);
            },
        }
    }
}

/// One whole scan, driven sequentially: every candidate is probed exactly
/// once, each probe's response classified, and the scan returns only after
/// all of them have resolved. `responses[i]` is what the probe of
/// `candidates[i]` observed; with this driver, outcomes resolve in candidate
/// order.
pub fn scan_with_responses(
    candidates: Vec<Ipv4Address>,
    limit: usize,
    responses: &Vec<ProbeResponse>,
) -> (r: ScanResult)
    requires
        limit >= 1,
        responses@.len() == candidates@.len(),
    ensures
        r.reachable@ == reachable_of(candidates@, responses@),
{
    let ghost cands = candidates@;
    let n = candidates.len();
    let mut coord = ScanCoordinator::new(candidates, limit);
    let mut i: usize = 0;
    while i < n
        invariant
            coord.wf(),
            i <= n,
            n == cands.len(),
            responses@.len() == cands.len(),
            coord.candidates@ == cands,
            coord.launched == i,
            coord.in_flight == 0,
            coord.resolved == i,
            coord.limit == limit,
            coord.reachable@ == reachable_upto(cands, responses@, i as int),
        decreases n - i,
    {
        let a = coord.launch();
        let response = responses[i];
        let outcome = classify_probe(a, response);
        coord.resolve(outcome);
        proof {
            assert(coord.reachable@ =~= reachable_upto(cands, responses@, i + 1));
        }
        i = i + 1;
    }
    coord.into_result()
}


/// One whole scan from a configuration: the pattern is expanded into
/// candidates and each is probed exactly once. `responses[i]` is what the
/// probe of the `i`-th candidate observed.
pub fn scan(config: &Configuration, responses: &Vec<ProbeResponse>) -> (r: ScanResult)
    requires
        config.wf(),
        responses@.len() == candidate_seq(
            config.pattern@,
            config.max_last_octet as nat,
        ).len(),
    ensures
        r.reachable@ == reachable_of(
            candidate_seq(config.pattern@, config.max_last_octet as nat),
            responses@,
        ),
{
    let candidates = generate_candidates(config.pattern.as_str(), config.max_last_octet);
    scan_with_responses(candidates, config.concurrency_limit, responses)
}

/// A scan over no candidates resolves to an empty result — a normal result,
/// not an error.
pub proof fn lemma_no_candidates_empty_result(
    cands: Seq<Ipv4Address>,
    resps: Seq<ProbeResponse>,
)
    requires
        cands.len() == 0,
    ensures
        reachable_of(cands, resps) == Seq::<Ipv4Address>::empty(),
{
}

} // verus!
