use ipscan::address::Ipv4Address;
use ipscan::coordinator::ScanCoordinator;
use ipscan::coordinator::scan_with_responses;
use ipscan::probe::ProbeOutcome;
use ipscan::probe::ProbeResponse;
use ipscan::probe::classify_probe;

fn addr(o0: u8, o1: u8, o2: u8, o3: u8) -> Ipv4Address {
    Ipv4Address { o0, o1, o2, o3 }
}

fn range(n: u8) -> Vec<Ipv4Address> {
    let mut v: Vec<Ipv4Address> = Vec::new();
    for i in 1..=n {
        v.push(addr(10, 0, 0, i));
    }
    v
}

/// A fake prober: answers success for a fixed set of addresses and records
/// every address it was asked to probe.
struct FakeProber {
    answering: Vec<Ipv4Address>,
    probed: Vec<Ipv4Address>,
}

impl FakeProber {
    fn respond(&mut self, a: Ipv4Address) -> ProbeResponse {
        self.probed.push(a);
        if self.answering.contains(&a) {
            ProbeResponse::Completed(200)
        } else {
            ProbeResponse::Failed
        }
    }
}

#[test]
fn every_candidate_probed_exactly_once_with_full_join() {
    let candidates = range(20);
    let mut prober = FakeProber { answering: vec![addr(10, 0, 0, 3)], probed: Vec::new() };
    let mut coord = ScanCoordinator::new(candidates.clone(), 4);
    let mut in_flight: Vec<Ipv4Address> = Vec::new();
    let mut max_in_flight: usize = 0;
    while !coord.is_complete() {
        while coord.can_launch() {
            let a = coord.launch();
            in_flight.push(a);
            if in_flight.len() > max_in_flight {
                max_in_flight = in_flight.len();
            }
        }
        let a = in_flight.pop().expect("incomplete scan with nothing in flight");
        let response = prober.respond(a);
        coord.resolve(classify_probe(a, response));
    }
    // The concurrency ceiling held at every instant.
    assert!(max_in_flight <= 4);
    assert_eq!(max_in_flight, 4);
    // Every candidate was probed exactly once: same multiset, order aside.
    let mut probed = prober.probed.clone();
    probed.sort_by_key(|a| (a.o0, a.o1, a.o2, a.o3));
    let mut expected = candidates.clone();
    expected.sort_by_key(|a| (a.o0, a.o1, a.o2, a.o3));
    assert_eq!(probed, expected);
    let result = coord.into_result();
    assert_eq!(result.reachable, vec![addr(10, 0, 0, 3)]);
}

#[test]
fn ceiling_blocks_launches_until_a_probe_resolves() {
    let mut coord = ScanCoordinator::new(range(5), 2);
    assert!(coord.can_launch());
    let a1 = coord.launch();
    let a2 = coord.launch();
    assert_eq!(a1, addr(10, 0, 0, 1));
    assert_eq!(a2, addr(10, 0, 0, 2));
    // Two probes in flight: at the ceiling, although candidates remain.
    assert!(!coord.can_launch());
    coord.resolve(ProbeOutcome::Unreachable);
    assert!(coord.can_launch());
}

#[test]
fn reachable_addresses_collect_in_completion_order() {
    let a1 = addr(10, 0, 0, 1);
    let a2 = addr(10, 0, 0, 2);
    let mut coord = ScanCoordinator::new(vec![a1, a2], 2);
    let first = coord.launch();
    let second = coord.launch();
    assert_eq!((first, second), (a1, a2));
    // The second probe resolves first: completion order, not candidate order.
    coord.resolve(ProbeOutcome::Reachable(a2));
    coord.resolve(ProbeOutcome::Reachable(a1));
    assert!(coord.is_complete());
    assert_eq!(coord.into_result().reachable, vec![a2, a1]);
}

#[test]
fn sequential_driver_filters_by_outcome() {
    let candidates = range(3);
    let responses = vec![
        ProbeResponse::Completed(200),
        ProbeResponse::TimedOut,
        ProbeResponse::Completed(204),
    ];
    let result = scan_with_responses(candidates, 1, &responses);
    assert_eq!(result.reachable, vec![addr(10, 0, 0, 1), addr(10, 0, 0, 3)]);
}

#[test]
fn empty_candidate_set_is_a_normal_empty_result() {
    let result = scan_with_responses(Vec::new(), 1, &Vec::new());
    assert!(result.is_empty());
    assert_eq!(result.len(), 0);
}
