use ipscan::address::Ipv4Address;
use ipscan::probe::ProbeOutcome;
use ipscan::probe::ProbeResponse;
use ipscan::probe::classify_probe;

fn addr(o0: u8, o1: u8, o2: u8, o3: u8) -> Ipv4Address {
    Ipv4Address { o0, o1, o2, o3 }
}

#[test]
fn success_statuses_are_reachable() {
    let a = addr(10, 0, 0, 5);
    assert_eq!(classify_probe(a, ProbeResponse::Completed(200)), ProbeOutcome::Reachable(a));
    assert_eq!(classify_probe(a, ProbeResponse::Completed(204)), ProbeOutcome::Reachable(a));
    assert_eq!(classify_probe(a, ProbeResponse::Completed(299)), ProbeOutcome::Reachable(a));
}

#[test]
fn non_success_statuses_are_unreachable() {
    let a = addr(10, 0, 0, 5);
    assert_eq!(classify_probe(a, ProbeResponse::Completed(199)), ProbeOutcome::Unreachable);
    assert_eq!(classify_probe(a, ProbeResponse::Completed(300)), ProbeOutcome::Unreachable);
    assert_eq!(classify_probe(a, ProbeResponse::Completed(301)), ProbeOutcome::Unreachable);
    assert_eq!(classify_probe(a, ProbeResponse::Completed(404)), ProbeOutcome::Unreachable);
    assert_eq!(classify_probe(a, ProbeResponse::Completed(500)), ProbeOutcome::Unreachable);
    assert_eq!(classify_probe(a, ProbeResponse::Completed(0)), ProbeOutcome::Unreachable);
}

#[test]
fn every_failure_mode_collapses_to_unreachable() {
    let a = addr(192, 168, 1, 9);
    assert_eq!(classify_probe(a, ProbeResponse::Failed), ProbeOutcome::Unreachable);
    assert_eq!(classify_probe(a, ProbeResponse::TimedOut), ProbeOutcome::Unreachable);
}
