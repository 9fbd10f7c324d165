use ipscan::address::Ipv4Address;
use ipscan::config::Configuration;
use ipscan::config::DEFAULT_CONCURRENCY_LIMIT;
use ipscan::config::DEFAULT_TIMEOUT_MS;
use ipscan::config::HIGHEST_LAST_OCTET;
use ipscan::coordinator::ScanResult;
use ipscan::coordinator::scan;
use ipscan::generator::generate_candidates;
use ipscan::probe::ProbeResponse;
use ipscan::report::format_report;

fn addr(o0: u8, o1: u8, o2: u8, o3: u8) -> Ipv4Address {
    Ipv4Address { o0, o1, o2, o3 }
}

/// Responses for every candidate: success exactly for the listed addresses.
fn stub_responses(candidates: &[Ipv4Address], answering: &[Ipv4Address]) -> Vec<ProbeResponse> {
    candidates
        .iter()
        .map(|c| {
            if answering.contains(c) {
                ProbeResponse::Completed(200)
            } else {
                ProbeResponse::Failed
            }
        })
        .collect()
}

#[test]
fn configuration_defaults_match_the_cli_defaults() {
    let config = Configuration::new(String::from("10.0.0.{}"), 80);
    assert_eq!(config.pattern, "10.0.0.{}");
    assert_eq!(config.port, 80);
    assert_eq!(config.concurrency_limit, DEFAULT_CONCURRENCY_LIMIT);
    assert_eq!(config.concurrency_limit, 254);
    assert_eq!(config.timeout_ms, DEFAULT_TIMEOUT_MS);
    assert_eq!(config.timeout_ms, 1000);
    assert_eq!(config.max_last_octet, HIGHEST_LAST_OCTET);
    assert_eq!(config.max_last_octet, 254);
}

#[test]
fn scenario_two_responders_on_port_80() {
    let config = Configuration::new(String::from("10.0.0.{}"), 80);
    let candidates = generate_candidates("10.0.0.{}", config.max_last_octet);
    let answering = vec![addr(10, 0, 0, 5), addr(10, 0, 0, 77)];
    let responses = stub_responses(&candidates, &answering);
    let result = scan(&config, &responses);
    assert_eq!(result.reachable, answering);
    let report = format_report(&result, config.port);
    assert_eq!(
        report,
        "Reachable IPs (on port 80):\n  http://10.0.0.5\n  http://10.0.0.77\n"
    );
    assert_eq!(report.lines().count(), 3);
}

#[test]
fn scenario_no_responders_on_port_8096() {
    let config = Configuration::new(String::from("10.0.0.{}"), 8096);
    let candidates = generate_candidates("10.0.0.{}", config.max_last_octet);
    let responses = stub_responses(&candidates, &[]);
    let result = scan(&config, &responses);
    assert!(result.is_empty());
    assert_eq!(format_report(&result, config.port), "No reachable IPs!\n");
}

#[test]
fn scenario_one_silent_candidate_times_out_without_blocking_the_rest() {
    let config = Configuration::new(String::from("10.0.0.{}"), 80);
    let candidates = generate_candidates("10.0.0.{}", config.max_last_octet);
    let silent = addr(10, 0, 0, 9);
    let responses: Vec<ProbeResponse> = candidates
        .iter()
        .map(|c| if *c == silent { ProbeResponse::TimedOut } else { ProbeResponse::Completed(200) })
        .collect();
    let result = scan(&config, &responses);
    // The scan still completed over every candidate; only the silent one is
    // missing from the result.
    assert_eq!(result.reachable.len(), 253);
    assert!(!result.reachable.contains(&silent));
}

#[test]
fn pattern_with_no_valid_candidates_scans_to_an_empty_result() {
    let config = Configuration::new(String::from("not an address"), 80);
    let candidates = generate_candidates("not an address", config.max_last_octet);
    assert!(candidates.is_empty());
    let result = scan(&config, &Vec::new());
    assert!(result.is_empty());
}

#[test]
fn report_formats_the_port_and_each_address() {
    let result = ScanResult { reachable: vec![addr(192, 168, 0, 40), addr(10, 0, 0, 254)] };
    assert_eq!(
        format_report(&result, 8096),
        "Reachable IPs (on port 8096):\n  http://192.168.0.40\n  http://10.0.0.254\n"
    );
    let empty = ScanResult { reachable: Vec::new() };
    assert_eq!(format_report(&empty, 8096), "No reachable IPs!\n");
}
