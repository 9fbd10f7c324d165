use ipscan::address::Ipv4Address;
use ipscan::generator::generate_candidates;
use ipscan::pattern::substitute;

fn addr(o0: u8, o1: u8, o2: u8, o3: u8) -> Ipv4Address {
    Ipv4Address { o0, o1, o2, o3 }
}

#[test]
fn substitute_replaces_placeholder() {
    assert_eq!(substitute("10.0.0.{}", 7), "10.0.0.7");
    assert_eq!(substitute("{}", 254), "254");
    assert_eq!(substitute("a{}b", 3), "a3b");
    assert_eq!(substitute("{}.0.0.1", 12), "12.0.0.1");
}

#[test]
fn substitute_replaces_only_the_first_placeholder() {
    assert_eq!(substitute("{}.{}", 1), "1.{}");
    assert_eq!(substitute("x{}{}", 2), "x2{}");
}

#[test]
fn substitute_leaves_patterns_without_placeholder_unchanged() {
    assert_eq!(substitute("no placeholder", 5), "no placeholder");
    assert_eq!(substitute("{", 1), "{");
    assert_eq!(substitute("}", 1), "}");
    assert_eq!(substitute("}{", 1), "}{");
    assert_eq!(substitute("", 9), "");
}

#[test]
fn generator_full_range_is_ascending_and_complete() {
    let candidates = generate_candidates("10.0.0.{}", 254);
    assert_eq!(candidates.len(), 254);
    for (i, c) in candidates.iter().enumerate() {
        assert_eq!(*c, addr(10, 0, 0, (i + 1) as u8));
    }
}

#[test]
fn generator_respects_small_ranges() {
    let candidates = generate_candidates("10.0.0.{}", 5);
    let expected = vec![
        addr(10, 0, 0, 1),
        addr(10, 0, 0, 2),
        addr(10, 0, 0, 3),
        addr(10, 0, 0, 4),
        addr(10, 0, 0, 5),
    ];
    assert_eq!(candidates, expected);
    assert!(generate_candidates("10.0.0.{}", 0).is_empty());
}

#[test]
fn generator_drops_invalid_substitutions() {
    // "2{}.0.0.1" stays a valid address for n in 1..=9 (21..29) and
    // n in 10..=55 (210..255); 256 and above fail to parse.
    let candidates = generate_candidates("2{}.0.0.1", 60);
    assert_eq!(candidates.len(), 55);
    assert_eq!(candidates[0], addr(21, 0, 0, 1));
    assert_eq!(candidates[8], addr(29, 0, 0, 1));
    assert_eq!(candidates[9], addr(210, 0, 0, 1));
    assert_eq!(candidates[54], addr(255, 0, 0, 1));
    // Distinct last-octet sources give distinct addresses here.
    for w in candidates.windows(2) {
        assert!(w[0] != w[1]);
    }
}

#[test]
fn generator_yields_nothing_for_unparsable_patterns() {
    assert!(generate_candidates("hello", 254).is_empty());
    assert!(generate_candidates("10.0.0.0{}", 254).is_empty());
    assert!(generate_candidates("10.0.{}", 254).is_empty());
}

#[test]
fn generator_without_placeholder_repeats_a_literal_address() {
    let candidates = generate_candidates("10.0.0.1", 254);
    assert_eq!(candidates.len(), 254);
    for c in candidates.iter() {
        assert_eq!(*c, addr(10, 0, 0, 1));
    }
}
