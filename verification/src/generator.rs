//! Candidate generation.
//!
//! For each last-octet value `n` in `1..=max`, the pattern's placeholder is
//! replaced by the decimal text of `n` and the result is parsed as an IPv4
//! address. Texts that are not valid addresses are dropped silently; the
//! candidates appear in ascending order of `n`.

use vstd::prelude::*;

use crate::address::Ipv4Address;
use crate::address::ipv4_of_text;
use crate::address::parse_ipv4;
use crate::decimal::dec_digits;
use crate::pattern::subst;
use crate::pattern::substitute;

verus! {

/// The candidate text that last-octet value `n` produces from pattern `p`.
pub open spec fn candidate_text(p: Seq<char>, n: nat) -> Seq<char> {
    subst(p, dec_digits(n))
}

/// The candidates produced by the last-octet values `1..=n`, in ascending
/// order, with texts that fail to parse dropped.
pub open spec fn candidate_seq(p: Seq<char>, n: nat) -> Seq<Ipv4Address>
    decreases n,
{
    if n == 0 {
        Seq::empty()
    } else {
        candidate_seq(p, (n - 1) as nat) + match ipv4_of_text(candidate_text(p, n)) {
            Some(a) => seq![a],
            None => Seq::empty(),
        }
    }
}

/// The last-octet values in `1..=n` whose candidate text parses, ascending.
pub open spec fn kept_octets(p: Seq<char>, n: nat) -> Seq<nat>
    decreases n,
{
    if n == 0 {
        Seq::empty()
    } else {
        kept_octets(p, (n - 1) as nat) + if ipv4_of_text(candidate_text(p, n)) is Some {
            seq![n]
        } else {
            Seq::empty()
        }
    }
}

/// Each candidate comes from its own last-octet value: the values that were
/// kept are distinct (strictly ascending), lie in `1..=n`, there are never
/// more than `n` of them, and the candidate at each position is the parsed
/// address of the text its value produced.
pub proof fn lemma_candidates_from_distinct_octets(p: Seq<char>, n: nat)
    ensures
        candidate_seq(p, n).len() <= n,
        kept_octets(p, n).len() == candidate_seq(p, n).len(),
        forall|i: int|
            0 <= i < kept_octets(p, n).len() ==> 1 <= #[trigger] kept_octets(p, n)[i] <= n,
        forall|i: int, j: int|
            0 <= i < j < kept_octets(p, n).len() ==> kept_octets(p, n)[i] < kept_octets(p, n)[j],
        forall|i: int|
            0 <= i < candidate_seq(p, n).len() ==> Some(#[trigger] candidate_seq(p, n)[i])
                == ipv4_of_text(candidate_text(p, kept_octets(p, n)[i])),
    decreases n,
{
    if n > 0 {
        lemma_candidates_from_distinct_octets(p, (n - 1) as nat);
        let c0 = candidate_seq(p, (n - 1) as nat);
        let k0 = kept_octets(p, (n - 1) as nat);
        let c = candidate_seq(p, n);
        let k = kept_octets(p, n);
        match ipv4_of_text(candidate_text(p, n)) {
            Some(a) => {
                assert(c =~= c0.push(a));
                assert(k =~= k0.push(n));
                assert forall|i: int| 0 <= i < k.len() implies 1 <= #[trigger] k[i] <= n by {
                    if i < k0.len() {
                        assert(k[i] == k0[i]);
                    }
                }
                assert forall|i: int, j: int| 0 <= i < j < k.len() implies k[i] < k[j] by {
                    if j < k0.len() {
                        assert(k0[i] < k0[j]);
                    } else {
                        assert(k[j] == n);
                        assert(k[i] == k0[i]);
                    }
                }
                assert forall|i: int| 0 <= i < c.len() implies Some(#[trigger] c[i])
                    == ipv4_of_text(candidate_text(p, k[i])) by {
                    if i < c0.len() {
                        assert(c[i] == c0[i] && k[i] == k0[i]);
                    } else {
                        assert(c[i] == a && k[i] == n);
                    }
                }
            },
            None => {
                assert(c =~= c0);
                assert(k =~= k0);
            },
        }
    }
}

/// Expands `pattern` into the candidate addresses for last-octet values
/// `1..=max_last_octet`, in ascending order of the substituted value;
/// substitutions that do not parse as an address are dropped.
pub fn generate_candidates(pattern: &str, max_last_octet: u8) -> (r: Vec<Ipv4Address>)
    ensures
        r@ == candidate_seq(pattern@, max_last_octet as nat),
{
    let mut out: Vec<Ipv4Address> = Vec::new();
    let mut k: u16 = 1;
    while k <= max_last_octet as u16
        invariant
            1 <= k <= max_last_octet as u16 + 1,
            out@ == candidate_seq(pattern@, (k - 1) as nat),
        decreases max_last_octet as int + 1 - k,
    {
        let text = substitute(pattern, k as u8);
        match parse_ipv4(text.as_str()) {
            Some(a) => out.push(a),
            None => (),
        }
        proof {
            assert(out@ =~= candidate_seq(pattern@, k as nat));
        }
        k = k + 1;
    }
    out
}

} // verus!
