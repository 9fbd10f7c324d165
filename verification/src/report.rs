//! The result report.
//!
//! Formats a finished scan for output: a fixed message when nothing
//! answered, otherwise a header naming the port followed by one URL line per
//! reachable address, in the order the scan collected them. The text is
//! specified to the character.

use vstd::prelude::*;
use vstd::string::StringExecFns;

use crate::address::Ipv4Address;
use crate::coordinator::ScanResult;
use crate::decimal::dec_digits;
use crate::decimal::dec_string;

verus! {

/// The report line for one reachable address.
pub open spec fn line_for(a: Ipv4Address) -> Seq<char> {
    "  http://"@ + a.dotted() + "\n"@
}

/// The report lines for the first `k` reachable addresses.
pub open spec fn lines_upto(addrs: Seq<Ipv4Address>, k: int) -> Seq<char>
    decreases k,
{
    if k <= 0 {
        Seq::empty()
    } else {
        lines_upto(addrs, k - 1) + line_for(addrs[k - 1])
    }
}

/// The whole report: a fixed message when no address answered, otherwise a
/// header naming the port and one line per reachable address, in order.
pub open spec fn report_text(addrs: Seq<Ipv4Address>, port: u16) -> Seq<char> {
    if addrs.len() == 0 {
        "No reachable IPs!\n"@
    } else {
        "Reachable IPs (on port "@ + dec_digits(port as nat) + "):\n"@ + lines_upto(
            addrs,
            addrs.len() as int,
        )
    }
}

/// Formats `result` for output on `port`.
pub fn format_report(result: &ScanResult, port: u16) -> (s: String)
    ensures
        s@ == report_text(result.reachable@, port),
{
    let n = result.reachable.len();
    if n == 0 {
        return "No reachable IPs!\n".to_owned();
    }
    let mut s = "Reachable IPs (on port ".to_owned();
    let port_text = dec_string(port);
    s.append(port_text.as_str());
    s.append("):\n");
    let mut i: usize = 0;
    while i < n
        invariant
            i <= n,
            n == result.reachable@.len(),
            s@ == "Reachable IPs (on port "@ + dec_digits(port as nat) + "):\n"@ + lines_upto(
                result.reachable@,
                i as int,
            ),
        decreases n - i,
    {
        s.append("  http://");
        let addr_text = result.reachable[i].to_text();
        s.append(addr_text.as_str());
        s.append("\n");
        proof {
            assert(s@ =~= "Reachable IPs (on port "@ + dec_digits(port as nat) + "):\n"@
                + lines_upto(result.reachable@, i + 1));
        }
        i = i + 1;
    }
    s
}

} // verus!
