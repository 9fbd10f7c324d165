//! IPv4 candidate addresses.
//!
//! An address is four octets; its text is the canonical dotted-quad form
//! (each octet in decimal, no leading zeros). `parse_ipv4` accepts exactly
//! the canonical texts, so parsing and printing are inverse to each other.

use vstd::prelude::*;
use vstd::string::StrSliceExecFns;
use vstd::string::StringExecFns;

use crate::decimal::dec_digits;
use crate::decimal::dec_string;
use crate::decimal::digit_val;
use crate::decimal::is_digit_char;
use crate::decimal::lemma_dec_digits_len;
use crate::decimal::lemma_dec_digits_shape;
use crate::decimal::lemma_dec_of_val;
use crate::decimal::lemma_val_of_dec;
use crate::decimal::val_of_digits;

verus! {

/// One IPv4 address, as four octets, most significant first.
#[derive(Clone, Copy, Debug, PartialEq, Eq, Structural)]
pub struct Ipv4Address {
    pub o0: u8,
    pub o1: u8,
    pub o2: u8,
    pub o3: u8,
}

impl Ipv4Address {
    /// The canonical dotted-quad text of this address.
    pub open spec fn dotted(self) -> Seq<char> {
        dec_digits(self.o0 as nat) + seq!['.'] + dec_digits(self.o1 as nat) + seq!['.']
            + dec_digits(self.o2 as nat) + seq!['.'] + dec_digits(self.o3 as nat)
    }

    /// The dotted-quad text, e.g. `10.0.0.7`.
    pub fn to_text(&self) -> (s: String)
        ensures
            s@ == self.dotted(),
    {
        let dot = ".";
        proof {
            reveal_strlit(".");
        }
        let mut s = dec_string(self.o0 as u16);
        s.append(dot);
        let s1 = dec_string(self.o1 as u16);
        s.append(s1.as_str());
        s.append(dot);
        let s2 = dec_string(self.o2 as u16);
        s.append(s2.as_str());
        s.append(dot);
        let s3 = dec_string(self.o3 as u16);
        s.append(s3.as_str());
        proof {
            assert(s@ =~= self.dotted());
        }
        s
    }
}

/// The address whose canonical text `s` is, if any.
pub open spec fn ipv4_of_text(s: Seq<char>) -> Option<Ipv4Address> {
    if exists|a: Ipv4Address| s == a.dotted() {
        Some(choose|a: Ipv4Address| s == a.dotted())
    } else {
        None
    }
}

/// Index of the first separating dot in `a.dotted()`.
pub open spec fn sep0(a: Ipv4Address) -> int {
    dec_digits(a.o0 as nat).len() as int
}

/// Index of the second separating dot in `a.dotted()`.
pub open spec fn sep1(a: Ipv4Address) -> int {
    sep0(a) + 1 + dec_digits(a.o1 as nat).len()
}

/// Index of the third separating dot in `a.dotted()`.
pub open spec fn sep2(a: Ipv4Address) -> int {
    sep1(a) + 1 + dec_digits(a.o2 as nat).len()
}

/// A dotted-quad text has dots exactly at the three separator positions;
/// everything else is a digit, and the segments between the dots are the
/// decimal texts of the octets.
pub proof fn lemma_dotted_structure(a: Ipv4Address)
    ensures
        ({
            let s = a.dotted();
            &&& s.len() == sep2(a) + 1 + dec_digits(a.o3 as nat).len()
            &&& 0 < sep0(a) < sep1(a) < sep2(a) < s.len()
            &&& s[sep0(a)] == '.'
            &&& s[sep1(a)] == '.'
            &&& s[sep2(a)] == '.'
            &&& forall|i: int|
                0 <= i < s.len() && i != sep0(a) && i != sep1(a) && i != sep2(a)
                    ==> is_digit_char(#[trigger] s[i])
            &&& s.subrange(0, sep0(a)) == dec_digits(a.o0 as nat)
            &&& s.subrange(sep0(a) + 1, sep1(a)) == dec_digits(a.o1 as nat)
            &&& s.subrange(sep1(a) + 1, sep2(a)) == dec_digits(a.o2 as nat)
            &&& s.subrange(sep2(a) + 1, s.len() as int) == dec_digits(a.o3 as nat)
        }),
{
    lemma_dec_digits_shape(a.o0 as nat);
    lemma_dec_digits_shape(a.o1 as nat);
    lemma_dec_digits_shape(a.o2 as nat);
    lemma_dec_digits_shape(a.o3 as nat);
    let d0 = dec_digits(a.o0 as nat);
    let d1 = dec_digits(a.o1 as nat);
    let d2 = dec_digits(a.o2 as nat);
    let d3 = dec_digits(a.o3 as nat);
    let s = a.dotted();
    assert(!is_digit_char('.'));
    assert forall|i: int|
        0 <= i < s.len() && i != sep0(a) && i != sep1(a) && i != sep2(a) implies is_digit_char(
        #[trigger] s[i],
    ) by {
        if i < sep0(a) {
            assert(s[i] == d0[i]);
        } else if i < sep1(a) {
            assert(s[i] == d1[i - (sep0(a) + 1)]);
        } else if i < sep2(a) {
            assert(s[i] == d2[i - (sep1(a) + 1)]);
        } else {
            assert(s[i] == d3[i - (sep2(a) + 1)]);
        }
    }
    assert(s.subrange(0, sep0(a)) =~= d0);
    assert(s.subrange(sep0(a) + 1, sep1(a)) =~= d1);
    assert(s.subrange(sep1(a) + 1, sep2(a)) =~= d2);
    assert(s.subrange(sep2(a) + 1, s.len() as int) =~= d3);
}

/// In a dotted-quad text, the first dot at or after a segment start is the
/// separator that ends that segment.
pub proof fn lemma_first_dot(a: Ipv4Address, lo: int, i: int)
    requires
        0 <= lo <= i < a.dotted().len(),
        a.dotted()[i] == '.',
        forall|j: int| lo <= j < i ==> a.dotted()[j] != '.',
        lo == 0 || lo == sep0(a) + 1 || lo == sep1(a) + 1,
    ensures
        lo == 0 ==> i == sep0(a),
        lo == sep0(a) + 1 ==> i == sep1(a),
        lo == sep1(a) + 1 ==> i == sep2(a),
{
    lemma_dotted_structure(a);
    let s = a.dotted();
    let p: int = if lo == 0 {
        sep0(a)
    } else if lo == sep0(a) + 1 {
        sep1(a)
    } else {
        sep2(a)
    };
    assert(lo <= p);
    if i < p {
        assert(is_digit_char(s[i]));
        assert(false);
    }
    if i > p {
        assert(s[p] != '.');
        assert(false);
    }
}

/// Two addresses with the same dotted-quad text are equal.
pub proof fn lemma_dotted_injective(a: Ipv4Address, b: Ipv4Address)
    requires
        a.dotted() == b.dotted(),
    ensures
        a == b,
{
    lemma_dotted_structure(a);
    lemma_dotted_structure(b);
    let s = a.dotted();
    lemma_first_dot(b, 0, sep0(a));
    lemma_first_dot(a, 0, sep0(b));
    assert(sep0(a) == sep0(b));
    lemma_first_dot(b, sep0(b) + 1, sep1(a));
    lemma_first_dot(a, sep0(a) + 1, sep1(b));
    assert(sep1(a) == sep1(b));
    lemma_first_dot(b, sep1(b) + 1, sep2(a));
    lemma_first_dot(a, sep1(a) + 1, sep2(b));
    assert(sep2(a) == sep2(b));
    assert(dec_digits(a.o0 as nat) == dec_digits(b.o0 as nat));
    assert(dec_digits(a.o1 as nat) == dec_digits(b.o1 as nat));
    assert(dec_digits(a.o2 as nat) == dec_digits(b.o2 as nat));
    assert(dec_digits(a.o3 as nat) == dec_digits(b.o3 as nat));
    lemma_val_of_dec(a.o0 as nat);
    lemma_val_of_dec(b.o0 as nat);
    lemma_val_of_dec(a.o1 as nat);
    lemma_val_of_dec(b.o1 as nat);
    lemma_val_of_dec(a.o2 as nat);
    lemma_val_of_dec(b.o2 as nat);
    lemma_val_of_dec(a.o3 as nat);
    lemma_val_of_dec(b.o3 as nat);
}

/// Printing an address and parsing the text back is the identity: every
/// address is the unique owner of its dotted-quad text.
pub proof fn lemma_text_round_trip(a: Ipv4Address)
    ensures
        ipv4_of_text(a.dotted()) == Some(a),
{
    let c = choose|b: Ipv4Address| a.dotted() == b.dotted();
    lemma_dotted_injective(a, c);
}

/// The characters of `s`, as a vector.
fn chars_of(s: &str) -> (v: Vec<char>)
    ensures
        v@ == s@,
{
    let n = s.unicode_len();
    let mut v: Vec<char> = Vec::new();
    let mut i: usize = 0;
    while i < n
        invariant
            i <= n,
            n == s@.len(),
            v@ == s@.subrange(0, i as int),
        decreases n - i,
    {
        let c = s.get_char(i);
        v.push(c);
        i = i + 1;
        proof {
            assert(v@ =~= s@.subrange(0, i as int));
        }
    }
    proof {
        assert(v@ =~= s@);
    }
    v
}

/// The first dot at or after `from`, if any.
fn find_dot(cs: &Vec<char>, from: usize) -> (r: Option<usize>)
    requires
        from <= cs@.len(),
    ensures
        match r {
            Some(i) => from <= i < cs@.len() && cs@[i as int] == '.' && forall|j: int|
                from <= j < i ==> cs@[j] != '.',
            None => forall|j: int| from <= j < cs@.len() ==> cs@[j] != '.',
        },
{
    let mut i = from;
    while i < cs.len()
        invariant
            from <= i <= cs@.len(),
            forall|j: int| from <= j < i ==> cs@[j] != '.',
        decreases cs@.len() - i,
    {
        if cs[i] == '.' {
            return Some(i);
        }
        i = i + 1;
    }
    None
}

/// The numeric value of a digit character.
fn digit_value(c: char) -> (d: u8)
    requires
        is_digit_char(c),
    ensures
        d as nat == digit_val(c),
        d < 10,
{
    if c == '0' {
        0
    } else if c == '1' {
        1
    } else if c == '2' {
        2
    } else if c == '3' {
        3
    } else if c == '4' {
        4
    } else if c == '5' {
        5
    } else if c == '6' {
        6
    } else if c == '7' {
        7
    } else if c == '8' {
        8
    } else {
        proof {
            assert(c == '9');
        }
        9
    }
}

/// Parses `cs[start..end]` as one decimal octet. Returns `Some(v)` exactly
/// when the segment is the canonical decimal text of `v`: one to three
/// digits, no leading zero, value at most 255.
fn parse_octet(cs: &Vec<char>, start: usize, end: usize) -> (r: Option<u8>)
    requires
        start <= end <= cs@.len(),
    ensures
        ({
            let seg = cs@.subrange(start as int, end as int);
            match r {
                Some(v) => seg == dec_digits(v as nat),
                None => forall|v: u8| seg != dec_digits(v as nat),
            }
        }),
{
    let ghost seg = cs@.subrange(start as int, end as int);
    let len = end - start;
    if len == 0 || len > 3 {
        proof {
            assert forall|v: u8| seg != dec_digits(v as nat) by {
                lemma_dec_digits_shape(v as nat);
                lemma_dec_digits_len(v as nat);
            }
        }
        return None;
    }
    let mut i = start;
    while i < end
        invariant
            start <= i <= end <= cs@.len(),
            seg == cs@.subrange(start as int, end as int),
            forall|j: int| start <= j < i ==> is_digit_char(#[trigger] cs@[j]),
        decreases end - i,
    {
        let c = cs[i];
        if c < '0' || c > '9' {
            proof {
                assert(!is_digit_char(cs@[i as int]));
                assert forall|v: u8| seg != dec_digits(v as nat) by {
                    lemma_dec_digits_shape(v as nat);
                    if seg == dec_digits(v as nat) {
                        assert(is_digit_char(seg[i - start]));
                    }
                }
            }
            return None;
        }
        i = i + 1;
    }
    proof {
        assert forall|j: int| 0 <= j < seg.len() implies is_digit_char(#[trigger] seg[j]) by {
            assert(seg[j] == cs@[start + j]);
        }
    }
    if len > 1 && cs[start] == '0' {
        proof {
            assert(cs@[start as int] == '0');
            assert forall|v: u8| seg != dec_digits(v as nat) by {
                lemma_dec_digits_shape(v as nat);
                if seg == dec_digits(v as nat) {
                    assert(seg[0] != '0');
                }
            }
        }
        return None;
    }
    let b0 = digit_value(cs[start]);
    proof {
        assert(b0 == digit_val(seg[0]));
    }
    let v: u32 = if len == 1 {
        b0 as u32
    } else if len == 2 {
        let b1 = digit_value(cs[start + 1]);
        proof {
            assert(b1 == digit_val(seg[1]));
        }
        b0 as u32 * 10 + b1 as u32
    } else {
        let b1 = digit_value(cs[start + 1]);
        let b2 = digit_value(cs[start + 2]);
        proof {
            assert(b1 == digit_val(seg[1]));
            assert(b2 == digit_val(seg[2]));
        }
        b0 as u32 * 100 + b1 as u32 * 10 + b2 as u32
    };
    proof {
        if len == 1 {
            assert(seg.drop_last() =~= Seq::<char>::empty());
            assert(val_of_digits(seg.drop_last()) == 0);
            assert(val_of_digits(seg) == v);
        } else if len == 2 {
            let s1 = seg.drop_last();
            assert(s1.drop_last() =~= Seq::<char>::empty());
            assert(val_of_digits(s1.drop_last()) == 0);
            assert(s1.last() == seg[0]);
            assert(val_of_digits(s1) == digit_val(seg[0]));
            assert(val_of_digits(seg) == v);
        } else {
            let s2 = seg.drop_last();
            let s1 = s2.drop_last();
            assert(s1.drop_last() =~= Seq::<char>::empty());
            assert(val_of_digits(s1.drop_last()) == 0);
            assert(s1.last() == seg[0]);
            assert(val_of_digits(s1) == digit_val(seg[0]));
            assert(s2.last() == seg[1]);
            assert(val_of_digits(s2) == digit_val(seg[0]) * 10 + digit_val(seg[1]));
            assert(val_of_digits(seg) == v);
        }
    }
    if v > 255 {
        proof {
            assert forall|u: u8| seg != dec_digits(u as nat) by {
                if seg == dec_digits(u as nat) {
                    lemma_val_of_dec(u as nat);
                }
            }
        }
        return None;
    }
    proof {
        lemma_dec_of_val(seg);
    }
    Some(v as u8)
}

/// Parses `s` as an IPv4 address in canonical dotted-quad form.
///
/// Returns `Some(a)` exactly when `s` is the dotted text of `a`; any other
/// string (wrong shape, leading zeros, octet out of range) gives `None`.
pub fn parse_ipv4(s: &str) -> (r: Option<Ipv4Address>)
    ensures
        r == ipv4_of_text(s@),
{
    let cs = chars_of(s);
    let n = cs.len();
    let dot1 = match find_dot(&cs, 0) {
        Some(i) => i,
        None => {
            proof {
                assert forall|a: Ipv4Address| s@ != a.dotted() by {
                    if s@ == a.dotted() {
                        lemma_dotted_structure(a);
                        assert(cs@[sep0(a)] == '.');
                    }
                }
            }
            return None;
        },
    };
    let dot2 = match find_dot(&cs, dot1 + 1) {
        Some(i) => i,
        None => {
            proof {
                assert forall|a: Ipv4Address| s@ != a.dotted() by {
                    if s@ == a.dotted() {
                        lemma_dotted_structure(a);
                        lemma_first_dot(a, 0, dot1 as int);
                        assert(cs@[sep1(a)] == '.');
                    }
                }
            }
            return None;
        },
    };
    let dot3 = match find_dot(&cs, dot2 + 1) {
        Some(i) => i,
        None => {
            proof {
                assert forall|a: Ipv4Address| s@ != a.dotted() by {
                    if s@ == a.dotted() {
                        lemma_dotted_structure(a);
                        lemma_first_dot(a, 0, dot1 as int);
                        lemma_first_dot(a, sep0(a) + 1, dot2 as int);
                        assert(cs@[sep2(a)] == '.');
                    }
                }
            }
            return None;
        },
    };
    let o0 = parse_octet(&cs, 0, dot1);
    let o1 = parse_octet(&cs, dot1 + 1, dot2);
    let o2 = parse_octet(&cs, dot2 + 1, dot3);
    let o3 = parse_octet(&cs, dot3 + 1, n);
    match (o0, o1, o2, o3) {
        (Some(v0), Some(v1), Some(v2), Some(v3)) => {
            let b = Ipv4Address { o0: v0, o1: v1, o2: v2, o3: v3 };
            proof {
                assert(cs@.subrange(0, dot1 as int) == dec_digits(v0 as nat));
                assert(cs@.subrange(dot1 + 1, dot2 as int) == dec_digits(v1 as nat));
                assert(cs@.subrange(dot2 + 1, dot3 as int) == dec_digits(v2 as nat));
                assert(cs@.subrange(dot3 + 1, n as int) == dec_digits(v3 as nat));
                assert(cs@ =~= cs@.subrange(0, dot1 as int) + seq![cs@[dot1 as int]]
                    + cs@.subrange(dot1 + 1, dot2 as int) + seq![cs@[dot2 as int]] + cs@.subrange(
                    dot2 + 1,
                    dot3 as int,
                ) + seq![cs@[dot3 as int]] + cs@.subrange(dot3 + 1, n as int));
                assert(s@ == b.dotted());
                let c = choose|a: Ipv4Address| s@ == a.dotted();
                lemma_dotted_injective(b, c);
                assert(ipv4_of_text(s@) == Some(b));
            }
            Some(b)
        },
        _ => {
            proof {
                assert forall|a: Ipv4Address| s@ != a.dotted() by {
                    if s@ == a.dotted() {
                        lemma_dotted_structure(a);
                        lemma_first_dot(a, 0, dot1 as int);
                        lemma_first_dot(a, sep0(a) + 1, dot2 as int);
                        lemma_first_dot(a, sep1(a) + 1, dot3 as int);
                        assert(cs@.subrange(0, dot1 as int) == dec_digits(a.o0 as nat));
                        assert(cs@.subrange(dot1 + 1, dot2 as int) == dec_digits(a.o1 as nat));
                        assert(cs@.subrange(dot2 + 1, dot3 as int) == dec_digits(a.o2 as nat));
                        assert(cs@.subrange(dot3 + 1, n as int) == dec_digits(a.o3 as nat));
                    }
                }
            }
            None
        },
    }
}

} // verus!
