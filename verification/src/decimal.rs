//! Decimal text for small unsigned integers.
//!
//! `dec_digits` is the mathematical decimal representation (most significant
//! digit first, no leading zeros); `dec_string` produces it executably. The
//! lemmas here pin down the shape of such representations and show that a
//! value and its decimal text determine each other.

use vstd::prelude::*;
use vstd::string::StringExecFns;

verus! {

/// The character for a single decimal digit value (`0 <= d <= 9`).
pub open spec fn digit_char(d: nat) -> char {
    if d == 0 {
        '0'
    } else if d == 1 {
        '1'
    } else if d == 2 {
        '2'
    } else if d == 3 {
        '3'
    } else if d == 4 {
        '4'
    } else if d == 5 {
        '5'
    } else if d == 6 {
        '6'
    } else if d == 7 {
        '7'
    } else if d == 8 {
        '8'
    } else {
        '9'
    }
}

/// Whether `c` is a decimal digit character.
pub open spec fn is_digit_char(c: char) -> bool {
    '0' <= c && c <= '9'
}

/// The numeric value of a digit character.
pub open spec fn digit_val(c: char) -> nat {
    (c as nat - '0' as nat) as nat
}

/// The decimal representation of `n`: most significant digit first, no
/// leading zeros (`0` is written as the single digit `0`).
pub open spec fn dec_digits(n: nat) -> Seq<char>
    decreases n,
{
    if n < 10 {
        seq![digit_char(n)]
    } else {
        dec_digits(n / 10).push(digit_char(n % 10))
    }
}

/// A one-character string for a digit value.
fn digit_str(d: u16) -> (s: &'static str)
    requires
        d < 10,
    ensures
        s@ == seq![digit_char(d as nat)],
{
    if d == 0 {
        proof { reveal_strlit("0"); }
        "0"
    } else if d == 1 {
        proof { reveal_strlit("1"); }
        "1"
    } else if d == 2 {
        proof { reveal_strlit("2"); }
        "2"
    } else if d == 3 {
        proof { reveal_strlit("3"); }
        "3"
    } else if d == 4 {
        proof { reveal_strlit("4"); }
        "4"
    } else if d == 5 {
        proof { reveal_strlit("5"); }
        "5"
    } else if d == 6 {
        proof { reveal_strlit("6"); }
        "6"
    } else if d == 7 {
        proof { reveal_strlit("7"); }
        "7"
    } else {
        proof { reveal_strlit("8"); reveal_strlit("9"); }
        if d == 8 { "8" } else { "9" }
    }
}

/// The decimal text of `v`.
pub fn dec_string(v: u16) -> (s: String)
    ensures
        s@ == dec_digits(v as nat),
    decreases v,
{
    let ds = digit_str(v % 10);
    if v < 10 {
        ds.to_owned()
    } else {
        let mut s = dec_string(v / 10);
        s.append(ds);
        proof {
            assert(s@ =~= dec_digits(v as nat));
        }
        s
    }
}

/// The value of a sequence of digit characters read as a decimal number,
/// most significant digit first.
pub open spec fn val_of_digits(s: Seq<char>) -> nat
    decreases s.len(),
{
    if s.len() == 0 {
        0
    } else {
        val_of_digits(s.drop_last()) * 10 + digit_val(s.last())
    }
}

/// A decimal representation is non-empty, consists of digit characters, and
/// has no leading zero unless it is the single digit `0`.
pub proof fn lemma_dec_digits_shape(n: nat)
    ensures
        dec_digits(n).len() >= 1,
        n >= 10 ==> dec_digits(n).len() >= 2,
        forall|i: int| 0 <= i < dec_digits(n).len() ==> is_digit_char(#[trigger] dec_digits(n)[i]),
        dec_digits(n).len() > 1 ==> dec_digits(n)[0] != '0',
    decreases n,
{
    if n < 10 {
        assert(is_digit_char(digit_char(n)));
    } else {
        lemma_dec_digits_shape(n / 10);
        let p = dec_digits(n / 10);
        assert(dec_digits(n) == p.push(digit_char(n % 10)));
        assert(is_digit_char(digit_char(n % 10)));
        assert forall|i: int| 0 <= i < dec_digits(n).len() implies is_digit_char(
            #[trigger] dec_digits(n)[i],
        ) by {
            if i < p.len() {
                assert(dec_digits(n)[i] == p[i]);
            } else {
                assert(dec_digits(n)[i] == digit_char(n % 10));
            }
        }
        if p.len() == 1 {
            assert(n / 10 >= 1);
            assert(p[0] == digit_char(n / 10));
            assert(digit_char(n / 10) != '0');
        }
        assert(dec_digits(n)[0] == p[0]);
    }
}

/// How many digits small values take.
pub proof fn lemma_dec_digits_len(n: nat)
    ensures
        n < 10 ==> dec_digits(n).len() == 1,
        n < 100 ==> dec_digits(n).len() <= 2,
        n < 1000 ==> dec_digits(n).len() <= 3,
    decreases n,
{
    if n >= 10 {
        lemma_dec_digits_len(n / 10);
    }
}

/// Reading the decimal representation of `n` back gives `n`.
pub proof fn lemma_val_of_dec(n: nat)
    ensures
        val_of_digits(dec_digits(n)) == n,
    decreases n,
{
    if n < 10 {
        let s = dec_digits(n);
        assert(s.drop_last() =~= Seq::<char>::empty());
        assert(val_of_digits(Seq::<char>::empty()) == 0);
        assert(digit_val(digit_char(n)) == n);
    } else {
        lemma_val_of_dec(n / 10);
        let s = dec_digits(n);
        assert(s.drop_last() =~= dec_digits(n / 10));
        assert(digit_val(digit_char(n % 10)) == n % 10);
        assert(n / 10 * 10 + n % 10 == n) by (nonlinear_arith);
    }
}

/// A non-empty all-digit sequence whose first digit is not `0` stands for a
/// positive value.
pub proof fn lemma_val_of_digits_pos(s: Seq<char>)
    requires
        s.len() >= 1,
        forall|i: int| 0 <= i < s.len() ==> is_digit_char(#[trigger] s[i]),
        s[0] != '0',
    ensures
        val_of_digits(s) >= 1,
    decreases s.len(),
{
    if s.len() == 1 {
        assert(digit_val(s[0]) >= 1);
    } else {
        lemma_val_of_digits_pos(s.drop_last());
    }
}

/// A well-formed digit sequence (non-empty, no leading zero) is the decimal
/// representation of its own value: text and value determine each other.
pub proof fn lemma_dec_of_val(s: Seq<char>)
    requires
        s.len() >= 1,
        forall|i: int| 0 <= i < s.len() ==> is_digit_char(#[trigger] s[i]),
        s.len() > 1 ==> s[0] != '0',
    ensures
        dec_digits(val_of_digits(s)) == s,
    decreases s.len(),
{
    if s.len() == 1 {
        let d = digit_val(s[0]);
        assert(s.drop_last().len() == 0);
        assert(val_of_digits(s.drop_last()) == 0);
        assert(val_of_digits(s) == d);
        assert(digit_char(d) == s[0]);
        assert(dec_digits(d) =~= s);
    } else {
        let p = s.drop_last();
        let v = val_of_digits(s);
        lemma_dec_of_val(p);
        lemma_val_of_digits_pos(p);
        assert(v == val_of_digits(p) * 10 + digit_val(s.last()));
        assert(v >= 10) by (nonlinear_arith)
            requires v == val_of_digits(p) * 10 + digit_val(s.last()), val_of_digits(p) >= 1;
        assert(v / 10 == val_of_digits(p) && v % 10 == digit_val(s.last())) by (nonlinear_arith)
            requires v == val_of_digits(p) * 10 + digit_val(s.last()), digit_val(s.last()) < 10;
        assert(digit_char(digit_val(s.last())) == s.last());
        assert(dec_digits(v) =~= s);
    }
}
} // verus!
