//! Address patterns.
//!
//! A pattern is a string template such as `10.0.0.{}`. Substitution replaces
//! the first occurrence of the placeholder `{}` with a decimal number; a
//! pattern without a placeholder is returned unchanged.

use vstd::prelude::*;
use vstd::string::StrSliceExecFns;
use vstd::string::StringExecFns;

use crate::decimal::dec_digits;
use crate::decimal::dec_string;

verus! {

/// `p` with its first `{}` replaced by `d`; `p` itself if it has no `{}`.
pub open spec fn subst(p: Seq<char>, d: Seq<char>) -> Seq<char>
    decreases p.len(),
{
    if p.len() < 2 {
        p
    } else if p[0] == '{' && p[1] == '}' {
        d + p.subrange(2, p.len() as int)
    } else {
        seq![p[0]] + subst(p.subrange(1, p.len() as int), d)
    }
}

/// Substitution at the first placeholder, written out: the text before it,
/// then `d`, then the text after it.
proof fn lemma_subst_at(p: Seq<char>, d: Seq<char>, i: int)
    requires
        0 <= i,
        i + 2 <= p.len(),
        p[i] == '{',
        p[i + 1] == '}',
        forall|j: int| 0 <= j < i ==> !(#[trigger] p[j] == '{' && p[j + 1] == '}'),
    ensures
        subst(p, d) == p.subrange(0, i) + d + p.subrange(i + 2, p.len() as int),
    decreases i,
{
    if i == 0 {
        assert(subst(p, d) =~= p.subrange(0, i) + d + p.subrange(i + 2, p.len() as int));
    } else {
        let q = p.subrange(1, p.len() as int);
        assert(!(p[0] == '{' && p[1] == '}'));
        assert(q[i - 1] == '{' && q[i] == '}');
        assert forall|j: int| 0 <= j < i - 1 implies !(#[trigger] q[j] == '{' && q[j + 1]
            == '}') by {
            assert(q[j] == p[j + 1] && q[j + 1] == p[j + 2]);
        }
        lemma_subst_at(q, d, i - 1);
        assert(subst(p, d) =~= p.subrange(0, i) + d + p.subrange(i + 2, p.len() as int));
    }
}

/// A pattern without a placeholder substitutes to itself.
proof fn lemma_subst_absent(p: Seq<char>, d: Seq<char>)
    requires
        forall|j: int| 0 <= j && j + 1 < p.len() ==> !(#[trigger] p[j] == '{' && p[j + 1] == '}'),
    ensures
        subst(p, d) == p,
    decreases p.len(),
{
    if p.len() >= 2 {
        let q = p.subrange(1, p.len() as int);
        assert(!(p[0] == '{' && p[1] == '}'));
        assert forall|j: int| 0 <= j && j + 1 < q.len() implies !(#[trigger] q[j] == '{' && q[j + 1]
            == '}') by {
            assert(q[j] == p[j + 1] && q[j + 1] == p[j + 2]);
        }
        lemma_subst_absent(q, d);
        assert(subst(p, d) =~= p);
    }
}

/// Replaces the first `{}` in `pattern` with the decimal text of `n`.
pub fn substitute(pattern: &str, n: u8) -> (r: String)
    ensures
        r@ == subst(pattern@, dec_digits(n as nat)),
{
    let len = pattern.unicode_len();
    if len < 2 {
        proof {
            lemma_subst_absent(pattern@, dec_digits(n as nat));
        }
        return pattern.to_owned();
    }
    let mut i: usize = 0;
    while i < len - 1
        invariant
            i <= len,
            2 <= len == pattern@.len(),
            forall|j: int|
                0 <= j < i ==> !(#[trigger] pattern@[j] == '{' && pattern@[j + 1] == '}'),
        decreases len - i,
    {
        let c0 = pattern.get_char(i);
        if c0 == '{' {
            let c1 = pattern.get_char(i + 1);
            if c1 == '}' {
                let mut out = pattern.substring_char(0, i).to_owned();
                let mid = dec_string(n as u16);
                out.append(mid.as_str());
                out.append(pattern.substring_char(i + 2, len));
                proof {
                    lemma_subst_at(pattern@, dec_digits(n as nat), i as int);
                    assert(out@ =~= subst(pattern@, dec_digits(n as nat)));
                }
                return out;
            }
        }
        i = i + 1;
    }
    proof {
        lemma_subst_absent(pattern@, dec_digits(n as nat));
    }
    pattern.to_owned()
}

} // verus!
