//! Verified character-sequence operations used by the rule evaluator, and
//! the conversions between `str` values and their character vectors.

use vstd::prelude::*;
use vstd::seq_lib::*;
use vstd::string::StrSliceExecFns;

verus! {

/// Whether `p` occurs as a contiguous subsequence of `s`.
pub open spec fn seq_contains_seq(s: Seq<char>, p: Seq<char>) -> bool {
    exists|k: int| 0 <= k <= s.len() - p.len() && p == #[trigger] s.subrange(k, k + p.len())
}

/// The characters of a string, as a vector.
pub fn chars_vec(s: &str) -> (v: Vec<char>)
    ensures
        v@ == s@,
{
    let n = s.unicode_len();
    let mut v: Vec<char> = Vec::new();
    let mut i: usize = 0;
    while i < n
        invariant
            n == s@.len(),
            i <= n,
            v@ == s@.subrange(0, i as int),
        decreases n - i,
    {
        let c = s.get_char(i);
        v.push(c);
        i = i + 1;
        proof {
            assert(v@ =~= s@.subrange(0, i as int));
        }
    }
    proof {
        assert(v@ =~= s@);
    }
    v
}

/// Relies on `core::iter::Iterator::collect` for `String`: the view of a
/// `String` is exactly the sequence of chars it was collected from.
#[verifier::external_body]
pub(crate) fn string_from_chars(v: &Vec<char>) -> (s: String)
    ensures
        s@ == v@,
{
    v.iter().collect()
}

/// Whether two character vectors hold the same sequence.
pub fn chars_eq(a: &Vec<char>, b: &Vec<char>) -> (r: bool)
    ensures
        r == (a@ == b@),
{
    if a.len() != b.len() {
        return false;
    }
    let mut i: usize = 0;
    while i < a.len()
        invariant
            a@.len() == b@.len(),
            i <= a@.len(),
            forall|k: int| 0 <= k < i ==> a@[k] == b@[k],
        decreases a@.len() - i,
    {
        if a[i] != b[i] {
            return false;
        }
        i = i + 1;
    }
    proof {
        assert(a@ =~= b@);
    }
    true
}

/// Whether `p` matches `s` starting at position `k`.
fn match_at(s: &Vec<char>, p: &Vec<char>, k: usize) -> (r: bool)
    requires
        k + p@.len() <= s@.len(),
    ensures
        r == (p@ == s@.subrange(k as int, k as int + p@.len())),
{
    let n = s.len();
    let mut j: usize = 0;
    while j < p.len()
        invariant
            n == s@.len(),
            k + p@.len() <= s@.len(),
            j <= p@.len(),
            forall|m: int| 0 <= m < j ==> p@[m] == s@[k + m],
        decreases p@.len() - j,
    {
        if p[j] != s[k + j] {
            proof {
                assert(s@.subrange(k as int, k as int + p@.len())[j as int] == s@[k + j]);
            }
            return false;
        }
        j = j + 1;
    }
    proof {
        assert(p@ =~= s@.subrange(k as int, k as int + p@.len()));
    }
    true
}

/// Whether `p@` is a prefix of `s@`.
pub fn chars_prefix(s: &Vec<char>, p: &Vec<char>) -> (r: bool)
    ensures
        r == p@.is_prefix_of(s@),
{
    if p.len() > s.len() {
        proof {
            assert(!p@.is_prefix_of(s@)) by {
                if p@.is_prefix_of(s@) {
                    assert(p@.len() == s@.subrange(0, p@.len() as int).len());
                }
            }
        }
        return false;
    }
    match_at(s, p, 0)
}

/// Whether `p@` is a suffix of `s@`.
pub fn chars_suffix(s: &Vec<char>, p: &Vec<char>) -> (r: bool)
    ensures
        r == p@.is_suffix_of(s@),
{
    if p.len() > s.len() {
        proof {
            assert(!p@.is_suffix_of(s@)) by {
                if p@.is_suffix_of(s@) {
                    assert(p@.len() == s@.subrange(
                        s@.len() - p@.len(),
                        s@.len() as int,
                    ).len());
                }
            }
        }
        return false;
    }
    match_at(s, p, s.len() - p.len())
}

/// Whether `p@` occurs anywhere inside `s@`.
pub fn chars_contains(s: &Vec<char>, p: &Vec<char>) -> (r: bool)
    ensures
        r == seq_contains_seq(s@, p@),
{
    if p.len() > s.len() {
        proof {
            assert(!seq_contains_seq(s@, p@)) by {
                if seq_contains_seq(s@, p@) {
                    let k = choose|k: int|
                        0 <= k <= s@.len() - p@.len() && p@ == #[trigger] s@.subrange(
                            k,
                            k + p@.len(),
                        );
                    assert(0 <= k <= s@.len() - p@.len());
                }
            }
        }
        return false;
    }
    if p.len() == 0 {
        proof {
            assert(seq_contains_seq(s@, p@)) by {
                assert(p@ =~= s@.subrange(0, 0 + p@.len() as int));
            }
        }
        return true;
    }
    let n = s.len();
    let bound = n - p.len();
    let mut k: usize = 0;
    while k <= bound
        invariant
            n == s@.len(),
            1 <= p@.len() <= s@.len(),
            bound == s@.len() - p@.len(),
            k <= bound + 1,
            forall|k2: int| 0 <= k2 < k ==> p@ != #[trigger] s@.subrange(k2, k2 + p@.len()),
        decreases bound + 1 - k,
    {
        if match_at(s, p, k) {
            return true;
        }
        k = k + 1;
    }
    proof {
        assert(!seq_contains_seq(s@, p@)) by {
            if seq_contains_seq(s@, p@) {
                let k2 = choose|k2: int|
                    0 <= k2 <= s@.len() - p@.len() && p@ == #[trigger] s@.subrange(
                        k2,
                        k2 + p@.len(),
                    );
                assert(0 <= k2 < k);
            }
        }
    }
    false
}

} // verus!
