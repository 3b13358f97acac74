//! Small helpers on byte strings.

use vstd::prelude::*;

verus! {

/// Byte-wise equality of two byte strings.
pub fn bytes_eq(a: &[u8], b: &[u8]) -> (r: bool)
    ensures
        r == (a@ == b@),
{
    if a.len() != b.len() {
        proof {
            assert(a@.len() != b@.len());
        }
        return false;
    }
    let mut i: usize = 0;
    while i < a.len()
        invariant
            0 <= i <= a.len(),
            a@.len() == b@.len(),
            forall|k: int| 0 <= k < i ==> a@[k] == b@[k],
        decreases a.len() - i,
    {
        if a[i] != b[i] {
            proof {
                assert(a@ != b@) by {
                    assert(a@[i as int] != b@[i as int]);
                }
            }
            return false;
        }
        i += 1;
    }
    proof {
        assert(a@ =~= b@);
    }
    true
}

/// An owned copy of a byte string.
pub fn bytes_to_vec(a: &[u8]) -> (r: Vec<u8>)
    ensures
        r@ == a@,
{
    vstd::slice::slice_to_vec(a)
}

/// Append a byte string to a buffer.
pub fn extend_bytes(v: &mut Vec<u8>, s: &[u8])
    ensures
        final(v)@ == old(v)@ + s@,
{
    let mut i: usize = 0;
    while i < s.len()
        invariant
            0 <= i <= s.len(),
            v@ == old(v)@ + s@.subrange(0, i as int),
        decreases s.len() - i,
    {
        v.push(s[i]);
        proof {
            assert(old(v)@ + s@.subrange(0, i as int) + seq![s@[i as int]] =~= old(v)@
                + s@.subrange(0, i + 1));
        }
        i += 1;
    }
    proof {
        assert(s@.subrange(0, s@.len() as int) =~= s@);
    }
}

/// ASCII whitespace: space, tab, line feed, vertical tab, form feed,
/// carriage return.
pub open spec fn is_ws(b: u8) -> bool {
    b == 32 || (9 <= b && b <= 13)
}

/// The length that remains after trailing whitespace is stripped.
pub open spec fn spec_trim_end_len(s: Seq<u8>) -> int
    decreases s.len(),
{
    if s.len() > 0 && is_ws(s.last()) {
        spec_trim_end_len(s.drop_last())
    } else {
        s.len() as int
    }
}

/// The trimmed length is within the string, and what remains ends in
/// non-whitespace.
pub proof fn lemma_trim_end_len(s: Seq<u8>)
    ensures
        0 <= spec_trim_end_len(s) <= s.len(),
    decreases s.len(),
{
    if s.len() > 0 && is_ws(s.last()) {
        lemma_trim_end_len(s.drop_last());
    }
}

/// The string with trailing whitespace stripped.
pub open spec fn spec_trim_end(s: Seq<u8>) -> Seq<u8> {
    s.take(spec_trim_end_len(s))
}

/// How many leading whitespace bytes a string has.
pub open spec fn spec_trim_start_idx(s: Seq<u8>) -> int
    decreases s.len(),
{
    if s.len() > 0 && is_ws(s.first()) {
        1 + spec_trim_start_idx(s.drop_first())
    } else {
        0
    }
}

/// The whitespace prefix is within the string.
pub proof fn lemma_trim_start_idx(s: Seq<u8>)
    ensures
        0 <= spec_trim_start_idx(s) <= s.len(),
    decreases s.len(),
{
    if s.len() > 0 && is_ws(s.first()) {
        lemma_trim_start_idx(s.drop_first());
    }
}

/// The string with whitespace stripped from both ends.
pub open spec fn spec_trim(s: Seq<u8>) -> Seq<u8> {
    spec_trim_end(s).skip(spec_trim_start_idx(spec_trim_end(s)))
}

/// Is the byte ASCII whitespace?
pub fn ws(b: u8) -> (r: bool)
    ensures
        r == is_ws(b),
{
    b == 32 || (9 <= b && b <= 13)
}

/// The length of `s` without its trailing whitespace.
pub fn trim_end_index(s: &[u8]) -> (k: usize)
    ensures
        k == spec_trim_end_len(s@),
{
    proof {
        lemma_trim_end_len(s@);
    }
    let mut k: usize = s.len();
    proof {
        assert(s@.take(k as int) =~= s@);
    }
    while k > 0 && ws(s[k - 1])
        invariant
            0 <= k <= s@.len(),
            spec_trim_end_len(s@) == spec_trim_end_len(s@.take(k as int)),
        decreases k,
    {
        proof {
            assert(s@.take(k as int).last() == s@[k - 1]);
            assert(s@.take(k as int).drop_last() =~= s@.take(k - 1));
        }
        k -= 1;
    }
    proof {
        if k > 0 {
            assert(s@.take(k as int).last() == s@[k - 1]);
        }
        assert(spec_trim_end_len(s@.take(k as int)) == k);
    }
    k
}

/// The length of the whitespace prefix of `s`.
pub fn trim_start_index(s: &[u8]) -> (k: usize)
    ensures
        k == spec_trim_start_idx(s@),
{
    proof {
        lemma_trim_start_idx(s@);
    }
    let mut k: usize = 0;
    proof {
        assert(s@.skip(0) =~= s@);
    }
    while k < s.len() && ws(s[k])
        invariant
            0 <= k <= s@.len(),
            spec_trim_start_idx(s@) == k + spec_trim_start_idx(s@.skip(k as int)),
        decreases s@.len() - k,
    {
        proof {
            assert(s@.skip(k as int).first() == s@[k as int]);
            assert(s@.skip(k as int).drop_first() =~= s@.skip(k + 1));
            lemma_trim_start_idx(s@.skip(k + 1));
        }
        k += 1;
    }
    proof {
        if k < s@.len() {
            assert(s@.skip(k as int).first() == s@[k as int]);
        }
        assert(spec_trim_start_idx(s@.skip(k as int)) == 0);
    }
    k
}

/// A copy of `s` with trailing whitespace stripped.
pub fn trim_end_bytes(s: &[u8]) -> (r: Vec<u8>)
    ensures
        r@ == spec_trim_end(s@),
{
    let k = trim_end_index(s);
    proof {
        lemma_trim_end_len(s@);
    }
    bytes_to_vec(&s[0..k])
}

/// A copy of `s` with whitespace stripped from both ends.
pub fn trim_bytes(s: &[u8]) -> (r: Vec<u8>)
    ensures
        r@ == spec_trim(s@),
{
    let k = trim_end_index(s);
    proof {
        lemma_trim_end_len(s@);
    }
    let e = &s[0..k];
    let a = trim_start_index(e);
    proof {
        lemma_trim_start_idx(e@);
        assert(e@.skip(a as int) =~= s@.subrange(a as int, k as int));
    }
    bytes_to_vec(&s[a..k])
}

} // verus!
