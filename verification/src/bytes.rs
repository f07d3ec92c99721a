//! Small verified helpers on byte strings.

use vstd::prelude::*;

verus! {

/// `p` is a prefix of `s`.
pub open spec fn is_prefix_of(p: Seq<u8>, s: Seq<u8>) -> bool {
    p.len() <= s.len() && p == s.take(p.len() as int)
}

/// Byte-for-byte equality of two byte strings.
pub fn bytes_eq(a: &Vec<u8>, b: &Vec<u8>) -> (r: bool)
    ensures
        r == (a@ == b@),
{
    if a.len() != b.len() {
        proof {
            assert(a@ != b@);
        }
        return false;
    }
    let mut i: usize = 0;
    while i < a.len()
        invariant
            i <= a.len(),
            a.len() == b.len(),
            forall|j: int| 0 <= j < i ==> a@[j] == b@[j],
        decreases a.len() - i,
    {
        if a[i] != b[i] {
            proof {
                assert(a@ != b@);
            }
            return false;
        }
        i += 1;
    }
    proof {
        assert(a@ =~= b@);
    }
    true
}

/// A fresh copy of a byte string.
pub fn clone_bytes(v: &Vec<u8>) -> (r: Vec<u8>)
    ensures
        r@ == v@,
{
    let mut out: Vec<u8> = Vec::new();
    let mut i: usize = 0;
    while i < v.len()
        invariant
            i <= v.len(),
            out@ =~= v@.take(i as int),
        decreases v.len() - i,
    {
        out.push(v[i]);
        i += 1;
    }
    proof {
        assert(v@.take(v@.len() as int) =~= v@);
    }
    out
}

/// A copy of the bytes of `v` from `lo` (inclusive) to `hi` (exclusive).
pub fn slice_bytes(v: &Vec<u8>, lo: usize, hi: usize) -> (r: Vec<u8>)
    requires
        lo <= hi <= v@.len(),
    ensures
        r@ == v@.subrange(lo as int, hi as int),
{
    let mut out: Vec<u8> = Vec::new();
    let mut i: usize = lo;
    while i < hi
        invariant
            lo <= i <= hi <= v@.len(),
            out@ =~= v@.subrange(lo as int, i as int),
        decreases hi - i,
    {
        out.push(v[i]);
        proof {
            assert(out@ =~= v@.subrange(lo as int, i + 1));
        }
        i += 1;
    }
    assert(out@ =~= v@.subrange(lo as int, hi as int));
    out
}

/// Whether `s` starts with the prefix `p`.
pub fn starts_with(s: &Vec<u8>, p: &Vec<u8>) -> (r: bool)
    ensures
        r == is_prefix_of(p@, s@),
{
    if p.len() > s.len() {
        return false;
    }
    let mut i: usize = 0;
    while i < p.len()
        invariant
            i <= p.len(),
            p.len() <= s.len(),
            forall|j: int| 0 <= j < i ==> p@[j] == s@[j],
        decreases p.len() - i,
    {
        if s[i] != p[i] {
            proof {
                assert(p@[i as int] != s@.take(p@.len() as int)[i as int]);
            }
            return false;
        }
        i += 1;
    }
    proof {
        assert(p@ =~= s@.take(p@.len() as int));
    }
    true
}

} // verus!
