//! Byte-string helpers: copies, comparisons, and ASCII case folding for
//! command names.

use vstd::prelude::*;
use vstd::slice::slice_index_get;

verus! {

/// ASCII lower case of one byte: letters `A`..`Z` move down, all else stays.
pub open spec fn lower_byte(b: u8) -> u8 {
    if 65 <= b <= 90 {
        (b + 32) as u8
    } else {
        b
    }
}

/// ASCII lower case of a byte string.
pub open spec fn lower_bytes(s: Seq<u8>) -> Seq<u8> {
    Seq::new(s.len(), |i: int| lower_byte(s[i]))
}

/// The ASCII lower case of `v`.
pub fn to_lower(v: &Vec<u8>) -> (r: Vec<u8>)
    ensures
        r@ == lower_bytes(v@),
{
    let mut r: Vec<u8> = Vec::new();
    let n = v.len();
    let mut i: usize = 0;
    while i < n
        invariant
            i <= n,
            n == v@.len(),
            r@ == lower_bytes(v@).subrange(0, i as int),
        decreases n - i,
    {
        let b = v[i];
        if 65 <= b && b <= 90 {
            r.push(b + 32);
        } else {
            r.push(b);
        }
        assert(r@ =~= lower_bytes(v@).subrange(0, i as int + 1));
        i += 1;
    }
    assert(r@ =~= lower_bytes(v@));
    r
}

/// Are two byte strings equal?
pub fn eq_bytes(a: &Vec<u8>, b: &Vec<u8>) -> (r: bool)
    ensures
        r == (a@ == b@),
{
    if a.len() != b.len() {
        return false;
    }
    let n = a.len();
    let mut i: usize = 0;
    while i < n
        invariant
            i <= n,
            n == a@.len() == b@.len(),
            forall|j: int| 0 <= j < i ==> a@[j] == b@[j],
        decreases n - i,
    {
        if a[i] != b[i] {
            return false;
        }
        i += 1;
    }
    proof {
        assert(a@ =~= b@);
    }
    true
}

/// Does `v` hold exactly the bytes of `t`?
pub fn eq_slice(v: &Vec<u8>, t: &[u8]) -> (r: bool)
    ensures
        r == (v@ == t@),
{
    if v.len() != t.len() {
        return false;
    }
    let n = v.len();
    let mut i: usize = 0;
    while i < n
        invariant
            i <= n,
            n == v@.len() == t@.len(),
            forall|j: int| 0 <= j < i ==> v@[j] == t@[j],
        decreases n - i,
    {
        if v[i] != *slice_index_get(t, i) {
            return false;
        }
        i += 1;
    }
    proof {
        assert(v@ =~= t@);
    }
    true
}

/// Does `v` begin with the bytes of `t`?
pub fn starts_with_slice(v: &Vec<u8>, t: &[u8]) -> (r: bool)
    ensures
        r == (v@.len() >= t@.len() && v@.subrange(0, t@.len() as int) == t@),
{
    if v.len() < t.len() {
        return false;
    }
    let n = t.len();
    let mut i: usize = 0;
    while i < n
        invariant
            i <= n,
            n == t@.len() <= v@.len(),
            forall|j: int| 0 <= j < i ==> v@[j] == t@[j],
        decreases n - i,
    {
        if v[i] != *slice_index_get(t, i) {
            proof {
                assert(v@.subrange(0, t@.len() as int)[i as int] == v@[i as int]);
            }
            return false;
        }
        i += 1;
    }
    proof {
        assert(v@.subrange(0, t@.len() as int) =~= t@);
    }
    true
}

/// A copy of the bytes of `src`.
pub fn copy_bytes(src: &Vec<u8>) -> (r: Vec<u8>)
    ensures
        r@ == src@,
{
    let mut r: Vec<u8> = Vec::new();
    append_bytes(&mut r, src);
    assert(r@ =~= src@);
    r
}

/// Appends a copy of `src` to `out`.
pub fn append_bytes(out: &mut Vec<u8>, src: &Vec<u8>)
    ensures
        final(out)@ == old(out)@ + src@,
{
    let n = src.len();
    let mut i: usize = 0;
    while i < n
        invariant
            i <= n,
            n == src@.len(),
            out@ == old(out)@ + src@.subrange(0, i as int),
        decreases n - i,
    {
        out.push(src[i]);
        assert(out@ =~= old(out)@ + src@.subrange(0, i as int + 1));
        i += 1;
    }
    assert(out@ =~= old(out)@ + src@);
}

/// Appends a copy of the slice `t` to `out`.
pub fn append_slice(out: &mut Vec<u8>, t: &[u8])
    ensures
        final(out)@ == old(out)@ + t@,
{
    let n = t.len();
    let mut i: usize = 0;
    while i < n
        invariant
            i <= n,
            n == t@.len(),
            out@ == old(out)@ + t@.subrange(0, i as int),
        decreases n - i,
    {
        out.push(*slice_index_get(t, i));
        assert(out@ =~= old(out)@ + t@.subrange(0, i as int + 1));
        i += 1;
    }
    assert(out@ =~= old(out)@ + t@);
}

} // verus!
