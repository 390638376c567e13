//! Small verified helpers over byte vectors, shared by the codec, the key
//! schema and the engines.
use vstd::prelude::*;

verus! {

/// The value of a big-endian 16-bit length field.
pub open spec fn be16(hi: u8, lo: u8) -> int {
    hi * 256 + lo
}

/// The value of a big-endian 32-bit length field.
pub open spec fn be32(b0: u8, b1: u8, b2: u8, b3: u8) -> int {
    ((b0 * 256 + b1) * 256 + b2) * 256 + b3
}

/// Reads the 32-bit big-endian length field at `at`.
pub fn read_be32(data: &Vec<u8>, at: usize) -> (r: u32)
    requires
        at + 4 <= data.len(),
    ensures
        r == be32(data@[at as int], data@[at + 1], data@[at + 2], data@[at + 3]),
{
    (((data[at] as u32) * 256 + (data[at + 1] as u32)) * 256 + (data[at + 2] as u32)) * 256 + (
    data[at + 3] as u32)
}

/// Copies the byte range `[start, end)` of `data` into a fresh vector.
pub fn bytes_range(data: &Vec<u8>, start: usize, end: usize) -> (r: Vec<u8>)
    requires
        start <= end <= data.len(),
    ensures
        r@ == data@.subrange(start as int, end as int),
{
    let mut r: Vec<u8> = Vec::new();
    let mut i: usize = start;
    while i < end
        invariant
            start <= i <= end,
            r@ == data@.subrange(start as int, i as int),
        decreases end - i,
    {
        r.push(data[i]);
        proof {
            assert(data@.subrange(start as int, i as int).push(data@[i as int]) =~= data@
                .subrange(start as int, i + 1 as int));
        }
        i = i + 1;
    }
    r
}

/// Appends all of `src` to `dst`.
pub fn push_all(dst: &mut Vec<u8>, src: &Vec<u8>)
    ensures
        final(dst)@ == old(dst)@ + src@,
{
    let mut i: usize = 0;
    while i < src.len()
        invariant
            i <= src.len(),
            dst@ == old(dst)@ + src@.subrange(0, i as int),
        decreases src.len() - i,
    {
        dst.push(src[i]);
        proof {
            assert(old(dst)@ + src@.subrange(0, i as int) + seq![src@[i as int]] =~= old(dst)@
                + src@.subrange(0, i + 1 as int));
        }
        i = i + 1;
    }
    proof {
        assert(old(dst)@ + src@.subrange(0, src@.len() as int) =~= old(dst)@ + src@);
    }
}

/// Exact byte-for-byte equality of two vectors.
pub fn bytes_eq(a: &Vec<u8>, b: &Vec<u8>) -> (r: bool)
    ensures
        r == (a@ == b@),
{
    if a.len() != b.len() {
        return false;
    }
    let mut i: usize = 0;
    while i < a.len()
        invariant
            i <= a.len(),
            a.len() == b.len(),
            forall|j: int| 0 <= j < i ==> a@[j] == b@[j],
        decreases a.len() - i,
    {
        if a[i] != b[i] {
            return false;
        }
        i = i + 1;
    }
    proof {
        assert(a@ =~= b@);
    }
    true
}

/// Does `a`, with its first `skip` bytes ignored, equal `t` exactly?
pub fn suffix_matches(a: &Vec<u8>, skip: usize, t: &Vec<u8>) -> (r: bool)
    ensures
        r == (a@.len() >= skip && a@.skip(skip as int) == t@),
{
    if a.len() < skip {
        return false;
    }
    if a.len() - skip != t.len() {
        proof {
            assert(a@.skip(skip as int).len() != t@.len());
        }
        return false;
    }
    let mut i: usize = 0;
    while i < t.len()
        invariant
            i <= t.len(),
            skip <= a.len(),
            a.len() - skip == t.len(),
            forall|j: int| 0 <= j < i ==> a@[skip + j] == t@[j],
        decreases t.len() - i,
    {
        if a[skip + i] != t[i] {
            proof {
                assert(a@.skip(skip as int)[i as int] == a@[skip + i]);
            }
            return false;
        }
        i = i + 1;
    }
    proof {
        assert(a@.skip(skip as int) =~= t@);
    }
    true
}

/// Does `a` start with the bytes of `p`?
pub fn prefix_matches(a: &Vec<u8>, p: &Vec<u8>) -> (r: bool)
    ensures
        r == (a@.len() >= p@.len() && a@.take(p@.len() as int) == p@),
{
    if a.len() < p.len() {
        return false;
    }
    let mut i: usize = 0;
    while i < p.len()
        invariant
            i <= p.len() <= a.len(),
            forall|j: int| 0 <= j < i ==> a@[j] == p@[j],
        decreases p.len() - i,
    {
        if a[i] != p[i] {
            proof {
                assert(a@.take(p@.len() as int)[i as int] == a@[i as int]);
            }
            return false;
        }
        i = i + 1;
    }
    proof {
        assert(a@.take(p@.len() as int) =~= p@);
    }
    true
}

} // verus!
