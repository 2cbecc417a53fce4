//! Small byte-vector helpers.

use vstd::prelude::*;

verus! {

/// Appends `s` to `v`.
pub fn append_bytes(v: &mut Vec<u8>, s: &[u8])
    ensures
        final(v)@ == old(v)@ + s@,
{
    let ghost o = v@;
    let mut i: usize = 0;
    while i < s.len()
        invariant
            i <= s@.len(),
            v@ == o + s@.take(i as int),
        decreases s@.len() - i,
    {
        v.push(s[i]);
        assert(s@.take(i + 1) =~= s@.take(i as int).push(s@[i as int]));
        assert(v@ =~= o + s@.take(i + 1));
        i = i + 1;
    }
    assert(s@.take(s@.len() as int) =~= s@);
}

/// A copy of `s[a..b]`.
pub fn copy_range(s: &[u8], a: usize, b: usize) -> (r: Vec<u8>)
    requires
        a <= b <= s@.len(),
    ensures
        r@ == s@.subrange(a as int, b as int),
{
    let mut r: Vec<u8> = Vec::new();
    append_bytes(&mut r, &s[a..b]);
    assert(r@ =~= s@.subrange(a as int, b as int));
    r
}

/// `v` cut or padded with zeros to `n` bytes, as `Vec::resize(n, 0)` leaves it.
pub open spec fn resized(v: Seq<u8>, n: int) -> Seq<u8> {
    if n <= v.len() {
        v.take(n)
    } else {
        v + Seq::new((n - v.len()) as nat, |i: int| 0u8)
    }
}

/// Resizes `v` to `n` bytes, filling new bytes with zero.
pub fn resize_bytes(v: &mut Vec<u8>, n: usize)
    ensures
        final(v)@ == resized(old(v)@, n as int),
{
    if n <= v.len() {
        v.truncate(n);
        return;
    }
    let ghost o = v@;
    while v.len() < n
        invariant
            o.len() <= v@.len() <= n,
            v@ == o + Seq::new((v@.len() - o.len()) as nat, |i: int| 0u8),
        decreases n - v@.len(),
    {
        v.push(0);
        assert(v@ =~= o + Seq::new((v@.len() - o.len()) as nat, |i: int| 0u8));
    }
}

} // verus!
