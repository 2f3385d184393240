//! Patching byte buffers.

use vstd::prelude::*;

verus! {

/// `b` with the bytes from `off` on replaced by `s`.
pub open spec fn patched(b: Seq<u8>, off: int, s: Seq<u8>) -> Seq<u8> {
    Seq::new(
        b.len(),
        |i: int|
            if off <= i < off + s.len() {
                s[i - off]
            } else {
                b[i]
            },
    )
}

/// `n` zero bytes.
pub open spec fn zeros(n: nat) -> Seq<u8> {
    Seq::new(n, |i: int| 0u8)
}

/// Overwrite `buf` with `s` from `off` on.
pub fn put(buf: &mut [u8], off: usize, s: &[u8])
    requires
        off + s@.len() <= old(buf).len(),
    ensures
        final(buf)@ == patched(old(buf)@, off as int, s@),
{
    let mut i: usize = 0;
    while i < s.len()
        invariant
            i <= s@.len(),
            off + s@.len() <= buf.len(),
            buf@.len() == old(buf)@.len(),
            forall|k: int|
                0 <= k < buf@.len() ==> buf@[k] == (if off <= k < off + i {
                    s@[k - off]
                } else {
                    old(buf)@[k]
                }),
        decreases s@.len() - i,
    {
        buf[off + i] = s[i];
        i += 1;
    }
    assert(buf@ =~= patched(old(buf)@, off as int, s@));
}

/// A vector of `n` zero bytes.
pub fn zeroed(n: usize) -> (r: Vec<u8>)
    ensures
        r@ == zeros(n as nat),
{
    let r = vec![0u8; n];
    assert(r@ =~= zeros(n as nat));
    r
}

/// Append `s` to `out`.
pub fn append(out: &mut Vec<u8>, s: &[u8])
    ensures
        final(out)@ == old(out)@ + s@,
{
    out.extend_from_slice(s);
    assert(out@ =~= old(out)@ + s@);
}

/// Whether `a` and `b` hold the same bytes.
pub fn same(a: &[u8], b: &[u8]) -> (r: bool)
    ensures
        r == (a@ == b@),
{
    if a.len() != b.len() {
        return false;
    }
    let mut i: usize = 0;
    while i < a.len()
        invariant
            i <= a@.len(),
            a@.len() == b@.len(),
            forall|k: int| 0 <= k < i ==> a@[k] == b@[k],
        decreases a@.len() - i,
    {
        if a[i] != b[i] {
            return false;
        }
        i += 1;
    }
    assert(a@ =~= b@);
    true
}

/// What was patched in reads back, and nothing beside it moved.
pub proof fn lemma_patched(b: Seq<u8>, off: int, s: Seq<u8>)
    requires
        0 <= off,
        off + s.len() <= b.len(),
    ensures
        patched(b, off, s).len() == b.len(),
        patched(b, off, s).subrange(off, off + s.len()) == s,
        forall|i: int|
            0 <= i < b.len() && !(off <= i < off + s.len()) ==> patched(b, off, s)[i] == b[i],
{
    assert(patched(b, off, s).subrange(off, off + s.len()) =~= s);
}

} // verus!
