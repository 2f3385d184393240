//! On-disk integer encoding and decoding.
//!
//! XFS stores every multi-byte on-disk field in big-endian order, on every
//! host. Checksum fields are the exception: they are little-endian, and so
//! are the structures that describe a log item.

use vstd::prelude::*;

verus! {

/// The big-endian `u16` at `off`.
pub open spec fn be16_at(b: Seq<u8>, off: int) -> u16 {
    (b[off] * 0x100 + b[off + 1]) as u16
}

/// The big-endian `u32` at `off`.
pub open spec fn be32_at(b: Seq<u8>, off: int) -> u32 {
    (b[off] * 0x100_0000 + b[off + 1] * 0x1_0000 + b[off + 2] * 0x100 + b[off + 3]) as u32
}

/// The big-endian `u64` at `off`.
pub open spec fn be64_at(b: Seq<u8>, off: int) -> u64 {
    (be32_at(b, off) * 0x1_0000_0000 + be32_at(b, off + 4)) as u64
}

/// The little-endian `u16` at `off`.
pub open spec fn le16_at(b: Seq<u8>, off: int) -> u16 {
    (b[off] + b[off + 1] * 0x100) as u16
}

/// The little-endian `u32` at `off`.
pub open spec fn le32_at(b: Seq<u8>, off: int) -> u32 {
    (b[off] + b[off + 1] * 0x100 + b[off + 2] * 0x1_0000 + b[off + 3] * 0x100_0000) as u32
}

/// The little-endian `u64` at `off`.
pub open spec fn le64_at(b: Seq<u8>, off: int) -> u64 {
    (le32_at(b, off) + le32_at(b, off + 4) * 0x1_0000_0000) as u64
}

/// The two bytes of `v`, most significant first.
pub open spec fn be16_bytes(v: u16) -> Seq<u8> {
    seq![(v / 0x100) as u8, (v % 0x100) as u8]
}

/// The four bytes of `v`, most significant first.
pub open spec fn be32_bytes(v: u32) -> Seq<u8> {
    seq![
        (v / 0x100_0000) as u8,
        (v / 0x1_0000 % 0x100) as u8,
        (v / 0x100 % 0x100) as u8,
        (v % 0x100) as u8,
    ]
}

/// The eight bytes of `v`, most significant first.
pub open spec fn be64_bytes(v: u64) -> Seq<u8> {
    be32_bytes((v / 0x1_0000_0000) as u32) + be32_bytes((v % 0x1_0000_0000) as u32)
}

/// The two bytes of `v`, least significant first.
pub open spec fn le16_bytes(v: u16) -> Seq<u8> {
    seq![(v % 0x100) as u8, (v / 0x100) as u8]
}

/// The four bytes of `v`, least significant first.
pub open spec fn le32_bytes(v: u32) -> Seq<u8> {
    seq![
        (v % 0x100) as u8,
        (v / 0x100 % 0x100) as u8,
        (v / 0x1_0000 % 0x100) as u8,
        (v / 0x100_0000) as u8,
    ]
}

/// The eight bytes of `v`, least significant first.
pub open spec fn le64_bytes(v: u64) -> Seq<u8> {
    le32_bytes((v % 0x1_0000_0000) as u32) + le32_bytes((v / 0x1_0000_0000) as u32)
}

/// Read a big-endian `u16` at `off`.
pub fn be16(b: &[u8], off: usize) -> (r: u16)
    requires
        off + 2 <= b.len(),
    ensures
        r == be16_at(b@, off as int),
{
    b[off] as u16 * 0x100 + b[off + 1] as u16
}

/// Read a big-endian `u32` at `off`.
pub fn be32(b: &[u8], off: usize) -> (r: u32)
    requires
        off + 4 <= b.len(),
    ensures
        r == be32_at(b@, off as int),
{
    b[off] as u32 * 0x100_0000 + b[off + 1] as u32 * 0x1_0000 + b[off + 2] as u32 * 0x100
        + b[off + 3] as u32
}

/// Read a big-endian `u64` at `off`.
pub fn be64(b: &[u8], off: usize) -> (r: u64)
    requires
        off + 8 <= b.len(),
    ensures
        r == be64_at(b@, off as int),
{
    be32(b, off) as u64 * 0x1_0000_0000 + be32(b, off + 4) as u64
}

/// Read a little-endian `u16` at `off`.
pub fn le16(b: &[u8], off: usize) -> (r: u16)
    requires
        off + 2 <= b.len(),
    ensures
        r == le16_at(b@, off as int),
{
    b[off] as u16 + b[off + 1] as u16 * 0x100
}

/// Read a **little-endian** `u32` at `off`.
///
/// This is for checksum fields and for log item structures. Every other
/// field on disk is big-endian and wants [`be32`].
pub fn le32(b: &[u8], off: usize) -> (r: u32)
    requires
        off + 4 <= b.len(),
    ensures
        r == le32_at(b@, off as int),
{
    b[off] as u32 + b[off + 1] as u32 * 0x100 + b[off + 2] as u32 * 0x1_0000 + b[off + 3] as u32
        * 0x100_0000
}

/// Read the little-endian `u64` at `off`, as a log item's 64-bit fields are
/// stored.
pub fn le64(b: &[u8], off: usize) -> (r: u64)
    requires
        off + 8 <= b.len(),
    ensures
        r == le64_at(b@, off as int),
{
    le32(b, off) as u64 + le32(b, off + 4) as u64 * 0x1_0000_0000
}

/// Copy the 16-byte UUID at `off`.
pub fn uuid_at(b: &[u8], off: usize) -> (r: [u8; 16])
    requires
        off + 16 <= b.len(),
    ensures
        r@ == b@.subrange(off as int, off + 16),
{
    let mut r = [0u8; 16];
    let mut i: usize = 0;
    while i < 16
        invariant
            i <= 16,
            off + 16 <= b.len(),
            forall|k: int| 0 <= k < i ==> r@[k] == b@[off + k],
        decreases 16 - i,
    {
        r[i] = b[off + i];
        i += 1;
    }
    assert(r@ =~= b@.subrange(off as int, off + 16));
    r
}

/// Encode `v` big-endian.
pub fn to_be32(v: u32) -> (r: [u8; 4])
    ensures
        r@ == be32_bytes(v),
{
    let r = [
        (v / 0x100_0000) as u8,
        (v / 0x1_0000 % 0x100) as u8,
        (v / 0x100 % 0x100) as u8,
        (v % 0x100) as u8,
    ];
    assert(r@ =~= be32_bytes(v));
    r
}

/// Encode `v` big-endian.
pub fn to_be64(v: u64) -> (r: [u8; 8])
    ensures
        r@ == be64_bytes(v),
{
    let hi = to_be32((v / 0x1_0000_0000) as u32);
    let lo = to_be32((v % 0x1_0000_0000) as u32);
    let r = [hi[0], hi[1], hi[2], hi[3], lo[0], lo[1], lo[2], lo[3]];
    assert(r@ =~= hi@ + lo@);
    r
}

/// Encode `v` little-endian.
pub fn to_le16(v: u16) -> (r: [u8; 2])
    ensures
        r@ == le16_bytes(v),
{
    let r = [(v % 0x100) as u8, (v / 0x100) as u8];
    assert(r@ =~= le16_bytes(v));
    r
}

/// Encode `v` little-endian.
pub fn to_le32(v: u32) -> (r: [u8; 4])
    ensures
        r@ == le32_bytes(v),
{
    let r = [
        (v % 0x100) as u8,
        (v / 0x100 % 0x100) as u8,
        (v / 0x1_0000 % 0x100) as u8,
        (v / 0x100_0000) as u8,
    ];
    assert(r@ =~= le32_bytes(v));
    r
}

/// Encode `v` little-endian.
pub fn to_le64(v: u64) -> (r: [u8; 8])
    ensures
        r@ == le64_bytes(v),
{
    let lo = to_le32((v % 0x1_0000_0000) as u32);
    let hi = to_le32((v / 0x1_0000_0000) as u32);
    let r = [lo[0], lo[1], lo[2], lo[3], hi[0], hi[1], hi[2], hi[3]];
    assert(r@ =~= lo@ + hi@);
    r
}

/// What is written big-endian reads back big-endian, wherever it stands.
pub proof fn law_big_endian_round_trip(b: Seq<u8>, off: int, v16: u16, v32: u32, v64: u64)
    requires
        0 <= off,
        off + 8 <= b.len(),
    ensures
        b.subrange(off, off + 2) == be16_bytes(v16) ==> be16_at(b, off) == v16,
        b.subrange(off, off + 4) == be32_bytes(v32) ==> be32_at(b, off) == v32,
        b.subrange(off, off + 8) == be64_bytes(v64) ==> be64_at(b, off) == v64,
{
    if b.subrange(off, off + 2) == be16_bytes(v16) {
        lemma_be16_reads_back(b, off, v16);
    }
    if b.subrange(off, off + 4) == be32_bytes(v32) {
        lemma_be32_reads_back(b, off, v32);
    }
    if b.subrange(off, off + 8) == be64_bytes(v64) {
        lemma_be64_reads_back(b, off, v64);
    }
}

/// What is written little-endian reads back little-endian, wherever it
/// stands.
pub proof fn law_little_endian_round_trip(b: Seq<u8>, off: int, v16: u16, v32: u32, v64: u64)
    requires
        0 <= off,
        off + 8 <= b.len(),
    ensures
        b.subrange(off, off + 2) == le16_bytes(v16) ==> le16_at(b, off) == v16,
        b.subrange(off, off + 4) == le32_bytes(v32) ==> le32_at(b, off) == v32,
        b.subrange(off, off + 8) == le64_bytes(v64) ==> le64_at(b, off) == v64,
{
    if b.subrange(off, off + 2) == le16_bytes(v16) {
        lemma_le16_reads_back(b, off, v16);
    }
    if b.subrange(off, off + 4) == le32_bytes(v32) {
        lemma_le32_reads_back(b, off, v32);
    }
    if b.subrange(off, off + 8) == le64_bytes(v64) {
        lemma_le64_reads_back(b, off, v64);
    }
}

/// A big-endian field weighs its bytes by place, the first one most, and a
/// little-endian field weighs them the other way round.
pub proof fn law_bytes_weigh_by_place(b: Seq<u8>, off: int)
    requires
        0 <= off,
        off + 8 <= b.len(),
    ensures
        be16_at(b, off) == b[off] * 0x100 + b[off + 1],
        le16_at(b, off) == b[off + 1] * 0x100 + b[off],
        be32_at(b, off) == b[off] * 0x100_0000 + b[off + 1] * 0x1_0000 + b[off + 2] * 0x100 + b[off
            + 3],
        le32_at(b, off) == b[off + 3] * 0x100_0000 + b[off + 2] * 0x1_0000 + b[off + 1] * 0x100
            + b[off],
        be64_at(b, off) == b[off] * 0x100_0000_0000_0000 + b[off + 1] * 0x1_0000_0000_0000 + b[off
            + 2] * 0x100_0000_0000 + b[off + 3] * 0x1_0000_0000 + b[off + 4] * 0x100_0000 + b[off
            + 5] * 0x1_0000 + b[off + 6] * 0x100 + b[off + 7],
        le64_at(b, off) == b[off + 7] * 0x100_0000_0000_0000 + b[off + 6] * 0x1_0000_0000_0000
            + b[off + 5] * 0x100_0000_0000 + b[off + 4] * 0x1_0000_0000 + b[off + 3] * 0x100_0000
            + b[off + 2] * 0x1_0000 + b[off + 1] * 0x100 + b[off],
{
}

/// What is written is as wide as the field, and the little-endian bytes are
/// the big-endian ones backwards.
pub proof fn law_the_orders_are_each_other_backwards(v16: u16, v32: u32, v64: u64)
    ensures
        be16_bytes(v16).len() == 2 && le16_bytes(v16) == be16_bytes(v16).reverse(),
        be32_bytes(v32).len() == 4 && le32_bytes(v32) == be32_bytes(v32).reverse(),
        be64_bytes(v64).len() == 8 && le64_bytes(v64) == be64_bytes(v64).reverse(),
        be16_bytes(v16)[0] * 0x100 + be16_bytes(v16)[1] == v16,
        be32_bytes(v32)[0] * 0x100_0000 + be32_bytes(v32)[1] * 0x1_0000 + be32_bytes(v32)[2] * 0x100
            + be32_bytes(v32)[3] == v32,
        be64_bytes(v64).subrange(0, 4) == be32_bytes((v64 / 0x1_0000_0000) as u32),
        be64_bytes(v64).subrange(4, 8) == be32_bytes((v64 % 0x1_0000_0000) as u32),
{
    assert(le16_bytes(v16) =~= be16_bytes(v16).reverse());
    assert(le32_bytes(v32) =~= be32_bytes(v32).reverse());
    assert(le64_bytes(v64) =~= be64_bytes(v64).reverse());
    assert(be64_bytes(v64).subrange(0, 4) =~= be32_bytes((v64 / 0x1_0000_0000) as u32));
    assert(be64_bytes(v64).subrange(4, 8) =~= be32_bytes((v64 % 0x1_0000_0000) as u32));
}

/// The two readers agree on four bytes exactly when those bytes are a
/// palindrome.
pub proof fn law_readers_agree_on_palindromes_only(b: Seq<u8>, off: int)
    requires
        0 <= off,
        off + 4 <= b.len(),
    ensures
        be32_at(b, off) == le32_at(b, off) <==> b[off] == b[off + 3] && b[off + 1] == b[off + 2],
{
}

/// Two buffers that agree on the bytes of a field agree on the field, in
/// either order and at either width.
pub(crate) proof fn lemma_same_bytes_same_field(a: Seq<u8>, b: Seq<u8>, off: int)
    ensures
        (forall|i: int| off <= i < off + 2 ==> a[i] == b[i]) ==> {
            &&& be16_at(a, off) == be16_at(b, off)
            &&& le16_at(a, off) == le16_at(b, off)
        },
        (forall|i: int| off <= i < off + 4 ==> a[i] == b[i]) ==> {
            &&& be32_at(a, off) == be32_at(b, off)
            &&& le32_at(a, off) == le32_at(b, off)
        },
        (forall|i: int| off <= i < off + 8 ==> a[i] == b[i]) ==> {
            &&& be64_at(a, off) == be64_at(b, off)
            &&& le64_at(a, off) == le64_at(b, off)
        },
{
}

pub(crate) proof fn lemma_be16_reads_back(b: Seq<u8>, off: int, v: u16)
    requires
        0 <= off,
        off + 2 <= b.len(),
        b.subrange(off, off + 2) == be16_bytes(v),
    ensures
        be16_at(b, off) == v,
{
    let s = b.subrange(off, off + 2);
    assert(s[0] == b[off] && s[1] == b[off + 1]);
}

pub(crate) proof fn lemma_be32_reads_back(b: Seq<u8>, off: int, v: u32)
    requires
        0 <= off,
        off + 4 <= b.len(),
        b.subrange(off, off + 4) == be32_bytes(v),
    ensures
        be32_at(b, off) == v,
{
    let s = b.subrange(off, off + 4);
    assert(s[0] == b[off] && s[1] == b[off + 1] && s[2] == b[off + 2] && s[3] == b[off + 3]);
}

pub(crate) proof fn lemma_be64_reads_back(b: Seq<u8>, off: int, v: u64)
    requires
        0 <= off,
        off + 8 <= b.len(),
        b.subrange(off, off + 8) == be64_bytes(v),
    ensures
        be64_at(b, off) == v,
{
    let hi = be32_bytes((v / 0x1_0000_0000) as u32);
    let lo = be32_bytes((v % 0x1_0000_0000) as u32);
    assert((hi + lo).subrange(0, 4) =~= hi);
    assert((hi + lo).subrange(4, 8) =~= lo);
    assert(b.subrange(off, off + 4) =~= b.subrange(off, off + 8).subrange(0, 4));
    assert(b.subrange(off + 4, off + 8) =~= b.subrange(off, off + 8).subrange(4, 8));
    lemma_be32_reads_back(b, off, (v / 0x1_0000_0000) as u32);
    lemma_be32_reads_back(b, off + 4, (v % 0x1_0000_0000) as u32);
}

pub(crate) proof fn lemma_le16_reads_back(b: Seq<u8>, off: int, v: u16)
    requires
        0 <= off,
        off + 2 <= b.len(),
        b.subrange(off, off + 2) == le16_bytes(v),
    ensures
        le16_at(b, off) == v,
{
    let s = b.subrange(off, off + 2);
    assert(s[0] == b[off] && s[1] == b[off + 1]);
}

pub(crate) proof fn lemma_le32_reads_back(b: Seq<u8>, off: int, v: u32)
    requires
        0 <= off,
        off + 4 <= b.len(),
        b.subrange(off, off + 4) == le32_bytes(v),
    ensures
        le32_at(b, off) == v,
{
    let s = b.subrange(off, off + 4);
    assert(s[0] == b[off] && s[1] == b[off + 1] && s[2] == b[off + 2] && s[3] == b[off + 3]);
}

pub(crate) proof fn lemma_le64_reads_back(b: Seq<u8>, off: int, v: u64)
    requires
        0 <= off,
        off + 8 <= b.len(),
        b.subrange(off, off + 8) == le64_bytes(v),
    ensures
        le64_at(b, off) == v,
{
    let lo = le32_bytes((v % 0x1_0000_0000) as u32);
    let hi = le32_bytes((v / 0x1_0000_0000) as u32);
    assert((lo + hi).subrange(0, 4) =~= lo);
    assert((lo + hi).subrange(4, 8) =~= hi);
    assert(b.subrange(off, off + 4) =~= b.subrange(off, off + 8).subrange(0, 4));
    assert(b.subrange(off + 4, off + 8) =~= b.subrange(off, off + 8).subrange(4, 8));
    lemma_le32_reads_back(b, off, (v % 0x1_0000_0000) as u32);
    lemma_le32_reads_back(b, off + 4, (v / 0x1_0000_0000) as u32);
}

} // verus!
