//! CRC32C, the checksum of every v5 structure and of every log record.
//!
//! A structure's checksum field is part of what it covers, so it is taken
//! to be zero while the checksum is computed.

use vstd::prelude::*;
use crate::bytes::{patched, zeros};
use crate::endian::le32_bytes;

verus! {

/// The Castagnoli polynomial, bit-reflected.
pub const CRC32C_POLYNOMIAL: u32 = 0x82F6_3B78;

/// One bit of polynomial division.
pub open spec fn crc_bit(c: u32) -> u32 {
    if c & 1 == 1 {
        (c >> 1) ^ CRC32C_POLYNOMIAL
    } else {
        c >> 1
    }
}

/// `n` bits of polynomial division.
pub open spec fn crc_bits(c: u32, n: nat) -> u32
    decreases n,
{
    if n == 0 {
        c
    } else {
        crc_bit(crc_bits(c, (n - 1) as nat))
    }
}

/// The register after taking in `bytes`, least significant bit first.
pub open spec fn crc_register(c: u32, bytes: Seq<u8>) -> u32
    decreases bytes.len(),
{
    if bytes.len() == 0 {
        c
    } else {
        crc_bits(crc_register(c, bytes.drop_last()) ^ (bytes.last() as u32), 8)
    }
}

/// CRC32C of `bytes`: the register starts all ones and comes out inverted.
pub open spec fn crc32c_of(bytes: Seq<u8>) -> u32 {
    !crc_register(0xFFFF_FFFF, bytes)
}

/// `bytes` with the four bytes at `crc_off` taken to be zero.
pub open spec fn with_zeroed_crc(bytes: Seq<u8>, crc_off: int) -> Seq<u8> {
    patched(bytes, crc_off, zeros(4))
}

/// Take one more byte into the register.
fn take_byte(c: u32, byte: u8) -> (r: u32)
    ensures
        r == crc_bits(c ^ (byte as u32), 8),
{
    let mut r: u32 = c ^ (byte as u32);
    let mut n: u32 = 0;
    while n < 8
        invariant
            n <= 8,
            r == crc_bits(c ^ (byte as u32), n as nat),
        decreases 8 - n,
    {
        if r & 1 == 1 {
            r = (r >> 1) ^ CRC32C_POLYNOMIAL;
        } else {
            r = r >> 1;
        }
        n += 1;
    }
    r
}

/// Take `bytes` into the register.
fn take_bytes(c: u32, bytes: &[u8]) -> (r: u32)
    ensures
        r == crc_register(c, bytes@),
{
    let mut r: u32 = c;
    let mut i: usize = 0;
    assert(bytes@.take(0).len() == 0);
    while i < bytes.len()
        invariant
            i <= bytes@.len(),
            r == crc_register(c, bytes@.take(i as int)),
        decreases bytes@.len() - i,
    {
        assert(bytes@.take(i + 1).drop_last() =~= bytes@.take(i as int));
        assert(bytes@.take(i + 1).last() == bytes@[i as int]);
        r = take_byte(r, bytes[i]);
        i += 1;
    }
    assert(bytes@.take(i as int) =~= bytes@);
    r
}

/// Taking in two stretches of bytes one after the other is taking in both.
proof fn lemma_register_concatenates(c: u32, a: Seq<u8>, b: Seq<u8>)
    ensures
        crc_register(c, a + b) == crc_register(crc_register(c, a), b),
    decreases b.len(),
{
    if b.len() == 0 {
        assert(a + b =~= a);
    } else {
        assert((a + b).drop_last() =~= a + b.drop_last());
        assert((a + b).last() == b.last());
        lemma_register_concatenates(c, a, b.drop_last());
    }
}

/// CRC32C of `head` followed by `tail`.
pub fn crc32c_of_two(head: &[u8], tail: &[u8]) -> (r: u32)
    ensures
        r == crc32c_of(head@ + tail@),
{
    proof {
        lemma_register_concatenates(0xFFFF_FFFF, head@, tail@);
    }
    !take_bytes(take_bytes(0xFFFF_FFFF, head), tail)
}

/// CRC32C of `buf` with its own checksum field, at `crc_off`, taken to be
/// zero.
pub fn crc32c_with_zeroed_crc(buf: &[u8], crc_off: usize) -> (r: u32)
    requires
        crc_off + 4 <= buf.len(),
    ensures
        r == crc32c_of(with_zeroed_crc(buf@, crc_off as int)),
{
    let before = vstd::slice::slice_subrange(buf, 0, crc_off);
    let zero = [0u8; 4];
    let after = vstd::slice::slice_subrange(buf, crc_off + 4, buf.len());
    proof {
        let whole = with_zeroed_crc(buf@, crc_off as int);
        assert(whole =~= (before@ + zero@) + after@);
        lemma_register_concatenates(0xFFFF_FFFF, before@, zero@);
        lemma_register_concatenates(0xFFFF_FFFF, before@ + zero@, after@);
    }
    let c = take_bytes(0xFFFF_FFFF, before);
    let c = take_bytes(c, &zero);
    !take_bytes(c, after)
}

/// The checksum of a structure does not depend on what its checksum field
/// holds, so storing the checksum does not invalidate it.
pub proof fn law_checksum_ignores_its_own_field(buf: Seq<u8>, crc_off: int, stored: Seq<u8>)
    requires
        0 <= crc_off,
        crc_off + 4 <= buf.len(),
        stored.len() == 4,
    ensures
        crc32c_of(with_zeroed_crc(patched(buf, crc_off, stored), crc_off)) == crc32c_of(
            with_zeroed_crc(buf, crc_off),
        ),
{
    assert(with_zeroed_crc(patched(buf, crc_off, stored), crc_off) =~= with_zeroed_crc(
        buf,
        crc_off,
    ));
}

/// `bytes` with four bytes taken to be zero has zeros there, and is as it
/// was everywhere else.
pub proof fn law_only_the_field_is_zeroed(bytes: Seq<u8>, crc_off: int)
    ensures
        with_zeroed_crc(bytes, crc_off).len() == bytes.len(),
        forall|i: int|
            0 <= i < bytes.len() ==> #[trigger] with_zeroed_crc(bytes, crc_off)[i] == (if crc_off
                <= i < crc_off + 4 {
                0u8
            } else {
                bytes[i]
            }),
{
}

/// Eight bits of division, one after the other.
proof fn lemma_eight_bits(c: u32)
    ensures
        crc_bits(c, 8) == crc_bit(
            crc_bit(crc_bit(crc_bit(crc_bit(crc_bit(crc_bit(crc_bit(c))))))),
        ),
{
    reveal_with_fuel(crc_bits, 9);
}

/// Dividing loses nothing: two registers that come out alike were alike.
proof fn lemma_bits_are_injective(x: u32, y: u32, n: nat)
    requires
        crc_bits(x, n) == crc_bits(y, n),
    ensures
        x == y,
    decreases n,
{
    if n > 0 {
        let a = crc_bits(x, (n - 1) as nat);
        let b = crc_bits(y, (n - 1) as nat);
        assert(crc_bit(a) == crc_bit(b) ==> a == b) by (bit_vector);
        lemma_bits_are_injective(x, y, (n - 1) as nat);
    }
}

/// Taking the same bytes in keeps different registers different.
proof fn lemma_register_is_injective(c: u32, d: u32, bytes: Seq<u8>)
    requires
        crc_register(c, bytes) == crc_register(d, bytes),
    ensures
        c == d,
    decreases bytes.len(),
{
    if bytes.len() > 0 {
        let x = crc_register(c, bytes.drop_last());
        let y = crc_register(d, bytes.drop_last());
        let last = bytes.last() as u32;
        lemma_bits_are_injective(x ^ last, y ^ last, 8);
        assert(x ^ last == y ^ last ==> x == y) by (bit_vector);
        lemma_register_is_injective(c, d, bytes.drop_last());
    }
}

/// A checksum is taken byte after byte: of what came before, only its
/// checksum counts for the checksum of the whole, and all of that counts.
/// Nothing has the checksum zero.
pub proof fn law_checksum_is_taken_byte_after_byte(a: Seq<u8>, b: Seq<u8>, tail: Seq<u8>)
    ensures
        crc32c_of(Seq::empty()) == 0,
        crc32c_of(a + tail) == crc32c_of(b + tail) <==> crc32c_of(a) == crc32c_of(b),
{
    assert(!0xFFFF_FFFFu32 == 0u32) by (bit_vector);
    let x = crc_register(0xFFFF_FFFF, a);
    let y = crc_register(0xFFFF_FFFF, b);
    lemma_register_concatenates(0xFFFF_FFFF, a, tail);
    lemma_register_concatenates(0xFFFF_FFFF, b, tail);
    let v = crc_register(x, tail);
    let w = crc_register(y, tail);
    assert(!v == !w <==> v == w) by (bit_vector);
    assert(!x == !y <==> x == y) by (bit_vector);
    if v == w {
        lemma_register_is_injective(x, y, tail);
    }
}

/// A checksum tells apart what differs in one byte, wherever that is.
pub proof fn law_checksum_tells_a_changed_byte(before: Seq<u8>, x: u8, y: u8, after: Seq<u8>)
    requires
        x != y,
    ensures
        crc32c_of(before.push(x) + after) != crc32c_of(before.push(y) + after),
{
    law_checksum_is_taken_byte_after_byte(before.push(x), before.push(y), after);
    assert(before.push(x).drop_last() =~= before);
    assert(before.push(y).drop_last() =~= before);
    let c = crc_register(0xFFFF_FFFF, before);
    let v = crc_register(0xFFFF_FFFF, before.push(x));
    let w = crc_register(0xFFFF_FFFF, before.push(y));
    assert(!v == !w <==> v == w) by (bit_vector);
    if v == w {
        lemma_bits_are_injective(c ^ (x as u32), c ^ (y as u32), 8);
        assert(c ^ (x as u32) == c ^ (y as u32) ==> x == y) by (bit_vector);
    }
}

/// Whatever the message, the checksum of the message followed by its own
/// checksum is the residue of CRC32C.
pub proof fn law_checksum_leaves_the_residue(message: Seq<u8>)
    ensures
        crc32c_of(message + le32_bytes(crc32c_of(message))) == 0x4867_4BC7,
{
    let r = crc_register(0xFFFF_FFFF, message);
    let sum = !r;
    let tail = le32_bytes(sum);
    lemma_register_concatenates(0xFFFF_FFFF, message, tail);
    let b0 = tail[0];
    let b1 = tail[1];
    let b2 = tail[2];
    let b3 = tail[3];
    assert(b0 == (sum & 0xff) as u8 && b1 == ((sum >> 8) & 0xff) as u8 && b2 == ((sum >> 16)
        & 0xff) as u8 && b3 == ((sum >> 24) & 0xff) as u8) by {
        assert(sum % 0x100 == sum & 0xff && sum / 0x100 % 0x100 == (sum >> 8) & 0xff && sum
            / 0x1_0000 % 0x100 == (sum >> 16) & 0xff && sum / 0x100_0000 == (sum >> 24) & 0xff)
            by (bit_vector);
    }
    let c0 = r ^ (b0 as u32);
    let r1 = crc_bits(c0, 8);
    let c1 = r1 ^ (b1 as u32);
    let r2 = crc_bits(c1, 8);
    let c2 = r2 ^ (b2 as u32);
    let r3 = crc_bits(c2, 8);
    let c3 = r3 ^ (b3 as u32);
    let r4 = crc_bits(c3, 8);
    lemma_eight_bits(c0);
    lemma_eight_bits(c1);
    lemma_eight_bits(c2);
    lemma_eight_bits(c3);
    assert(r1 == (r >> 8) ^ 0xad7d_5351) by (bit_vector)
        requires
            c0 == r ^ (b0 as u32),
            b0 == (!r & 0xff) as u8,
            r1 == crc_bit(crc_bit(crc_bit(crc_bit(crc_bit(crc_bit(crc_bit(crc_bit(c0)))))))),
    ;
    assert(r2 == (r >> 16) ^ 0x0e9e_77d2) by (bit_vector)
        requires
            r1 == (r >> 8) ^ 0xad7d_5351,
            c1 == r1 ^ (b1 as u32),
            b1 == ((!r >> 8) & 0xff) as u8,
            r2 == crc_bit(crc_bit(crc_bit(crc_bit(crc_bit(crc_bit(crc_bit(crc_bit(c1)))))))),
    ;
    assert(r3 == (r >> 24) ^ 0x9f9b_5c7a) by (bit_vector)
        requires
            r2 == (r >> 16) ^ 0x0e9e_77d2,
            c2 == r2 ^ (b2 as u32),
            b2 == ((!r >> 16) & 0xff) as u8,
            r3 == crc_bit(crc_bit(crc_bit(crc_bit(crc_bit(crc_bit(crc_bit(crc_bit(c2)))))))),
    ;
    assert(r4 == 0xb798_b438) by (bit_vector)
        requires
            r3 == (r >> 24) ^ 0x9f9b_5c7a,
            c3 == r3 ^ (b3 as u32),
            b3 == ((!r >> 24) & 0xff) as u8,
            r4 == crc_bit(crc_bit(crc_bit(crc_bit(crc_bit(crc_bit(crc_bit(crc_bit(c3)))))))),
    ;
    assert(tail.drop_last().last() == b2);
    assert(tail.drop_last().drop_last().last() == b1);
    assert(tail.drop_last().drop_last().drop_last().last() == b0);
    assert(tail.drop_last().drop_last().drop_last().drop_last().len() == 0);
    reveal_with_fuel(crc_register, 5);
    assert(crc_register(r, tail) == r4);
    assert(!0xb798_b438u32 == 0x4867_4BC7u32) by (bit_vector);
}

/// Dividing the sum of two registers is the sum of dividing each.
proof fn lemma_bits_add_up(x: u32, y: u32, n: nat)
    ensures
        crc_bits(x ^ y, n) == crc_bits(x, n) ^ crc_bits(y, n),
    decreases n,
{
    if n > 0 {
        lemma_bits_add_up(x, y, (n - 1) as nat);
        let a = crc_bits(x, (n - 1) as nat);
        let b = crc_bits(y, (n - 1) as nat);
        assert(crc_bit(a ^ b) == crc_bit(a) ^ crc_bit(b)) by (bit_vector);
    }
}

/// The registers of three messages of one length add up to the register of
/// their sum.
proof fn lemma_registers_add_up(a: Seq<u8>, b: Seq<u8>, c: Seq<u8>, sum: Seq<u8>)
    requires
        a.len() == b.len() == c.len() == sum.len(),
        forall|i: int| 0 <= i < sum.len() ==> #[trigger] sum[i] == a[i] ^ b[i] ^ c[i],
    ensures
        crc_register(0xFFFF_FFFF, sum) == crc_register(0xFFFF_FFFF, a) ^ crc_register(
            0xFFFF_FFFF,
            b,
        ) ^ crc_register(0xFFFF_FFFF, c),
    decreases sum.len(),
{
    if sum.len() == 0 {
        assert(0xFFFF_FFFFu32 == 0xFFFF_FFFFu32 ^ 0xFFFF_FFFFu32 ^ 0xFFFF_FFFFu32) by (bit_vector);
    } else {
        lemma_registers_add_up(a.drop_last(), b.drop_last(), c.drop_last(), sum.drop_last());
        let x = crc_register(0xFFFF_FFFF, a.drop_last());
        let y = crc_register(0xFFFF_FFFF, b.drop_last());
        let z = crc_register(0xFFFF_FFFF, c.drop_last());
        let p = a.last();
        let q = b.last();
        let r = c.last();
        assert(sum.last() == p ^ q ^ r);
        assert((x ^ y ^ z) ^ ((p ^ q ^ r) as u32) == (x ^ (p as u32)) ^ (y ^ (q as u32)) ^ (z ^ (
        r as u32))) by (bit_vector);
        lemma_bits_add_up((x ^ (p as u32)) ^ (y ^ (q as u32)), z ^ (r as u32), 8);
        lemma_bits_add_up(x ^ (p as u32), y ^ (q as u32), 8);
    }
}

/// A checksum is affine: the checksums of three messages of one length add
/// up, bit by bit, to the checksum of the messages added up bit by bit.
pub proof fn law_checksum_is_affine(a: Seq<u8>, b: Seq<u8>, c: Seq<u8>, sum: Seq<u8>)
    requires
        a.len() == b.len() == c.len() == sum.len(),
        forall|i: int| 0 <= i < sum.len() ==> #[trigger] sum[i] == a[i] ^ b[i] ^ c[i],
    ensures
        crc32c_of(sum) == crc32c_of(a) ^ crc32c_of(b) ^ crc32c_of(c),
{
    lemma_registers_add_up(a, b, c, sum);
    let x = crc_register(0xFFFF_FFFF, a);
    let y = crc_register(0xFFFF_FFFF, b);
    let z = crc_register(0xFFFF_FFFF, c);
    assert(!(x ^ y ^ z) == (!x) ^ (!y) ^ (!z)) by (bit_vector);
}

} // verus!
