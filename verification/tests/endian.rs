//! On-disk integer decoding.

use fs_xfs::endian::{
    be16, be32, be64, le16, le32, le64, to_be32, to_be64, to_le16, to_le32, to_le64, uuid_at,
};

/// The decisive test: the same four bytes must decode differently through
/// the big-endian and little-endian readers.
#[test]
fn big_and_little_endian_readers_disagree() {
    let b = [0x12u8, 0x34, 0x56, 0x78];
    assert_eq!(be32(&b, 0), 0x1234_5678);
    assert_eq!(le32(&b, 0), 0x7856_3412);
    assert_ne!(be32(&b, 0), le32(&b, 0));
}

#[test]
fn reads_at_an_offset() {
    let b = [0xFFu8, 0xFF, 0x12, 0x34, 0x56, 0x78];
    assert_eq!(be16(&b, 2), 0x1234);
    assert_eq!(be32(&b, 2), 0x1234_5678);
}

#[test]
fn reads_a_full_width_u64() {
    let b = [0x01u8, 0x23, 0x45, 0x67, 0x89, 0xAB, 0xCD, 0xEF];
    assert_eq!(be64(&b, 0), 0x0123_4567_89AB_CDEF);
}

/// A palindrome decodes identically either way, which is why symmetric
/// fixtures cannot catch a byte-order mistake.
#[test]
fn palindromic_bytes_hide_byte_order_mistakes() {
    let b = [0x12u8, 0x34, 0x34, 0x12];
    assert_eq!(be32(&b, 0), le32(&b, 0));
}

#[test]
fn copies_a_uuid() {
    let mut b = [0u8; 20];
    for (i, slot) in b[4..20].iter_mut().enumerate() {
        *slot = i as u8;
    }
    let u = uuid_at(&b, 4);
    assert_eq!(u[0], 0);
    assert_eq!(u[15], 15);
}

#[test]
fn little_endian_readers_take_the_low_byte_first() {
    let b = [0u8, 0x01, 0x23, 0x45, 0x67, 0x89, 0xAB, 0xCD, 0xEF];
    assert_eq!(le16(&b, 1), 0x2301);
    assert_eq!(le64(&b, 1), 0xEFCD_AB89_6745_2301);
}

#[test]
fn encoders_are_the_machine_independent_ones() {
    assert_eq!(to_be32(0xFEED_BABE), 0xFEED_BABEu32.to_be_bytes());
    assert_eq!(to_be64(0x0123_4567_89AB_CDEF), 0x0123_4567_89AB_CDEFu64.to_be_bytes());
    assert_eq!(to_le16(0x123b), 0x123bu16.to_le_bytes());
    assert_eq!(to_le32(0x5452_414e), 0x5452_414eu32.to_le_bytes());
    assert_eq!(to_le64(u64::MAX - 7), (u64::MAX - 7).to_le_bytes());
}

#[test]
fn what_is_written_reads_back() {
    let mut b = vec![0xEEu8; 24];
    b[3..11].copy_from_slice(&to_be64(0x8000_0000_0000_0001));
    b[11..19].copy_from_slice(&to_le64(0x8000_0000_0000_0001));
    assert_eq!(be64(&b, 3), 0x8000_0000_0000_0001);
    assert_eq!(le64(&b, 11), 0x8000_0000_0000_0001);
    assert_ne!(le64(&b, 3), 0x8000_0000_0000_0001);
}
