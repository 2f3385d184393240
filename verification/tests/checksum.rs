//! CRC32C.

use fs_xfs::checksum::{crc32c_of_two, crc32c_with_zeroed_crc};

/// The check value of the algorithm, and the empty input.
#[test]
fn crc32c_has_its_check_value() {
    assert_eq!(crc32c_of_two(b"123456789", b""), 0xE306_9283);
    assert_eq!(crc32c_of_two(b"", b""), 0);
    assert_eq!(crc32c_of_two(&[0u8; 32], b""), 0x8A91_36AA);
    assert_eq!(crc32c_of_two(&[0xFFu8; 32], b""), 0x62A8_AB43);
}

/// Where the input is cut does not matter.
#[test]
fn two_stretches_are_one_input() {
    assert_eq!(crc32c_of_two(b"1234", b"56789"), 0xE306_9283);
    assert_eq!(crc32c_of_two(b"", b"123456789"), 0xE306_9283);
}

/// The checksum field counts as zero, so storing the checksum in it does
/// not invalidate it.
#[test]
fn a_checksum_ignores_its_own_field() {
    let mut buf: Vec<u8> = (0..64).collect();
    let mut zeroed = buf.clone();
    zeroed[20..24].fill(0);
    let crc = crc32c_with_zeroed_crc(&buf, 20);
    assert_eq!(crc, crc32c_of_two(&zeroed, b""));
    buf[20..24].copy_from_slice(&crc.to_le_bytes());
    assert_eq!(crc32c_with_zeroed_crc(&buf, 20), crc);
    buf[19] ^= 1;
    assert_ne!(crc32c_with_zeroed_crc(&buf, 20), crc);
}
