//! The inode core, on disk and in the log.

use fs_xfs::dinode::{disk_dinode_in, field_layout, log_dinode_in};
use fs_xfs::log::ByteOrder;
use fs_xfs::log_write::{log_dinode_from_disk, log_dinode_to_disk};

/// An inode whose every byte is its own offset, of this version and with
/// these flags.
fn raw(version: u8, flags2: u64) -> Vec<u8> {
    let mut b: Vec<u8> = (0..=255u8).collect();
    b[4] = version;
    b[120..128].copy_from_slice(&flags2.to_be_bytes());
    b
}

/// Reverse the bytes of one field.
fn flip(b: &mut [u8], at: usize, width: usize) {
    b[at..at + width].reverse();
}

/// A version-3 core with 32-bit timestamps and the old extent counters.
#[test]
fn a_plain_version_three_core_swaps_field_by_field() {
    let disk = raw(3, 0);
    let log = log_dinode_in(&disk, ByteOrder::Little).unwrap();
    assert_eq!(log.len(), 176);
    let mut expect = disk[..176].to_vec();
    for (at, width) in [
        (0, 2), (2, 2), (6, 2), (8, 4), (12, 4), (16, 4), (20, 2), (22, 2), (32, 4), (36, 4),
        (40, 4), (44, 4), (48, 4), (52, 4), (56, 8), (64, 8), (72, 4), (76, 4), (80, 2), (84, 4),
        (88, 2), (90, 2), (92, 4), (96, 4), (104, 8), (112, 8), (120, 8), (128, 4), (144, 4),
        (148, 4), (152, 8),
    ] {
        flip(&mut expect, at, width);
    }
    expect[100..104].fill(0);
    assert_eq!(log, expect);
    // The UUID and the padding stay put.
    assert_eq!(&log[160..176], &disk[160..176]);
    assert_eq!(&log[24..32], &disk[24..32]);
    assert_eq!(&log[132..144], &disk[132..144]);
}

/// `bigtime` makes each timestamp one 64-bit count, and `nrext64` moves the
/// extent counters.
#[test]
fn the_features_that_move_fields_are_read_from_the_inode() {
    let plain = log_dinode_in(&raw(3, 0), ByteOrder::Little).unwrap();

    let bigtime = log_dinode_in(&raw(3, 0x08), ByteOrder::Little).unwrap();
    for at in [32usize, 40, 48, 144] {
        let mut want = raw(3, 0)[at..at + 8].to_vec();
        want.reverse();
        assert_eq!(&bigtime[at..at + 8], &want[..]);
        assert_ne!(&plain[at..at + 8], &want[..]);
    }
    assert_eq!(&bigtime[76..82], &plain[76..82]);

    let nrext64 = log_dinode_in(&raw(3, 0x10), ByteOrder::Little).unwrap();
    assert_eq!(&nrext64[24..32], &[31, 30, 29, 28, 27, 26, 25, 24]);
    assert_eq!(&nrext64[76..82], &[79, 78, 77, 76, 80, 81]);
    assert_eq!(&plain[76..82], &[79, 78, 77, 76, 81, 80]);
    assert_eq!(&nrext64[32..40], &plain[32..40]);
}

/// A version-2 core stops at 96 bytes and takes no notice of flags.
#[test]
fn an_old_core_is_shorter() {
    for version in [1u8, 2] {
        let disk = raw(version, 0x18);
        let log = log_dinode_in(&disk, ByteOrder::Little).unwrap();
        assert_eq!(log.len(), 96);
        assert_eq!(&log[32..40], &[35, 34, 33, 32, 39, 38, 37, 36]);
        assert_eq!(&log[76..82], &[79, 78, 77, 76, 81, 80]);
        assert_eq!(&log[24..32], &disk[24..32]);
        assert_eq!(disk_dinode_in(&log, ByteOrder::Little).unwrap(), &disk[..96]);
    }
}

/// On a big-endian machine the two forms agree but for the checksum.
#[test]
fn a_big_endian_log_is_a_copy() {
    let disk = raw(3, 0x18);
    let log = log_dinode_in(&disk, ByteOrder::Big).unwrap();
    let mut expect = disk[..176].to_vec();
    expect[100..104].fill(0);
    assert_eq!(log, expect);
    assert_eq!(disk_dinode_in(&log, ByteOrder::Big).unwrap(), expect);
}

/// Logging and turning back gives the core again with a blank checksum, in
/// either order and under every feature.
#[test]
fn a_logged_core_comes_back() {
    for order in [ByteOrder::Little, ByteOrder::Big] {
        for flags2 in [0u64, 0x08, 0x10, 0x18, u64::MAX] {
            let disk = raw(3, flags2);
            let log = log_dinode_in(&disk, order).unwrap();
            let mut expect = disk[..176].to_vec();
            expect[100..104].fill(0);
            assert_eq!(disk_dinode_in(&log, order).unwrap(), expect);
            assert_eq!(log_dinode_in(&expect, order).unwrap(), log);
        }
    }
}

/// The machine's own order is the one its integers are in.
#[test]
fn the_native_log_is_in_this_machines_order() {
    let disk = raw(3, 0);
    let log = log_dinode_from_disk(&disk).unwrap();
    assert_eq!(log[0..2], u16::from_be_bytes([0, 1]).to_ne_bytes());
    assert_eq!(log[56..64], u64::from_be_bytes([56, 57, 58, 59, 60, 61, 62, 63]).to_ne_bytes());
    let native = if u16::from_ne_bytes([1, 0]) == 1 { ByteOrder::Little } else { ByteOrder::Big };
    assert_eq!(ByteOrder::native(), native);
    assert_eq!(log, log_dinode_in(&disk, native).unwrap());
    let mut expect = disk[..176].to_vec();
    expect[100..104].fill(0);
    assert_eq!(log_dinode_to_disk(&log).unwrap(), expect);
}

/// What has no logged form, and why.
#[test]
fn cores_that_cannot_be_converted_are_refused_by_name() {
    assert_eq!(log_dinode_from_disk(&raw(3, 0)[..95]), Err("inode is shorter than a v2 core"));
    assert_eq!(log_dinode_from_disk(&raw(0, 0)), Err("unrecognised inode version"));
    assert_eq!(log_dinode_from_disk(&raw(4, 0)), Err("unrecognised inode version"));
    assert_eq!(
        log_dinode_from_disk(&raw(3, 0)[..175]),
        Err("inode is shorter than its version's core")
    );
    assert!(log_dinode_from_disk(&raw(2, 0)[..96]).is_ok());

    assert_eq!(
        log_dinode_to_disk(&raw(3, 0)[..95]),
        Err("logged inode core is shorter than a v2 core")
    );
    assert_eq!(log_dinode_to_disk(&raw(9, 0)), Err("unrecognised inode version"));
    assert_eq!(
        log_dinode_to_disk(&raw(3, 0)[..175]),
        Err("logged inode core is shorter than its version's core")
    );
}

/// No layout has two fields that overlap, or one past the core's end.
#[test]
fn no_layout_lists_a_byte_twice() {
    for version in [1u8, 2, 3] {
        for (bigtime, nrext64) in [(false, false), (false, true), (true, false), (true, true)] {
            let mut seen = [false; 176];
            for (at, width) in field_layout(version, bigtime, nrext64) {
                for i in at..at + width {
                    assert!(!seen[i], "byte {i} of version {version}");
                    seen[i] = true;
                }
            }
            if version < 3 {
                assert!(!seen[96..].iter().any(|&s| s));
            }
        }
    }
}
