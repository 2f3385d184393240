//! Building log records.

use fs_xfs::endian::{be32, be64, le32};
use fs_xfs::error::{Error, Unsupported};
use fs_xfs::format::log_items::{
    BBSIZE, OP_HEADER_SIZE, XFS_ILOG_CORE, XFS_ILOG_DDATA, XFS_TRANS_CHECKPOINT,
    XLOG_COMMIT_TRANS, XLOG_START_TRANS,
};
use fs_xfs::log::{lsn, record_checksum, ByteOrder, Head};
use fs_xfs::log_write::{
    append, append_at, append_at_in, encode_record, encode_record_in, inode_log_format,
    inode_log_format_with_fork, payload, trans_header, transaction_id, InodeBuffer, Op, Placement,
};
use fs_xfs::{Filesystem, Superblock};

/// The buffer is the inode's address truncated to a whole cluster, with the
/// remainder becoming the offset inside it.
#[test]
fn the_cluster_contains_the_inode_at_its_own_offset() {
    // 16 KiB clusters: what a v5 filesystem with 512-byte inodes has.
    const CLUSTER: u32 = 16384;

    for (at, blkno, boffset) in [
        (0x10000u64, 128u64, 0u32), // exactly on a cluster boundary
        (0x10a00, 128, 2560),       // the 6th inode of that cluster
        (0x13e00, 128, 15872),      // the last inode that still fits
        (0x14000, 160, 0),          // the next cluster along
    ] {
        let got = InodeBuffer::containing(at, CLUSTER);
        assert_eq!(
            got,
            InodeBuffer { blkno, len: CLUSTER / BBSIZE as u32, boffset },
            "inode at {at:#x}"
        );
        assert_eq!(
            got.blkno * BBSIZE as u64 + u64::from(got.boffset),
            at,
            "the buffer and the offset within it must add back up to the inode"
        );
    }
}

/// An identifier that ties a checkpoint's operations together, and which is
/// treated as absent if it is zero.
#[test]
fn a_transaction_id_is_never_zero() {
    for cycle in [0u32, 1, 0xffff_ffff] {
        for block in [0u32, 1, 0xffff_ffff] {
            let head = Head {
                block,
                cycle,
                prev_block: 0,
                free_blocks: 1024,
                iclog_size: 32768,
            };
            assert_ne!(transaction_id(&head), 0, "cycle {cycle}, block {block}");
        }
    }
}

/// Neighbours in one cycle have different ids.
#[test]
fn neighbouring_checkpoints_have_different_transaction_ids() {
    let head = |cycle, block| Head { block, cycle, prev_block: 0, free_blocks: 9, iclog_size: 4096 };
    assert_eq!(transaction_id(&head(1, 40)), 0x8001_0028);
    assert_eq!(transaction_id(&head(0x1234_5678, 1)), 0x8000_0000 | 0x5678_1235);
    for block in 0..64 {
        assert_ne!(transaction_id(&head(7, block)), transaction_id(&head(7, block + 1)));
    }
}

/// Magic, type, id and the number of item operations, low byte first.
#[test]
fn a_transaction_header_is_four_words() {
    assert_eq!(
        trans_header(0x8001_0028, XFS_TRANS_CHECKPOINT, 2),
        [0x4e, 0x41, 0x52, 0x54, 0x28, 0, 0, 0, 0x28, 0, 1, 0x80, 2, 0, 0, 0]
    );
}

/// An inode format names the inode and where its cluster is.
#[test]
fn an_inode_format_names_the_inode_and_its_cluster() {
    let buffer = InodeBuffer { blkno: 0x1122_3344_5566, len: 32, boffset: 0x0a00 };
    let mut expect = vec![0u8; 56];
    expect[0..2].copy_from_slice(&[0x3b, 0x12]);
    expect[2] = 2;
    expect[4] = 1;
    expect[16..24].copy_from_slice(&0x0102_0304_0506_0708u64.to_le_bytes());
    expect[40..48].copy_from_slice(&buffer.blkno.to_le_bytes());
    expect[48] = 32;
    expect[52..56].copy_from_slice(&[0, 0x0a, 0, 0]);
    assert_eq!(inode_log_format(0x0102_0304_0506_0708, XFS_ILOG_CORE, &buffer), expect);

    expect[2] = 3;
    expect[4] = 3;
    expect[10..12].copy_from_slice(&[30, 0]);
    assert_eq!(
        inode_log_format_with_fork(
            0x0102_0304_0506_0708,
            XFS_ILOG_CORE | XFS_ILOG_DDATA,
            &buffer,
            30
        ),
        expect
    );
}

/// Operations follow one another without padding, each behind its header.
#[test]
fn a_payload_is_its_operations_one_after_the_other() {
    let ops = [
        Op { flags: XLOG_START_TRANS, data: Vec::new() },
        Op { flags: 0, data: vec![9, 8, 7] },
        Op { flags: XLOG_COMMIT_TRANS, data: Vec::new() },
    ];
    let got = payload(0x8001_0028, &ops);
    assert_eq!(
        got,
        [
            0x80, 1, 0, 0x28, 0, 0, 0, 0, 0x69, 1, 0, 0, //
            0x80, 1, 0, 0x28, 0, 0, 0, 3, 0x69, 0, 0, 0, 9, 8, 7, //
            0x80, 1, 0, 0x28, 0, 0, 0, 0, 0x69, 2, 0, 0,
        ]
    );
    assert_eq!(got.len(), 3 * OP_HEADER_SIZE + 3);
    assert_eq!(payload(1, &[]), vec![]);
}

fn placement() -> Placement {
    Placement {
        block: 40,
        cycle: 3,
        prev_block: u32::MAX,
        tail_lsn: lsn(2, 7),
        uuid: [0xAB; 16],
        iclog_size: 32768,
    }
}

/// How many header blocks a record has, by the buffer size and the length
/// that its header states.
fn header_blocks(record: &[u8]) -> usize {
    let most = be32(record, 320).max(be32(record, 12)) as usize;
    most.div_ceil(64 * 512).max(1)
}

/// The payload as a reader recovers it: the words under the stamp come from
/// the header blocks.
fn unstamped(record: &[u8]) -> Vec<u8> {
    let n = header_blocks(record);
    let mut data = record[n * 512..].to_vec();
    for k in 0..data.len() / 512 {
        let kept = if k < 64 { 44 + k * 4 } else { k / 64 * 512 + 4 + k % 64 * 4 };
        data[k * 512..k * 512 + 4].copy_from_slice(&record[kept..kept + 4]);
    }
    data
}

/// A record's header says what it was given, its checksum verifies, and a
/// reader that undoes the stamp recovers the payload.
#[test]
fn a_record_reads_back() {
    let bytes: Vec<u8> = (0..1500u32).map(|i| (i * 7 % 255) as u8 + 1).collect();
    for order in [ByteOrder::Little, ByteOrder::Big] {
        let record = encode_record_in(&placement(), 11, &bytes, order);
        assert_eq!(record.len(), 512 + 3 * 512);
        assert_eq!(be32(&record, 0), 0xFEED_BABE);
        assert_eq!(be32(&record, 4), 3);
        assert_eq!(be32(&record, 8), 2);
        assert_eq!(be32(&record, 12), 1500);
        assert_eq!(be64(&record, 16), 3 << 32 | 40);
        assert_eq!(be64(&record, 24), 2 << 32 | 7);
        assert_eq!(be32(&record, 36), u32::MAX);
        assert_eq!(be32(&record, 40), 11);
        assert_eq!(be32(&record, 300), if order == ByteOrder::Little { 1 } else { 2 });
        assert_eq!(&record[304..320], &[0xAB; 16]);
        assert_eq!(be32(&record, 320), 32768);
        assert_eq!(&record[324..512], &[0; 188]);
        for k in 0..3 {
            assert_eq!(be32(&record, 512 + k * 512), 3, "block {k} carries the cycle");
        }
        assert_eq!(
            le32(&record, 32),
            record_checksum(&record[..512], &record[512..512 + 1500])
        );
        let back = unstamped(&record);
        assert_eq!(&back[..1500], &bytes[..]);
        assert!(back[1500..].iter().all(|&b| b == 0));
    }
}

/// The record this machine writes announces this machine's order.
#[test]
fn a_record_announces_this_machines_order() {
    let native = if u16::from_ne_bytes([1, 0]) == 1 { ByteOrder::Little } else { ByteOrder::Big };
    assert_eq!(
        encode_record(&placement(), 1, b"payload"),
        encode_record_in(&placement(), 1, b"payload", native)
    );
}

/// A header block has room for the words of 64 blocks; those of further
/// blocks spill into further header blocks, and every block is stamped.
#[test]
fn displaced_words_spill_into_further_header_blocks() {
    for (blocks, headers) in [(1, 1), (63, 1), (64, 1), (65, 2), (128, 2), (129, 3), (200, 4)] {
        let bytes: Vec<u8> = (0..blocks * 512usize).map(|i| (i * 31 % 251) as u8 + 1).collect();
        let record = encode_record(&placement(), 1, &bytes);
        assert_eq!(header_blocks(&record), headers);
        assert_eq!(record.len(), (headers + blocks) * 512);
        for k in 1..headers + blocks {
            assert_eq!(be32(&record, k * 512), 3, "block {k} of {blocks} leads with the cycle");
        }
        assert_eq!(
            le32(&record, 32),
            record_checksum(&record[..512], &record[headers * 512..])
        );
        assert_eq!(unstamped(&record), bytes, "{blocks} blocks");
    }
    // One byte into the 65th block is enough.
    let record = encode_record(&placement(), 1, &vec![0x77u8; 64 * 512 + 1]);
    assert_eq!(record.len(), (2 + 65) * 512);
    assert_eq!(&record[512..520], &[0, 0, 0, 3, 0x77, 0, 0, 0]);
    assert!(record[520..1024].iter().all(|&b| b == 0));
}

fn sb() -> Superblock {
    Superblock {
        blocksize: 4096,
        sectsize: 512,
        inodesize: 512,
        versionnum: 5 | 0x8000,
        agblocks: 1000,
        agblklog: 10,
        logstart: 2 << 10 | 5,
        cluster_bytes: 16384,
        uuid: [0xCD; 16],
        meta_uuid: [0xCD; 16],
    }
}

fn head() -> Head {
    Head { block: 40, cycle: 3, prev_block: 36, free_blocks: 100, iclog_size: 32768 }
}

/// A checkpoint goes where the head is, is its own tail, and reads back as
/// its operations.
#[test]
fn a_checkpoint_reads_back_as_its_operations() {
    let ops = vec![
        Op { flags: XLOG_START_TRANS, data: Vec::new() },
        Op { flags: 0, data: (0..200).collect() },
        Op { flags: 0, data: vec![0x55; 600] },
        Op { flags: XLOG_COMMIT_TRANS, data: Vec::new() },
    ];
    let c = append_at(&sb(), &head(), 0x8000_1234, &ops).unwrap();
    assert_eq!(c.lsn, 3 << 32 | 40);
    assert_eq!(c.at, (2 * 1000 + 5) * 4096 + 40 * 512);
    assert_eq!(c.bytes.len(), 512 + 1024);
    assert_eq!(be32(&c.bytes, 12), 1024, "the length is of whole blocks");
    assert_eq!(be64(&c.bytes, 16), c.lsn);
    assert_eq!(be64(&c.bytes, 24), c.lsn);
    assert_eq!(be32(&c.bytes, 36), 36);
    assert_eq!(be32(&c.bytes, 40), 4);
    assert_eq!(&c.bytes[304..320], &[0xCD; 16]);
    assert_eq!(le32(&c.bytes, 32), record_checksum(&c.bytes[..512], &c.bytes[512..]));

    let data = unstamped(&c.bytes);
    let mut at = 0;
    for op in &ops {
        assert_eq!(be32(&data, at), 0x8000_1234);
        assert_eq!(be32(&data, at + 4) as usize, op.data.len());
        assert_eq!(data[at + 8], 0x69);
        assert_eq!(data[at + 9], op.flags);
        assert_eq!(&data[at + 12..at + 12 + op.data.len()], &op.data[..]);
        at += 12 + op.data.len();
    }
    assert!(data[at..].iter().all(|&b| b == 0));
}

/// A checkpoint that one record cannot hold, or that would cross the end of
/// the log, is refused; one that just fits is not.
#[test]
fn a_checkpoint_that_does_not_fit_is_refused() {
    let ops = |n: usize| vec![Op { flags: 0, data: vec![1; n] }];
    let small = Head { iclog_size: 1024, ..head() };
    assert!(append_at_in(&sb(), &small, 1, &ops(500), ByteOrder::Little).is_ok());
    let err = append_at(&sb(), &small, 1, &ops(501)).err().unwrap();
    assert_eq!(
        err,
        Error::UnsupportedFeature(Unsupported::RecordTooLarge { len: 513, max: 512 })
    );
    assert_eq!(
        err.to_string(),
        "the checkpoint is 513 bytes and the log's records hold at most 512; splitting one across \
         records is not implemented"
    );

    let near_end = Head { free_blocks: 3, ..head() };
    assert!(append_at(&sb(), &near_end, 1, &ops(1012)).is_ok());
    let err = append_at(&sb(), &near_end, 1, &ops(1013)).err().unwrap();
    assert_eq!(
        err,
        Error::UnsupportedFeature(Unsupported::RecordPastWrap { blocks: 4, free: 3 })
    );
    assert_eq!(
        err.to_string(),
        "the checkpoint needs 4 basic blocks and only 3 remain before the log wraps; writing \
         across the wrap is not implemented"
    );
}

/// Records for larger buffers than one header block answers for have as
/// many header blocks as a whole buffer needs, however short the payload.
#[test]
fn large_buffers_take_further_header_blocks() {
    for (iclog_size, len, headers) in [
        (0u32, 8usize, 1usize),
        (16384, 8, 1),
        (32768, 8, 1),
        (32769, 8, 2),
        (65536, 8, 2),
        (262144, 8, 8),
        (262144, 40000, 8),
        (262144, 300000, 10),
        (32768, 40000, 2),
    ] {
        let bytes: Vec<u8> = (0..len).map(|i| (i * 31 % 251) as u8 + 1).collect();
        let to = Placement { iclog_size, ..placement() };
        let record = encode_record(&to, 1, &bytes);
        assert_eq!(record.len(), (headers + len.div_ceil(512)) * 512, "{iclog_size} {len}");
        for k in 1..record.len() / 512 {
            assert_eq!(be32(&record, k * 512), 3);
        }
        assert_eq!(
            le32(&record, 32),
            record_checksum(&record[..512], &record[headers * 512..][..len])
        );
        assert_eq!(&unstamped(&record)[..len], &bytes[..]);
    }
}

/// The header blocks of a log with large buffers count against its room.
#[test]
fn a_short_checkpoint_for_large_buffers_needs_room_for_its_headers() {
    let ops = vec![Op { flags: 0, data: vec![0x42; 8] }];
    let roomy = Head { iclog_size: 262144, free_blocks: 9, ..head() };
    let c = append_at(&sb(), &roomy, 9, &ops).unwrap();
    assert_eq!(c.bytes.len(), 9 * 512);
    assert_eq!(&unstamped(&c.bytes)[..20], &payload(9, &ops)[..]);
    let tight = Head { free_blocks: 8, ..roomy };
    assert_eq!(
        append_at(&sb(), &tight, 9, &ops).err().unwrap(),
        Error::UnsupportedFeature(Unsupported::RecordPastWrap { blocks: 9, free: 8 })
    );
}

/// A checkpoint longer than one header block answers for takes a second
/// one, and needs room for it.
#[test]
fn a_long_checkpoint_has_further_header_blocks() {
    let ops = vec![Op { flags: 0, data: vec![0x42; 40000] }];
    let roomy = Head { iclog_size: 65536, free_blocks: 81, ..head() };
    let c = append_at(&sb(), &roomy, 9, &ops).unwrap();
    assert_eq!(c.bytes.len(), (2 + 79) * 512);
    assert_eq!(be32(&c.bytes, 12), 79 * 512);
    let data = unstamped(&c.bytes);
    assert_eq!(&data[..40012], &payload(9, &ops)[..]);
    let tight = Head { free_blocks: 80, ..roomy };
    assert_eq!(
        append_at(&sb(), &tight, 9, &ops).err().unwrap(),
        Error::UnsupportedFeature(Unsupported::RecordPastWrap { blocks: 81, free: 80 })
    );
}

/// The builder is given the id that every operation then carries.
#[test]
fn the_builder_is_given_the_transaction_id() {
    let mut given: u32 = 0;
    let c = append(&sb(), &head(), |tid| {
        given = tid;
        vec![Op { flags: 0, data: tid.to_be_bytes().to_vec() }]
    })
    .unwrap();
    assert_eq!(given, transaction_id(&head()));
    let data = unstamped(&c.bytes);
    assert_eq!(be32(&data, 0), given);
    assert_eq!(be32(&data, 12), given);
}

fn mount(writable: bool) -> Filesystem {
    Filesystem { sb: sb(), writable, checkpoint_written: false }
}

/// A version-3 core as it is on disk.
fn disk_core() -> Vec<u8> {
    let mut core = vec![0u8; 512];
    core[0..2].copy_from_slice(b"IN");
    core[4] = 3;
    core[152..160].copy_from_slice(&131u64.to_be_bytes());
    core
}

/// Where an inode is, and where the log ends, when nothing goes wrong.
fn at_home(_: u64) -> Result<u64, Error> {
    Ok(0x10a00)
}

fn at_head() -> Result<Head, Error> {
    Ok(head())
}

/// Logging a core gives a checkpoint of the five operations of an
/// inode-core change.
#[test]
fn an_inode_core_change_is_five_operations() {
    let mut fs = mount(true);
    let c = fs.log_inode_core(131, &disk_core(), at_home, at_head).ok().unwrap();
    assert!(fs.checkpoint_written);
    assert_eq!(c.lsn, lsn(3, 40));
    assert_eq!(be32(&c.bytes, 40), 5);

    let tid = transaction_id(&head());
    let buffer = InodeBuffer { blkno: 128, len: 32, boffset: 2560 };
    let mut logged = disk_core()[..176].to_vec();
    logged[0..2].copy_from_slice(&0x494eu16.to_ne_bytes());
    logged[152..160].copy_from_slice(&131u64.to_ne_bytes());
    let expect = [
        Op { flags: XLOG_START_TRANS, data: Vec::new() },
        Op { flags: 0, data: trans_header(tid, XFS_TRANS_CHECKPOINT, 2) },
        Op { flags: 0, data: inode_log_format(131, XFS_ILOG_CORE, &buffer) },
        Op { flags: 0, data: logged },
        Op { flags: XLOG_COMMIT_TRANS, data: Vec::new() },
    ];
    let data = unstamped(&c.bytes);
    let written = payload(tid, &expect);
    assert_eq!(&data[..written.len()], &written[..]);
    assert_eq!(c.bytes, append_at(&sb(), &head(), tid, &expect).unwrap().bytes);
}

/// A refusal comes back as itself and does not spend the mount's one
/// checkpoint; the write that is performed does.
#[test]
fn a_refused_core_leaves_the_checkpoint_for_a_real_one() {
    let err = mount(false).log_inode_core(131, &disk_core(), at_home, at_head).err().unwrap();
    assert_eq!(err, Error::ReadOnly);
    assert_eq!(err.to_string(), "the filesystem is mounted read-only");

    let mut fs = mount(true);
    let err = fs.log_inode_core(131, &[0u8; 512], at_home, at_head).err().unwrap();
    assert_eq!(
        err,
        Error::UnsupportedFeature(Unsupported::CoreNotLoggable {
            ino: 131,
            why: "unrecognised inode version"
        })
    );
    assert_eq!(err.to_string(), "inode 131 cannot be logged: unrecognised inode version");
    let nowhere = |_: u64| Err(Error::Io(String::from("no such inode")));
    let err = fs.log_inode_core(131, &disk_core(), nowhere, at_head).err().unwrap();
    assert_eq!(err.to_string(), "no such inode");
    let no_log = || Err(Error::Io(String::from("no log")));
    let err = fs.log_inode_core(131, &disk_core(), at_home, no_log).err().unwrap();
    assert_eq!(err.to_string(), "no log");
    // A log without room refuses the record, so nothing is written either.
    let full = || Ok(Head { free_blocks: 1, ..head() });
    let err = fs.log_inode_core(131, &disk_core(), at_home, full).err().unwrap();
    assert_eq!(
        err,
        Error::UnsupportedFeature(Unsupported::RecordPastWrap { blocks: 2, free: 1 })
    );
    assert!(!fs.checkpoint_written);

    assert!(fs.log_inode_core(131, &disk_core(), at_home, at_head).is_ok());
    let err = fs.log_inode_core(131, &disk_core(), at_home, at_head).err().unwrap();
    assert_eq!(err, Error::UnsupportedFeature(Unsupported::SecondCheckpoint));
    assert!(err.to_string().contains("already written a checkpoint"));
    // A refusal of its own still comes first.
    let err = fs.log_inode_core(131, &[0u8; 512], at_home, at_head).err().unwrap();
    assert!(!err.to_string().contains("already written a checkpoint"));
}

/// Nothing is located, and the log is not searched, for a core that is
/// refused before.
#[test]
fn a_refused_core_asks_for_nothing_more() {
    let nowhere = |_: u64| -> Result<u64, Error> { panic!("the inode was located") };
    let no_head = || -> Result<Head, Error> { panic!("the log was searched") };
    assert!(mount(false).log_inode_core(131, &disk_core(), nowhere, no_head).is_err());
    assert!(mount(true).log_inode_core(131, &[0u8; 512], nowhere, no_head).is_err());
    let mut fs = mount(true);
    fs.checkpoint_written = true;
    assert!(fs.log_inode_core(131, &disk_core(), at_home, no_head).is_err());
}

/// The same with what was found, in either byte order.
#[test]
fn a_core_is_logged_in_the_order_asked_for() {
    for order in [ByteOrder::Little, ByteOrder::Big] {
        let mut fs = mount(true);
        let c = fs
            .log_inode_core_in(131, &disk_core(), Ok(0x10a00), Ok(head()), order)
            .ok()
            .unwrap();
        let data = unstamped(&c.bytes);
        // START, the header and the format stand before the core.
        let core = &data[12 + 28 + 68 + 12..][..176];
        let magic = if order == ByteOrder::Little { *b"NI" } else { *b"IN" };
        assert_eq!(core[..2], magic);
    }
}

/// Sequence numbers order by cycle first, then by block.
#[test]
fn sequence_numbers_order_records() {
    assert_eq!(lsn(1, 40), (1 << 32) | 40);
    assert!(lsn(1, u32::MAX) < lsn(2, 0));
    assert!(lsn(2, 3) < lsn(2, 4));
}
