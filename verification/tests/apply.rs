//! Applying a transaction to an image.

use fs_xfs::apply::{apply_transaction, apply_transaction_in, Action, Replay};
use fs_xfs::checksum::crc32c_with_zeroed_crc;
use fs_xfs::crc_kind::{crc_kinds, kind_of, Magic, Span};
use fs_xfs::endian::{be64, le32};
use fs_xfs::error::{BlockFault, Error, LogFault, Unsupported};
use fs_xfs::format::blocks::{
    AGF_CRC, AGF_LSN, AGI_CRC, AGI_LSN, DA_BLK_CRC, DA_BLK_LSN, DA_BLK_MAGIC, XFS_AGF_MAGIC,
    XFS_AGI_MAGIC, XFS_DIR3_LEAFN_MAGIC,
};
use fs_xfs::format::log_items::{
    BBSIZE, BLF_BLKNO, BLF_CANCEL, BLF_CHUNK, BLF_FLAGS, BLF_HEADER_SIZE, BLF_LEN, BLF_MAP_SIZE,
    BLF_SIZE, BLF_TYPE,
    DI_CRC, DI_INO, DI_LSN, DI_MAGIC, DI_VERSION, DI_VERSION_3, ILF_BLKNO, ILF_LEN, ILF_SIZE,
    ILF_TYPE, XFS_DINODE_MAGIC, XFS_ILOG_CORE, XFS_ILOG_DDATA, XFS_LI_BUF, XFS_LI_INODE,
};
use fs_xfs::log::ByteOrder;
use fs_xfs::log_item::bitmap_runs;
use fs_xfs::log_write::{inode_log_format, log_dinode_from_disk, CoreChange, InodeBuffer, Op};
use fs_xfs::superblock::Superblock;

/// A transaction's log sequence number: cycle 1, log block 40.
const LSN: u64 = (1 << 32) | 40;

/// Offsets within an inode that only these fixtures write.
const DI_MODE: usize = 2;
const DI_NLINK: usize = 16;
const DI_NEXT_UNLINKED: usize = 96;

/// A v5 geometry: 4 KiB blocks, 512-byte sectors and inodes, groups of 1000
/// blocks.
fn sb_v5() -> Superblock {
    let mut uuid = [0u8; 16];
    for (i, slot) in uuid.iter_mut().enumerate() {
        *slot = i as u8;
    }
    Superblock {
        blocksize: 4096,
        sectsize: 512,
        inodesize: 512,
        versionnum: 5 | 0x8000,
        agblocks: 1000,
        agblklog: 10,
        logstart: 100,
        cluster_bytes: 16384,
        uuid,
        meta_uuid: uuid,
    }
}

/// An AGF-shaped block with a checksum that is really its own.
fn agf_block(sb: &Superblock) -> Vec<u8> {
    let mut b = vec![0u8; 4096];
    b[0..4].copy_from_slice(&XFS_AGF_MAGIC.to_be_bytes());
    let crc = crc32c_with_zeroed_crc(&b[..512], AGF_CRC);
    b[AGF_CRC..AGF_CRC + 4].copy_from_slice(&crc.to_le_bytes());
    assert!(sb.is_v5());
    b
}

/// One buffer item: format operation plus one data operation covering the
/// chunk at `chunk`.
fn buf_item(blkno_bb: u64, chunk: usize, data: Vec<u8>) -> Vec<Op> {
    let mut fmt = vec![0u8; BLF_HEADER_SIZE + 4];
    fmt[BLF_TYPE..BLF_TYPE + 2].copy_from_slice(&XFS_LI_BUF.to_le_bytes());
    fmt[BLF_SIZE..BLF_SIZE + 2].copy_from_slice(&2u16.to_le_bytes());
    fmt[BLF_LEN..BLF_LEN + 2].copy_from_slice(&8u16.to_le_bytes());
    fmt[BLF_BLKNO..BLF_BLKNO + 8].copy_from_slice(&blkno_bb.to_le_bytes());
    fmt[BLF_MAP_SIZE..BLF_MAP_SIZE + 4].copy_from_slice(&1u32.to_le_bytes());
    fmt[BLF_HEADER_SIZE + chunk / 32] |= 1 << (chunk % 32);
    vec![Op { flags: 0, data: fmt }, Op { flags: 0, data }]
}

#[test]
fn a_buffer_item_lands_at_the_address_it_names_and_keeps_the_checksum_valid() {
    let sb = sb_v5();
    let mut after = agf_block(&sb);
    let payload = vec![0xC3u8; BLF_CHUNK];
    // Chunk 3 (bytes 384..512) rather than a low one: the AGF's own
    // checksum sits at 216, inside chunk 1, and the restamp rewrites those
    // four bytes.
    let ops = buf_item(0, 3, payload.clone());

    let runs = apply_transaction(&mut after, &sb, &ops, LSN).expect("apply one buffer item");
    assert_eq!(runs, 1);

    let run = 3 * BLF_CHUNK;
    assert!(
        after[run..run + BLF_CHUNK].iter().all(|&x| x == 0xC3),
        "chunk 3 of the block should hold the logged bytes"
    );
    assert_eq!(after[BLF_CHUNK / 2], 0, "untouched chunks must stay untouched");
    assert_eq!(
        be64(&after, AGF_LSN),
        LSN,
        "the block's sequence number has to become this transaction's"
    );
    assert_eq!(
        le32(&after, AGF_CRC),
        crc32c_with_zeroed_crc(&after[..512], AGF_CRC),
        "the restamped checksum has to verify against the block's own bytes"
    );
}

/// The restamp is only safe if the offset and span are the writer's, so an
/// unrecognised block is refused.
#[test]
fn a_block_of_an_unknown_checksum_kind_is_refused() {
    let sb = sb_v5();
    let mut block = vec![0u8; 4096];
    block[0..4].copy_from_slice(&0x58534441u32.to_be_bytes()); // "XSDA": not a kind here
    let mut dev = block.clone();
    let ops = buf_item(0, 0, vec![0x11u8; BLF_CHUNK]);
    let err = apply_transaction(&mut dev, &sb, &ops, LSN)
        .expect_err("an unknown block kind must not be applied");
    assert!(
        err.to_string().contains("checksum"),
        "the refusal should say why: {}",
        err.to_string()
    );
    assert_eq!(dev, block, "a refusal must not leave a half-written block");
}

#[test]
fn an_inode_item_is_refused_by_name_rather_than_skipped() {
    let sb = sb_v5();
    let mut dev = agf_block(&sb);
    let mut data = vec![0u8; 4];
    data[0..2].copy_from_slice(&XFS_LI_INODE.to_le_bytes());
    let err = apply_transaction(&mut dev, &sb, &[Op { flags: 0, data }], LSN)
        .expect_err("an inode item without a core is not applicable");
    assert!(
        matches!(err, Error::CorruptLog(_)),
        "a one-operation inode item should be reported as malformed: {}",
        err.to_string()
    );
}

/// An allocated v3 inode of `ino`, with a checksum that is its own.
fn disk_inode(sb: &Superblock, ino: u64) -> Vec<u8> {
    let mut b = vec![0u8; usize::from(sb.inodesize)];
    b[DI_MAGIC..DI_MAGIC + 2].copy_from_slice(&XFS_DINODE_MAGIC.to_be_bytes());
    b[DI_VERSION] = DI_VERSION_3;
    b[DI_MODE..DI_MODE + 2].copy_from_slice(&0o100644u16.to_be_bytes());
    b[DI_NLINK..DI_NLINK + 4].copy_from_slice(&1u32.to_be_bytes());
    b[DI_INO..DI_INO + 8].copy_from_slice(&ino.to_be_bytes());
    b[DI_NEXT_UNLINKED..DI_NEXT_UNLINKED + 4].copy_from_slice(&u32::MAX.to_be_bytes());
    let crc = crc32c_with_zeroed_crc(&b, DI_CRC);
    b[DI_CRC..DI_CRC + 4].copy_from_slice(&crc.to_le_bytes());
    b
}

/// One inode item: the format operation naming `buffer`, then the core.
fn inode_item(ino: u64, fields: u32, buffer: &InodeBuffer, core: &[u8]) -> Vec<Op> {
    let mut fmt = inode_log_format(ino, fields, buffer);
    fmt[ILF_TYPE..ILF_TYPE + 2].copy_from_slice(&XFS_LI_INODE.to_le_bytes());
    vec![Op { flags: 0, data: fmt }, Op { flags: 0, data: core.to_vec() }]
}

/// The round trip the replayer depends on: log an inode, apply it back, and
/// the inode on disk is the one that went in, with the two fields a log
/// cannot carry replaced by this transaction's.
#[test]
fn a_logged_inode_core_round_trips_into_the_cluster_slot_it_was_addressed_to() {
    let sb = sb_v5();
    let cluster = sb.inode_cluster_bytes() as usize;
    let boff = usize::from(sb.inodesize); // the cluster's second inode
    let before = disk_inode(&sb, 64);

    let mut image = vec![0u8; cluster];
    image[boff..boff + before.len()].copy_from_slice(&before);
    let mut after = image.clone();

    let buffer = InodeBuffer::containing(boff as u64, sb.inode_cluster_bytes());
    assert_eq!(
        (buffer.blkno, buffer.len, buffer.boffset),
        (0, cluster as u32 / BBSIZE as u32, boff as u32),
        "the cluster is addressed absolutely, so its first inode sits at offset 0"
    );
    let core = log_dinode_from_disk(&before).expect("log the inode");
    let ops = inode_item(64, XFS_ILOG_CORE, &buffer, &core);

    let runs = apply_transaction(&mut after, &sb, &ops, LSN).expect("apply the inode item");
    assert_eq!(runs, 1);

    let got = &after[boff..boff + usize::from(sb.inodesize)];

    // Everything the log does carry has to come back identical.
    let strip = |b: &[u8]| {
        let mut v = b.to_vec();
        v[DI_CRC..DI_CRC + 4].fill(0);
        v[DI_LSN..DI_LSN + 8].fill(0);
        v
    };
    assert_eq!(
        strip(got),
        strip(&before),
        "the applied inode differs from the logged one only in the fields a log cannot carry"
    );
    assert_eq!(
        be64(got, DI_LSN),
        LSN,
        "the inode's sequence number is the transaction's, never the logged core's"
    );
    assert_eq!(
        le32(got, DI_CRC),
        crc32c_with_zeroed_crc(got, DI_CRC),
        "an inode's checksum covers the whole inode, so it is recomputed, not copied"
    );
    // The rest of the cluster is somebody else's inode.
    assert_eq!(
        &after[0..boff],
        &image[0..boff],
        "applying one inode must not touch the neighbours packed into its cluster"
    );
    assert_eq!(
        &after[boff + usize::from(sb.inodesize)..],
        &image[boff + usize::from(sb.inodesize)..],
        "applying one inode must not touch the neighbours packed into its cluster"
    );
}

/// The cluster and offset address an inode; nothing else has checked that
/// they address the one the item names.
#[test]
fn an_inode_item_naming_a_different_inode_than_occupies_the_slot_is_refused() {
    let sb = sb_v5();
    let cluster = sb.inode_cluster_bytes() as usize;
    let boff = usize::from(sb.inodesize);
    let before = disk_inode(&sb, 64);
    let mut image = vec![0u8; cluster];
    image[boff..boff + before.len()].copy_from_slice(&before);
    let mut dev = image.clone();

    let buffer = InodeBuffer::containing(boff as u64, sb.inode_cluster_bytes());
    let core = log_dinode_from_disk(&before).expect("log the inode");
    let ops = inode_item(99, XFS_ILOG_CORE, &buffer, &core);

    let err = apply_transaction(&mut dev, &sb, &ops, LSN)
        .expect_err("an item cannot claim a slot that holds another inode");
    let why = err.to_string();
    assert!(
        why.contains("99") && why.contains("64"),
        "the refusal should name both inode numbers: {why}"
    );
    assert_eq!(dev, image, "a refusal must not leave the cluster edited");
}

/// A strictly newer inode is left alone, which is what makes replaying an
/// older checkpoint harmless.
#[test]
fn an_inode_already_stamped_by_a_newer_transaction_is_left_alone() {
    let sb = sb_v5();
    let cluster = sb.inode_cluster_bytes() as usize;
    let boff = usize::from(sb.inodesize);
    let mut before = disk_inode(&sb, 64);
    before[DI_LSN..DI_LSN + 8].copy_from_slice(&(LSN + 1).to_be_bytes());
    let crc = crc32c_with_zeroed_crc(&before, DI_CRC);
    before[DI_CRC..DI_CRC + 4].copy_from_slice(&crc.to_le_bytes());

    let mut image = vec![0u8; cluster];
    image[boff..boff + before.len()].copy_from_slice(&before);
    let mut dev = image.clone();

    let buffer = InodeBuffer::containing(boff as u64, sb.inode_cluster_bytes());
    let core = log_dinode_from_disk(&before).expect("log the inode");
    let ops = inode_item(64, XFS_ILOG_CORE, &buffer, &core);

    let runs = apply_transaction(&mut dev, &sb, &ops, LSN).expect("skipping is not failing");
    assert_eq!(runs, 0, "the newer inode on disk wins, so nothing is written");
    assert_eq!(dev, image);
}

/// A core can be logged with fork bytes after it. Those belong elsewhere,
/// so the whole item is refused rather than half-applied.
#[test]
fn an_inode_item_logging_a_fork_with_its_core_is_refused_by_name() {
    let sb = sb_v5();
    let before = disk_inode(&sb, 64);
    let mut image = vec![0u8; sb.inode_cluster_bytes() as usize];
    image[0..before.len()].copy_from_slice(&before);
    let mut dev = image.clone();

    let buffer = InodeBuffer::containing(0, sb.inode_cluster_bytes());
    let core = log_dinode_from_disk(&before).expect("log the inode");
    let ops = inode_item(64, XFS_ILOG_CORE | XFS_ILOG_DDATA, &buffer, &core);

    let err = apply_transaction(&mut dev, &sb, &ops, LSN)
        .expect_err("fork bytes are not applied with the core");
    assert!(
        matches!(err, Error::UnsupportedFeature(_)) && err.to_string().contains("fork"),
        "the refusal should name the missing case: {}",
        err.to_string()
    );
    assert_eq!(
        err.to_string(),
        "an inode item logging a data or attribute fork (0x00000002) is not applied; only the \
         core is, and the fork's bytes would have to land at di_forkoff"
    );
}

/// A directory index block keeps its magic a `u16` eight bytes in, behind
/// the two sibling pointers.
#[test]
fn a_directory_index_block_is_recognised_by_the_magic_eight_bytes_in() {
    let sb = sb_v5();
    let mut block = vec![0u8; 4096];
    block[DA_BLK_MAGIC..DA_BLK_MAGIC + 2].copy_from_slice(&XFS_DIR3_LEAFN_MAGIC.to_be_bytes());
    let crc = crc32c_with_zeroed_crc(&block, DA_BLK_CRC);
    block[DA_BLK_CRC..DA_BLK_CRC + 4].copy_from_slice(&crc.to_le_bytes());
    let mut after = block.clone();

    let ops = buf_item(0, 5, vec![0x77u8; BLF_CHUNK]);
    let runs = apply_transaction(&mut after, &sb, &ops, LSN).expect("apply to a leaf block");
    assert_eq!(runs, 1);

    assert!(after[5 * BLF_CHUNK..6 * BLF_CHUNK].iter().all(|&x| x == 0x77));
    assert_eq!(be64(&after, DA_BLK_LSN), LSN);
    assert_eq!(
        le32(&after, DA_BLK_CRC),
        crc32c_with_zeroed_crc(&after, DA_BLK_CRC),
        "the leaf's checksum covers the whole block, as measured"
    );
}

/// The bitmap and the data operations are two accounts of the same change;
/// the parser is where a disagreement between them surfaces.
#[test]
fn a_bitmap_and_data_disagreement_is_caught() {
    let sb = sb_v5();
    let mut dev = agf_block(&sb);
    let mut ops = buf_item(0, 0, vec![0x22u8; BLF_CHUNK]);
    ops[1].data.push(0); // one byte too many for the single bit set
    let err =
        apply_transaction(&mut dev, &sb, &ops, LSN).expect_err("a short item must not apply");
    assert!(
        err.to_string().contains("covers"),
        "expected the count mismatch: {}",
        err.to_string()
    );
    assert_eq!(err, Error::CorruptLog(LogFault::BufferByteCount { declared: 128, actual: 129 }));
}

/// A transaction of several items: the bracketing operations are passed
/// over, each block gets its own runs, and the count is of all of them.
#[test]
fn every_item_of_a_transaction_is_applied() {
    let sb = sb_v5();
    let mut agi = vec![0u8; 4096];
    agi[0..4].copy_from_slice(&XFS_AGI_MAGIC.to_be_bytes());
    let crc = crc32c_with_zeroed_crc(&agi[..512], AGI_CRC);
    agi[AGI_CRC..AGI_CRC + 4].copy_from_slice(&crc.to_le_bytes());
    let mut image = agf_block(&sb);
    image.extend_from_slice(&agi);
    image.resize(16384, 0xEE);
    let before = disk_inode(&sb, 7);
    let mut cluster = vec![0u8; 16384];
    cluster[1024..1536].copy_from_slice(&before);
    image.extend_from_slice(&cluster);
    let start = image.clone();

    let mut ops = vec![Op { flags: 1, data: Vec::new() }];
    // Two runs in the first block: chunks 10..12 and chunk 31.
    let mut first = buf_item(0, 0, Vec::new());
    first[0].data[BLF_SIZE..BLF_SIZE + 2].copy_from_slice(&3u16.to_le_bytes());
    first[0].data[BLF_HEADER_SIZE..BLF_HEADER_SIZE + 4]
        .copy_from_slice(&(0b11u32 << 10 | 1 << 31).to_le_bytes());
    first[1].data = (0..=255u8).collect();
    first.push(Op { flags: 0, data: vec![0x5A; 128] });
    ops.extend(first);
    ops.extend(buf_item(8, 4, vec![0x99; 128]));
    ops.push(Op { flags: 0, data: vec![7] });
    let buffer = InodeBuffer::containing(16384 + 1024, sb.inode_cluster_bytes());
    let core = log_dinode_from_disk(&before).expect("log the inode");
    ops.extend(inode_item(7, XFS_ILOG_CORE, &buffer, &core));
    ops.push(Op { flags: 2, data: Vec::new() });

    assert_eq!(apply_transaction(&mut image, &sb, &ops, LSN), Ok(4));
    let landed: Vec<u8> = (0..=255u8).collect();
    assert_eq!(&image[1280..1536], &landed[..]);
    assert!(image[3968..4096].iter().all(|&x| x == 0x5A));
    assert!(image[4096 + 512..4096 + 640].iter().all(|&x| x == 0x99));
    assert_eq!(be64(&image, AGF_LSN), LSN);
    assert_eq!(be64(&image[4096..], AGI_LSN), LSN);
    assert_eq!(le32(&image[4096..], AGI_CRC), crc32c_with_zeroed_crc(&image[4096..4608], AGI_CRC));
    assert_eq!(be64(&image[16384 + 1024..], DI_LSN), LSN);
    assert_eq!(&image[8192..16384], &start[8192..16384], "nothing names these bytes");
}

/// The items before a refused one stay applied; the refused one and those
/// behind it change nothing.
#[test]
fn a_refused_item_changes_nothing() {
    let sb = sb_v5();
    let mut image = agf_block(&sb);
    image.resize(8192, 0);
    let mut ops = buf_item(0, 3, vec![1; 128]);
    ops.extend(buf_item(8, 3, vec![2; 128]));
    ops.extend(buf_item(0, 4, vec![3; 128]));
    let err = apply_transaction(&mut image, &sb, &ops, LSN).unwrap_err();
    assert_eq!(
        err,
        Error::BadSuperblock(BlockFault::UnknownChecksumKind { blkno: 8, magic: 0 })
    );
    assert_eq!(
        err.to_string(),
        "block at device address 8 (magic 0x00000000) is not a kind whose checksum this step \
         knows; refusing rather than leave it with a stale CRC"
    );
    assert!(image[384..512].iter().all(|&x| x == 1));
    assert!(image[512..640].iter().all(|&x| x == 0));
    assert!(image[4096..].iter().all(|&x| x == 0));
}

/// A block whose checksum does not verify is not of any known kind.
#[test]
fn a_block_with_a_stale_checksum_is_refused() {
    let sb = sb_v5();
    let mut image = agf_block(&sb);
    image[100] ^= 1;
    let err = apply_transaction(&mut image, &sb, &buf_item(0, 3, vec![1; 128]), LSN).unwrap_err();
    assert_eq!(
        err,
        Error::BadSuperblock(BlockFault::UnknownChecksumKind { blkno: 0, magic: XFS_AGF_MAGIC })
    );
}

/// Each way a buffer item can be malformed, by name.
#[test]
fn malformed_buffer_items_are_refused_by_name() {
    let sb = sb_v5();
    let refusal = |ops: &[Op]| {
        let mut image = agf_block(&sb);
        let err = apply_transaction(&mut image, &sb, ops, LSN).expect_err("malformed");
        assert_eq!(image, agf_block(&sb), "a refusal changes nothing");
        err
    };

    let short = Op { flags: 0, data: [&XFS_LI_BUF.to_le_bytes()[..], &[0; 3]].concat() };
    assert_eq!(refusal(&[short]), Error::CorruptLog(LogFault::BufferHeaderShort { len: 5 }));

    let mut ops = buf_item(0, 3, vec![1; 128]);
    ops[0].data[BLF_MAP_SIZE] = 2;
    let err = refusal(&ops);
    assert_eq!(
        err,
        Error::CorruptLog(LogFault::BufferMapShort { words: 2, need: 28, len: 24 })
    );
    assert_eq!(err.to_string(), "a buffer item with a 2-word bitmap needs 28 bytes and has 24");

    let ops = buf_item(1 << 63, 3, vec![1; 128]);
    assert_eq!(
        refusal(&ops),
        Error::CorruptLog(LogFault::BufferAddress { blkno: 1 << 63 })
    );

    let mut ops = buf_item(0, 3, vec![1; 128]);
    ops[0].data[BLF_SIZE] = 3;
    let err = refusal(&ops);
    assert_eq!(err, Error::CorruptLog(LogFault::BufferRunCount { size: 3, runs: 1 }));
    assert_eq!(
        err.to_string(),
        "a buffer item claims 3 operations, which is 2 data operations, and its bitmap has 1 runs"
    );

    let mut ops = buf_item(0, 3, vec![1; 128]);
    ops[0].data[BLF_SIZE] = 0;
    assert_eq!(
        refusal(&ops),
        Error::CorruptLog(LogFault::BufferRunCount { size: 0, runs: 1 })
    );

    let mut ops = buf_item(0, 3, vec![1; 128]);
    ops.pop();
    assert_eq!(
        refusal(&ops),
        Error::CorruptLog(LogFault::BufferTruncated { size: 2, remain: 1 })
    );

    let mut ops = buf_item(0, 3, vec![1; 120]);
    ops[0].data[BLF_SIZE] = 3;
    ops[0].data[BLF_HEADER_SIZE] = 0b101;
    ops.push(Op { flags: 0, data: vec![1; 136] });
    let err = refusal(&ops);
    assert_eq!(
        err,
        Error::CorruptLog(LogFault::BufferRunLength { index: 0, len: 120, run: 128 })
    );
    assert_eq!(err.to_string(), "data operation 0 is 120 bytes for a run of 128");

    // A second bitmap word reaches past the end of a 4 KiB block.
    let mut ops = buf_item(0, 0, vec![1; 128]);
    ops[0].data[BLF_HEADER_SIZE] = 0;
    ops[0].data[BLF_MAP_SIZE] = 2;
    ops[0].data.extend_from_slice(&1u32.to_le_bytes());
    let err = refusal(&ops);
    assert_eq!(
        err,
        Error::CorruptLog(LogFault::RunBeyondBlock { start: 4096, end: 4224, len: 4096 })
    );
    assert_eq!(err.to_string(), "a buffer item wants bytes 4096..4224 of a 4096-byte block");

    let ops = buf_item(i64::MAX as u64, 3, vec![1; 128]);
    assert_eq!(
        refusal(&ops),
        Error::CorruptLog(LogFault::AddressBeyondDevice { blkno: i64::MAX as u64 })
    );

    let ops = buf_item(8, 3, vec![1; 128]);
    let err = refusal(&ops);
    assert_eq!(err, Error::ShortRead { offset: 4096, want: 4096, got: 0 });
    assert_eq!(err.to_string(), "short read at 4096: wanted 4096 got 0");

    let err = refusal(&[Op { flags: 0, data: vec![0x34, 0x12] }]);
    assert_eq!(
        err,
        Error::UnsupportedFeature(Unsupported::UnknownItem { kind: 0x1234, at: 0 })
    );
    assert_eq!(err.to_string(), "unrecognised log item type 0x1234 at operation 0");
}

/// Each way an inode item can be malformed, by name.
#[test]
fn malformed_inode_items_are_refused_by_name() {
    let sb = sb_v5();
    let inode = disk_inode(&sb, 64);
    let mut image = vec![0u8; 16384];
    image[512..1024].copy_from_slice(&inode);
    let core = log_dinode_from_disk(&inode).expect("log the inode");
    let buffer = InodeBuffer::containing(512, 16384);
    let good = || inode_item(64, XFS_ILOG_CORE, &buffer, &core);
    let refusal_under = |sb: &Superblock, ops: &[Op]| {
        let mut dev = image.clone();
        let err = apply_transaction(&mut dev, sb, ops, LSN).expect_err("malformed");
        assert_eq!(dev, image, "a refusal changes nothing");
        err
    };
    let refusal = |ops: &[Op]| refusal_under(&sb, ops);

    let mut ops = good();
    ops[0].data.truncate(55);
    assert_eq!(refusal(&ops), Error::CorruptLog(LogFault::InodeHeaderShort { len: 55 }));

    let mut ops = good();
    ops[0].data[ILF_SIZE] = 1;
    assert_eq!(refusal(&ops), Error::CorruptLog(LogFault::InodeNoCore { size: 1 }));

    let mut ops = good();
    ops[0].data[ILF_SIZE] = 3;
    assert_eq!(
        refusal(&ops),
        Error::CorruptLog(LogFault::InodeTruncated { size: 3, remain: 2 })
    );

    let err = refusal(&inode_item(64, 0x100, &buffer, &core));
    assert_eq!(err, Error::CorruptLog(LogFault::InodeCoreNotLogged { fields: 0x100 }));
    assert_eq!(
        err.to_string(),
        "an inode item logs fields 0x00000100 without XFS_ILOG_CORE, so there is no core to apply"
    );

    let mut ops = good();
    ops[0].data[ILF_LEN] = 33;
    let err = refusal(&ops);
    assert_eq!(
        err,
        Error::CorruptLog(LogFault::InodeBufferLength {
            ino: 64,
            cluster: 16896,
            inodesize: 512,
            max: 16384
        })
    );
    assert_eq!(
        err.to_string(),
        "an inode item for inode 64 names a 16896-byte buffer, outside this geometry's inodesize \
         512..cluster 16384"
    );
    let mut ops = good();
    ops[0].data[ILF_LEN] = 0;
    assert!(matches!(
        refusal(&ops),
        Error::CorruptLog(LogFault::InodeBufferLength { cluster: 0, .. })
    ));

    for boff in [511u32, 16384] {
        let off = InodeBuffer { boffset: boff, ..buffer };
        assert_eq!(
            refusal(&inode_item(64, XFS_ILOG_CORE, &off, &core)),
            Error::CorruptLog(LogFault::InodeOffset {
                ino: 64,
                boff,
                cluster: 16384,
                inodesize: 512
            })
        );
    }

    let err = refusal(&inode_item(64, XFS_ILOG_CORE, &buffer, &core[..175]));
    assert_eq!(err, Error::CorruptLog(LogFault::CoreShort { ino: 64, len: 175 }));

    let mut old = core.clone();
    old[DI_VERSION] = 2;
    let err = refusal(&inode_item(64, XFS_ILOG_CORE, &buffer, &old));
    assert_eq!(
        err,
        Error::UnsupportedFeature(Unsupported::CoreVersion { ino: 64, version: 2 })
    );

    let small = Superblock { inodesize: 128, ..sb };
    assert_eq!(
        refusal_under(&small, &good()),
        Error::CorruptLog(LogFault::CoreTooLarge { len: 176, inodesize: 128 })
    );

    let mut ops = good();
    ops[0].data[ILF_BLKNO..ILF_BLKNO + 8].copy_from_slice(&u64::MAX.to_le_bytes());
    assert_eq!(
        refusal(&ops),
        Error::CorruptLog(LogFault::AddressBeyondDevice { blkno: u64::MAX })
    );

    let err = refusal(&inode_item(65, XFS_ILOG_CORE, &buffer, &core));
    assert_eq!(
        err,
        Error::CorruptLog(LogFault::SlotTaken { ino: 65, here: 64, boff: 512, blkno: 0 })
    );
    assert_eq!(
        err.to_string(),
        "an inode item for inode 65 lands on inode 64 at byte 512 of buffer block 0"
    );
}

/// A free slot says nothing of itself and is the item's to fill; an all-ones
/// or zero sequence number is not a newer one.
#[test]
fn a_free_slot_and_an_unset_sequence_number_are_filled() {
    let sb = sb_v5();
    let mut inode = disk_inode(&sb, 64);
    let core = log_dinode_from_disk(&inode).expect("log the inode");
    let buffer = InodeBuffer::containing(512, 16384);
    let ops = inode_item(64, XFS_ILOG_CORE, &buffer, &core);

    let mut image = vec![0u8; 16384];
    assert_eq!(apply_transaction(&mut image, &sb, &ops, LSN), Ok(1));
    assert_eq!(be64(&image[512..], DI_INO), 64);

    inode[DI_LSN..DI_LSN + 8].copy_from_slice(&u64::MAX.to_be_bytes());
    image[512..1024].copy_from_slice(&inode);
    assert_eq!(apply_transaction(&mut image, &sb, &ops, LSN), Ok(1));
    assert_eq!(be64(&image[512..], DI_LSN), LSN);
    // As new as the transaction is not newer.
    assert_eq!(apply_transaction(&mut image, &sb, &ops, LSN), Ok(1));
}

/// What a big-endian machine logged is applied in its order.
#[test]
fn a_core_logged_big_endian_is_applied_as_it_stands() {
    let sb = sb_v5();
    let inode = disk_inode(&sb, 64);
    let mut core = inode[..176].to_vec();
    core[DI_CRC..DI_CRC + 4].fill(0);
    let buffer = InodeBuffer::containing(512, 16384);
    let ops = inode_item(64, XFS_ILOG_CORE, &buffer, &core);
    let mut image = vec![0u8; 16384];
    assert_eq!(apply_transaction_in(&mut image, &sb, &ops, LSN, ByteOrder::Big), Ok(1));
    assert_eq!(&image[512..512 + DI_CRC], &inode[..DI_CRC]);
    assert_eq!(be64(&image[512..], DI_INO), 64);
}

/// The replay asks for one thing at a time: the block an item is about, and
/// then what to write in its place.
#[test]
fn a_replay_reads_then_writes_then_finishes() {
    let sb = sb_v5();
    let ops = buf_item(8, 3, vec![0xC3; 128]);
    let mut replay = Replay::new(&sb, &ops, LSN, ByteOrder::Little);
    match replay.begin() {
        Ok(Action::Read { offset, len }) => assert_eq!((offset, len), (4096, 4096)),
        _ => panic!("the block is read first"),
    }
    match replay.read(agf_block(&sb)) {
        Ok(Action::Write { offset, bytes }) => {
            assert_eq!(offset, 4096);
            assert_eq!(bytes.len(), 4096);
            assert!(bytes[384..512].iter().all(|&x| x == 0xC3));
        }
        _ => panic!("the patched block is written back"),
    }
    match replay.wrote() {
        Ok(Action::Finish { written }) => assert_eq!(written, 1),
        _ => panic!("there is only one item"),
    }
}

/// Every known kind is told by its magic and its checksum, and a restamped
/// block of it carries the sequence number and verifies again.
#[test]
fn every_known_kind_is_recognised_and_restamped() {
    let sb = sb_v5();
    let all = crc_kinds();
    assert_eq!(all.len(), 14);
    for kind in all {
        let mut block: Vec<u8> = (0..4096u32).map(|i| (i % 253) as u8).collect();
        match kind.magic {
            Magic::Be32 { off, value } => {
                block[off..off + 4].copy_from_slice(&value.to_be_bytes())
            }
            Magic::Be16 { off, value } => {
                block[off..off + 2].copy_from_slice(&value.to_be_bytes())
            }
        }
        let span = if kind.span == Span::Sector { 512 } else { 4096 };
        let crc = crc32c_with_zeroed_crc(&block[..span], kind.crc_off);
        block[kind.crc_off..kind.crc_off + 4].copy_from_slice(&crc.to_le_bytes());
        assert_eq!(kind_of(&block, &sb), Some(kind));

        let before = block.clone();
        kind.restamp(&mut block, &sb, LSN);
        assert_eq!(be64(&block, kind.lsn_off), LSN);
        assert_eq!(
            le32(&block, kind.crc_off),
            crc32c_with_zeroed_crc(&block[..span], kind.crc_off)
        );
        for i in 0..4096 {
            let stamp = (kind.lsn_off..kind.lsn_off + 8).contains(&i)
                || (kind.crc_off..kind.crc_off + 4).contains(&i);
            assert!(stamp || block[i] == before[i], "byte {i} of {kind:?}");
        }
        assert_eq!(kind_of(&block[..kind.crc_off + 3], &sb), None, "too short for its fields");
    }
}

/// Bits count from the low end of the first byte, and a run is as long as
/// the bits are set.
#[test]
fn a_bitmap_is_read_as_its_maximal_runs() {
    assert_eq!(bitmap_runs(&[]), vec![]);
    assert_eq!(bitmap_runs(&[0, 0, 0, 0]), vec![]);
    assert_eq!(bitmap_runs(&[0b0000_1000]), vec![(384, 128)]);
    assert_eq!(bitmap_runs(&[0b1000_0001, 0b0000_0011]), vec![(0, 128), (896, 384)]);
    assert_eq!(bitmap_runs(&[0xFF; 4]), vec![(0, 4096)]);
    assert_eq!(bitmap_runs(&[0, 0, 0, 0x80]), vec![(3968, 128)]);
}

/// A cancel item for the block at `blkno_bb`: flagged, without a bitmap and
/// without data.
fn cancel_item(blkno_bb: u64) -> Op {
    let mut fmt = vec![0u8; BLF_HEADER_SIZE];
    fmt[BLF_TYPE..BLF_TYPE + 2].copy_from_slice(&XFS_LI_BUF.to_le_bytes());
    fmt[BLF_SIZE..BLF_SIZE + 2].copy_from_slice(&1u16.to_le_bytes());
    fmt[BLF_FLAGS..BLF_FLAGS + 2].copy_from_slice(&BLF_CANCEL.to_le_bytes());
    fmt[BLF_BLKNO..BLF_BLKNO + 8].copy_from_slice(&blkno_bb.to_le_bytes());
    Op { flags: 0, data: fmt }
}

/// A cancel item suppresses the items before it for the same block, and
/// nothing else: not those for other blocks, and not those behind it.
#[test]
fn a_cancel_item_suppresses_earlier_items_for_its_block() {
    let sb = sb_v5();
    let mut start = agf_block(&sb);
    start.extend_from_slice(&agf_block(&sb));

    let mut image = start.clone();
    let mut ops = buf_item(0, 3, vec![1; 128]);
    ops.push(cancel_item(0));
    assert_eq!(apply_transaction(&mut image, &sb, &ops, LSN), Ok(0));
    assert_eq!(image, start, "neither the item nor the cancel item changes the block");

    let mut ops = buf_item(0, 3, vec![1; 128]);
    ops.extend(buf_item(8, 3, vec![2; 128]));
    ops.push(cancel_item(0));
    ops.extend(buf_item(0, 4, vec![3; 128]));
    assert_eq!(apply_transaction(&mut image, &sb, &ops, LSN), Ok(2));
    assert!(image[384..512].iter().all(|&x| x == 0), "cancelled");
    assert!(image[512..640].iter().all(|&x| x == 3), "behind the cancel item");
    assert!(image[4096 + 384..4096 + 512].iter().all(|&x| x == 2), "another block");
    assert_eq!(be64(&image, AGF_LSN), LSN);
}

/// Only a flagged item without data is a cancel item: one that carries data
/// is applied, and suppresses nothing. A bitmap without a set bit is no data.
#[test]
fn a_flagged_item_with_data_is_an_ordinary_one() {
    let sb = sb_v5();
    let mut image = agf_block(&sb);
    let mut ops = buf_item(0, 3, vec![1; 128]);
    let mut flagged = buf_item(0, 4, vec![2; 128]);
    flagged[0].data[BLF_FLAGS..BLF_FLAGS + 2].copy_from_slice(&BLF_CANCEL.to_le_bytes());
    ops.extend(flagged);
    assert_eq!(apply_transaction(&mut image, &sb, &ops, LSN), Ok(2));
    assert!(image[384..512].iter().all(|&x| x == 1));
    assert!(image[512..640].iter().all(|&x| x == 2));

    let before = image.clone();
    let mut ops = buf_item(0, 3, vec![3; 128]);
    let mut cancel = cancel_item(0);
    cancel.data[BLF_MAP_SIZE..BLF_MAP_SIZE + 4].copy_from_slice(&1u32.to_le_bytes());
    cancel.data.extend_from_slice(&[0; 4]);
    ops.push(cancel);
    assert_eq!(apply_transaction(&mut image, &sb, &ops, LSN), Ok(0));
    assert_eq!(image, before);

    // A set bit without its data is refused, flagged or not.
    ops[2].data[BLF_HEADER_SIZE] = 1;
    assert_eq!(
        apply_transaction(&mut image, &sb, &ops, LSN),
        Err(Error::CorruptLog(LogFault::BufferRunCount { size: 1, runs: 1 }))
    );
}

/// A cancelled block is not even read, so it need not be there or be of a
/// known kind.
#[test]
fn a_cancelled_block_is_not_read() {
    let sb = sb_v5();
    let mut ops = buf_item(1 << 40, 3, vec![1; 128]);
    ops.push(cancel_item(1 << 40));
    let mut image: Vec<u8> = Vec::new();
    assert_eq!(apply_transaction(&mut image, &sb, &ops, LSN), Ok(0));
}

/// An inode item whose cluster is cancelled behind it is suppressed too.
#[test]
fn a_cancelled_cluster_suppresses_its_inode_items() {
    let sb = sb_v5();
    let inode = disk_inode(&sb, 64);
    let core = log_dinode_from_disk(&inode).expect("log the inode");
    let buffer = InodeBuffer::containing(512, 16384);
    let mut ops = inode_item(64, XFS_ILOG_CORE, &buffer, &core);
    ops.push(cancel_item(0));
    let mut image = vec![0u8; 16384];
    assert_eq!(apply_transaction(&mut image, &sb, &ops, LSN), Ok(0));
    assert!(image.iter().all(|&b| b == 0));
    ops.rotate_right(1);
    assert_eq!(apply_transaction(&mut image, &sb, &ops, LSN), Ok(1), "a cancel item before it");
}

/// A whole transaction does what its items do: START, the transaction
/// header and COMMIT carry none.
#[test]
fn a_whole_transaction_is_applied_as_its_items_are() {
    let sb = sb_v5();
    let inode = disk_inode(&sb, 64);
    let core = log_dinode_from_disk(&inode).expect("log the inode");
    let buffer = InodeBuffer::containing(512, 16384);
    let mut image = vec![0u8; 16384];
    image[512..1024].copy_from_slice(&inode);
    let mut bare = image.clone();
    let items = inode_item(64, XFS_ILOG_CORE, &buffer, &core);
    assert_eq!(apply_transaction(&mut bare, &sb, &items, LSN), Ok(1));

    let change = CoreChange { ino: 64, buffer, core };
    let whole = change.operations(0x8000_1234);
    assert_eq!(whole.len(), 5);
    assert_eq!(apply_transaction(&mut image, &sb, &whole, LSN), Ok(1));
    assert_eq!(image, bare);

    // Sixteen bytes that do not open with the header's magic are no header.
    let mut other = whole;
    other[1].data[0] ^= 1;
    assert_eq!(
        apply_transaction(&mut image, &sb, &other, LSN),
        Err(Error::UnsupportedFeature(Unsupported::UnknownItem { kind: 0x414f, at: 1 }))
    );
}
