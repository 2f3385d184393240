//! The block-map B+tree.

use fs_xfs::bmbt::{
    maxrecs, parse_block, parse_root, pointers, records, walk, Node, BLKNO, CRC, KEY_LEN, OWNER,
    PTR_LEN, ROOT_HEADER_LEN, UUID, V4_HEADER_LEN, V5_HEADER_LEN, XFS_BMAP_CRC_MAGIC,
    XFS_BMAP_MAGIC,
};
use fs_xfs::checksum::crc32c_with_zeroed_crc;
use fs_xfs::error::{BlockFault, Error, What};
use fs_xfs::extent::{Extent, EXTENT_RECORD_SIZE};
use fs_xfs::superblock::{blkno_of_fsblock, Superblock};

const BLOCK_SIZE: usize = 4096;

/// Encode one extent into the packed 16-byte record.
fn record(e: &Extent) -> [u8; EXTENT_RECORD_SIZE] {
    // bit 127 flag | 73..=126 startoff | 21..=72 startblock | 0..=20 blockcount
    let value: u128 = (u128::from(e.unwritten) << 127)
        | (u128::from(e.startoff) << 73)
        | (u128::from(e.startblock) << 21)
        | u128::from(e.blockcount);
    value.to_be_bytes()
}

/// A v5 superblock: 4 KiB blocks, 512-byte sectors and inodes, 4 groups of
/// 1024 blocks.
fn v5_superblock() -> Superblock {
    let mut uuid = [0u8; 16];
    for (i, slot) in uuid.iter_mut().enumerate() {
        *slot = i as u8;
    }
    Superblock {
        blocksize: 4096,
        sectsize: 512,
        inodesize: 512,
        versionnum: 5 | 0x4000,
        agblocks: 1024,
        agblklog: 10,
        logstart: 100,
        cluster_bytes: 16384,
        uuid,
        meta_uuid: uuid,
    }
}

/// The same geometry on v4, whose blocks carry no identity.
fn v4_superblock() -> Superblock {
    Superblock { versionnum: 4 | 0x4000, ..v5_superblock() }
}

fn header_of(sb: &Superblock) -> (usize, u32) {
    if sb.is_v5() {
        (V5_HEADER_LEN, XFS_BMAP_CRC_MAGIC)
    } else {
        (V4_HEADER_LEN, XFS_BMAP_MAGIC)
    }
}

fn restamp(b: &mut [u8]) {
    let crc = crc32c_with_zeroed_crc(b, CRC);
    b[CRC..CRC + 4].copy_from_slice(&crc.to_le_bytes());
}

/// A leaf block holding `recs`, checksummed if `sb` is v5, to be read at
/// filesystem block `at`.
fn leaf(sb: &Superblock, ino: u64, at: u64, recs: &[Extent]) -> Vec<u8> {
    let (header, magic) = header_of(sb);
    let mut b = vec![0u8; BLOCK_SIZE];
    b[0..4].copy_from_slice(&magic.to_be_bytes());
    b[4..6].copy_from_slice(&0u16.to_be_bytes()); // level 0
    b[6..8].copy_from_slice(&(recs.len() as u16).to_be_bytes());
    for (i, e) in recs.iter().enumerate() {
        let at = header + i * EXTENT_RECORD_SIZE;
        b[at..at + EXTENT_RECORD_SIZE].copy_from_slice(&record(e));
    }
    identify(sb, ino, at, &mut b);
    b
}

fn identify(sb: &Superblock, ino: u64, at: u64, b: &mut [u8]) {
    if sb.is_v5() {
        b[UUID..UUID + 16].copy_from_slice(&sb.meta_uuid);
        b[OWNER..OWNER + 8].copy_from_slice(&ino.to_be_bytes());
        let blkno = blkno_of_fsblock(sb, at);
        b[BLKNO..BLKNO + 8].copy_from_slice(&blkno.to_be_bytes());
        restamp(b);
    }
}

/// An internal block at `level` pointing at `children`, to be read at
/// filesystem block `at`.
fn node(sb: &Superblock, ino: u64, at: u64, level: u16, children: &[(u64, u64)]) -> Vec<u8> {
    let (header, magic) = header_of(sb);
    let mut b = vec![0u8; BLOCK_SIZE];
    b[0..4].copy_from_slice(&magic.to_be_bytes());
    b[4..6].copy_from_slice(&level.to_be_bytes());
    b[6..8].copy_from_slice(&(children.len() as u16).to_be_bytes());
    let mx = maxrecs(BLOCK_SIZE - header);
    for (i, (startoff, ptr)) in children.iter().enumerate() {
        let k = header + i * KEY_LEN;
        b[k..k + 8].copy_from_slice(&startoff.to_be_bytes());
        let p = header + mx * KEY_LEN + i * PTR_LEN;
        b[p..p + 8].copy_from_slice(&ptr.to_be_bytes());
    }
    identify(sb, ino, at, &mut b);
    b
}

/// An in-inode root of `fork_len` bytes pointing at `children`.
fn root(level: u16, fork_len: usize, children: &[(u64, u64)]) -> Vec<u8> {
    let mut f = vec![0u8; fork_len];
    f[0..2].copy_from_slice(&level.to_be_bytes());
    f[2..4].copy_from_slice(&(children.len() as u16).to_be_bytes());
    let mx = maxrecs(fork_len - ROOT_HEADER_LEN);
    for (i, (startoff, ptr)) in children.iter().enumerate() {
        let k = ROOT_HEADER_LEN + i * KEY_LEN;
        f[k..k + 8].copy_from_slice(&startoff.to_be_bytes());
        let p = ROOT_HEADER_LEN + mx * KEY_LEN + i * PTR_LEN;
        f[p..p + 8].copy_from_slice(&ptr.to_be_bytes());
    }
    f
}

fn ext(startoff: u64, startblock: u64, blockcount: u64) -> Extent {
    Extent { startoff, startblock, blockcount, unwritten: false }
}

#[test]
fn single_leaf_under_the_root() {
    let sb = v5_superblock();
    let ino = 1234;
    let recs = [ext(0, 100, 1), ext(1, 200, 2), ext(3, 300, 1)];
    let block = leaf(&sb, ino, 42, &recs);
    let fork = root(1, 96, &[(0, 42)]);

    let got = walk(&fork, 3, &sb, ino, |b| {
        assert_eq!(b, 42);
        Ok(block.clone())
    })
    .expect("walk");
    assert_eq!(got, recs);
}

/// The layout trap: pointers sit after room for `maxrecs` keys, not after
/// the keys in use.
#[test]
fn pointers_are_placed_past_the_full_key_array() {
    let sb = v5_superblock();
    let ino = 7;
    let left = [ext(0, 10, 1)];
    let right = [ext(1, 20, 1)];
    let lb = leaf(&sb, ino, 11, &left);
    let rb = leaf(&sb, ino, 22, &right);
    let fork = root(1, 200, &[(0, 11), (1, 22)]);

    let got = walk(&fork, 2, &sb, ino, |b| match b {
        11 => Ok(lb.clone()),
        22 => Ok(rb.clone()),
        other => panic!("unexpected block {other}"),
    })
    .expect("walk");
    assert_eq!(got, [left[0], right[0]]);
}

#[test]
fn three_level_tree_is_walked_in_file_order() {
    let sb = v5_superblock();
    let ino = 99;
    let a = [ext(0, 10, 1)];
    let b = [ext(1, 20, 1)];
    let c = [ext(2, 30, 1)];
    let la = leaf(&sb, ino, 101, &a);
    let lb = leaf(&sb, ino, 102, &b);
    let lc = leaf(&sb, ino, 103, &c);
    let n1 = node(&sb, ino, 201, 1, &[(0, 101), (1, 102)]);
    let n2 = node(&sb, ino, 202, 1, &[(2, 103)]);
    let fork = root(2, 96, &[(0, 201), (2, 202)]);

    let got = walk(&fork, 3, &sb, ino, |blk| match blk {
        201 => Ok(n1.clone()),
        202 => Ok(n2.clone()),
        101 => Ok(la.clone()),
        102 => Ok(lb.clone()),
        103 => Ok(lc.clone()),
        other => panic!("unexpected block {other}"),
    })
    .expect("walk");
    assert_eq!(got, [a[0], b[0], c[0]]);
}

#[test]
fn a_block_owned_by_another_inode_is_refused() {
    let sb = v5_superblock();
    let block = leaf(&sb, 4321, 42, &[ext(0, 10, 1)]);
    let fork = root(1, 96, &[(0, 42)]);
    let err = walk(&fork, 1, &sb, 1234, |_| Ok(block.clone())).unwrap_err().to_string();
    assert!(err.contains("bmbt block owner") && err.contains("4321"), "got {err}");
}

/// A well-formed leaf of the right inode at the right level, read at the
/// wrong block, is refused.
#[test]
fn a_block_read_at_an_address_it_was_not_written_for_is_refused() {
    let sb = v5_superblock();
    let ino = 5;
    let block = leaf(&sb, ino, 77, &[ext(0, 10, 1)]);
    let fork = root(1, 96, &[(0, 42)]);

    let err = walk(&fork, 1, &sb, ino, |_| Ok(block.clone())).unwrap_err();
    let text = err.to_string();
    assert!(text.contains("bmbt block address"), "the refusal should name the address: {text}");

    // And it is not passing for some other reason: the same block read
    // where it belongs is accepted.
    let fork_ok = root(1, 96, &[(0, 77)]);
    walk(&fork_ok, 1, &sb, ino, |b| {
        assert_eq!(b, 77);
        Ok(block.clone())
    })
    .expect("the block is fine where it lives");
}

/// A block's own address counts 512-byte basic blocks, not filesystem
/// blocks.
#[test]
fn the_recorded_address_is_in_basic_blocks_not_filesystem_blocks() {
    let sb = v5_superblock(); // 4 KiB blocks
    assert_eq!(sb.blocksize, 4096);
    assert_eq!(
        blkno_of_fsblock(&sb, 1),
        8,
        "one 4 KiB block is eight 512-byte basic blocks"
    );
    assert_eq!(blkno_of_fsblock(&sb, 0), 0);

    // Written the wrong way round, the block would be refused at its own
    // address.
    let ino = 5;
    let mut block = leaf(&sb, ino, 42, &[ext(0, 10, 1)]);
    block[BLKNO..BLKNO + 8].copy_from_slice(&42u64.to_be_bytes());
    restamp(&mut block);

    let fork = root(1, 96, &[(0, 42)]);
    let err = walk(&fork, 1, &sb, ino, |_| Ok(block.clone())).unwrap_err().to_string();
    assert!(err.contains("bmbt block address"), "got {err}");
}

#[test]
fn a_corrupted_block_fails_its_checksum() {
    let sb = v5_superblock();
    let ino = 5;
    let mut block = leaf(&sb, ino, 42, &[ext(0, 10, 1)]);
    block[V5_HEADER_LEN + 4] ^= 0xFF;
    let fork = root(1, 96, &[(0, 42)]);
    let err = walk(&fork, 1, &sb, ino, |_| Ok(block.clone())).unwrap_err().to_string();
    assert!(err.contains("CRC32C"), "got {err}");
}

#[test]
fn a_child_at_the_wrong_level_is_refused() {
    let sb = v5_superblock();
    let ino = 5;
    // The root says level 2, so its children must be level 1; hand it a
    // leaf instead.
    let block = leaf(&sb, ino, 42, &[ext(0, 10, 1)]);
    let fork = root(2, 96, &[(0, 42)]);
    let err = walk(&fork, 1, &sb, ino, |_| Ok(block.clone())).unwrap_err().to_string();
    assert!(err.contains("level"), "got {err}");
}

/// The level check bounds depth. What it does not bound is breadth: nothing
/// stops a corrupt node naming the same block hundreds of times.
#[test]
fn a_node_fanning_out_to_one_block_repeatedly_is_bounded() {
    let sb = v5_superblock();
    let ino = 5;
    let mx = maxrecs(BLOCK_SIZE - V5_HEADER_LEN);
    let fanout: Vec<(u64, u64)> = (0..mx as u64).map(|i| (i, 300)).collect();
    let wide = node(&sb, ino, 200, 1, &fanout);
    let leaf_block = leaf(&sb, ino, 300, &[ext(0, 10, 1)]);
    let fork = root(2, 96, &[(0, 200)]);

    let err = walk(&fork, 1, &sb, ino, |b| match b {
        200 => Ok(wide.clone()),
        300 => Ok(leaf_block.clone()),
        other => panic!("unexpected block {other}"),
    })
    .unwrap_err()
    .to_string();
    assert!(err.contains("cyclic"), "got {err}");
}

#[test]
fn a_root_claiming_level_zero_is_refused() {
    let sb = v5_superblock();
    let fork = root(0, 96, &[]);
    let err = walk(&fork, 0, &sb, 5, |_| unreachable!()).unwrap_err().to_string();
    assert!(err.contains("level 0"), "got {err}");
}

#[test]
fn an_extent_count_that_disagrees_with_the_tree_is_refused() {
    let sb = v5_superblock();
    let ino = 5;
    let block = leaf(&sb, ino, 42, &[ext(0, 10, 1)]);
    let fork = root(1, 96, &[(0, 42)]);
    let err = walk(&fork, 9, &sb, ino, |_| Ok(block.clone())).unwrap_err().to_string();
    assert!(err.contains("records 9"), "got {err}");
}

#[test]
fn maxrecs_matches_the_kernels_arithmetic() {
    // 4 KiB block, v5: (4096 - 72) / 16.
    assert_eq!(maxrecs(BLOCK_SIZE - V5_HEADER_LEN), 251);
    // 4 KiB block, v4: (4096 - 24) / 16.
    assert_eq!(maxrecs(BLOCK_SIZE - V4_HEADER_LEN), 254);
}

#[test]
fn a_version_four_tree_is_walked_without_identity_checks() {
    let sb = v4_superblock();
    let recs = [ext(0, 10, 1), ext(1, 20, 4)];
    let block = leaf(&sb, 1, 42, &recs);
    let fork = root(1, 96, &[(0, 42)]);
    // Another inode reads it just as well: v4 blocks do not name an owner.
    assert_eq!(walk(&fork, 2, &sb, 2, |_| Ok(block.clone())), Ok(recs.to_vec()));
}

#[test]
fn every_part_of_an_extent_record_is_decoded() {
    let sb = v5_superblock();
    let e = Extent {
        startoff: 0x2A_BCDE_F012_3456,
        startblock: 0xF_EDCB_A987_6543,
        blockcount: 0x1F_FFFE,
        unwritten: true,
    };
    let block = leaf(&sb, 1, 42, &[e]);
    let fork = root(1, 96, &[(0, 42)]);
    assert_eq!(walk(&fork, 1, &sb, 1, |_| Ok(block.clone())), Ok(vec![e]));
}

#[test]
fn a_refused_read_ends_the_walk_with_the_readers_own_words() {
    let sb = v5_superblock();
    let fork = root(1, 96, &[(0, 42)]);
    let err = walk(&fork, 1, &sb, 1, |_| Err(Error::Io("short read".to_string()))).unwrap_err();
    assert_eq!(err, Error::Io("short read".to_string()));
    assert_eq!(err.to_string(), "short read");
}

/// A pointer into another allocation group is located through the group's
/// own blocks, which need not fill the group bits.
#[test]
fn a_block_number_names_its_group_in_its_high_bits() {
    let sb = Superblock { agblocks: 1000, ..v5_superblock() };
    assert_eq!(sb.fsblock_offset(1024), 1000 * 4096);
    assert_eq!(sb.fsblock_offset(2 * 1024 + 3), 2003 * 4096);
    assert_eq!(blkno_of_fsblock(&sb, 2 * 1024 + 3), 2003 * 8);
}

#[test]
fn each_refusal_of_a_root_names_itself() {
    assert_eq!(
        parse_root(&[0, 1, 0], 9),
        Err(Error::BadSuperblock(BlockFault::RootTooShort { ino: 9, len: 3 }))
    );
    assert_eq!(
        parse_root(&root(10, 96, &[]), 9),
        Err(Error::BadSuperblock(BlockFault::RootTooDeep { ino: 9, level: 10 }))
    );
    let mut full = root(1, 36, &[]);
    full[3] = 3;
    assert_eq!(
        parse_root(&full, 9),
        Err(Error::BadSuperblock(BlockFault::RootOverfull { ino: 9, numrecs: 3, maxrecs: 2 }))
    );
    full[3] = 2;
    assert_eq!(parse_root(&full, 9), Ok(Node { level: 1, numrecs: 2, body: 4, maxrecs: 2 }));
}

#[test]
fn each_refusal_of_a_block_names_itself() {
    let sb = v5_superblock();
    let good = leaf(&sb, 1, 42, &[ext(0, 10, 1)]);
    assert_eq!(
        parse_block(&good, &sb, 1, 42, 0),
        Ok(Node { level: 0, numrecs: 1, body: 72, maxrecs: 251 })
    );
    assert_eq!(
        parse_block(&good[..71], &sb, 1, 42, 0),
        Err(Error::BadSuperblock(BlockFault::BlockTooShort {
            ino: 1,
            fsblock: 42,
            len: 71,
            header: 72
        }))
    );
    let old = leaf(&v4_superblock(), 1, 42, &[]);
    assert_eq!(
        parse_block(&old, &sb, 1, 42, 0),
        Err(Error::BadSuperblock(BlockFault::BlockMagic {
            ino: 1,
            fsblock: 42,
            magic: XFS_BMAP_MAGIC,
            want: XFS_BMAP_CRC_MAGIC
        }))
    );
    let mut foreign = good.clone();
    foreign[UUID] ^= 1;
    restamp(&mut foreign);
    assert_eq!(
        parse_block(&foreign, &sb, 1, 42, 0),
        Err(Error::BlockIdentityMismatch { what: What::BmbtBlock, expected: 42, found: u64::MAX })
    );
    let mut full = good.clone();
    full[6..8].copy_from_slice(&252u16.to_be_bytes());
    restamp(&mut full);
    assert_eq!(
        parse_block(&full, &sb, 1, 42, 0),
        Err(Error::BadSuperblock(BlockFault::BlockOverfull {
            ino: 1,
            fsblock: 42,
            numrecs: 252,
            maxrecs: 251
        }))
    );
}

#[test]
fn arrays_past_the_end_of_a_block_are_refused() {
    let node = Node { level: 1, numrecs: 3, body: 4, maxrecs: 3 };
    assert_eq!(
        pointers(&[0u8; 51], &node, 1, 2),
        Err(Error::BadSuperblock(BlockFault::PointersBeyondBlock {
            ino: 1,
            source: 2,
            end: 52,
            len: 51
        }))
    );
    assert_eq!(pointers(&[0u8; 52], &node, 1, 2), Ok(vec![0, 0, 0]));
    assert_eq!(
        records(&[0u8; 51], &node, 1, 2),
        Err(Error::BadSuperblock(BlockFault::RecordsBeyondBlock {
            ino: 1,
            source: 2,
            end: 52,
            numrecs: 3,
            len: 51
        }))
    );
}

#[test]
fn refusals_are_whole_sentences() {
    assert_eq!(
        Error::BadSuperblock(BlockFault::BlockMagic {
            ino: 7,
            fsblock: 10,
            magic: 0xAB,
            want: XFS_BMAP_CRC_MAGIC
        })
        .to_string(),
        "inode 7: bmbt block 10 has magic 0x000000ab, expected 0x424d4133"
    );
}
