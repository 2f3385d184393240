//! The on-disk shapes of the XFS journalling log.
//!
//! The **framing** (the record header and every operation header) is
//! big-endian, with the exception of the record's checksum. **Inside** an
//! operation, the transaction header and the item format structures are
//! little-endian, and the logged inode core is in the order of the machine
//! that wrote it. A fork logged after an inode core stays big-endian.

use vstd::prelude::*;

verus! {

/// A log basic block. The log is addressed in these whatever the
/// filesystem's block size is.
pub const BBSIZE: usize = 512;

/// At offset 0 of every record header.
pub const XLOG_HEADER_MAGIC: u32 = 0xFEED_BABE;

/// Bytes in the record header structure. The header occupies a whole basic
/// block; only these bytes of it are checksummed.
pub const XLOG_REC_HEADER_SIZE: usize = 328;

/// The record format version that is written.
pub const XLOG_VERSION_2: u32 = 2;

/// The format code of a record written by a little-endian machine.
pub const XLOG_FMT_LINUX_LE: u32 = 1;

/// The format code of a record written by a big-endian machine.
pub const XLOG_FMT_LINUX_BE: u32 = 2;

/// How much of a payload one header block can carry displaced words for. A
/// record for larger buffers spills them into further header blocks.
pub const XLOG_HEADER_CYCLE_SIZE: usize = 32768;

/// Displaced words that one header block has room for.
pub const XLOG_CYCLE_DATA_ENTRIES: usize = 64;

/// Offset of the checksum in a record header.
pub const REC_CRC: usize = 32;

/// Offset of the displaced words in a record header.
pub const REC_CYCLE_DATA: usize = 44;

/// Offset of the size of the buffers in a record header.
pub const REC_SIZE: usize = 320;

/// Offset of the displaced words in a further header block, behind the
/// cycle number that every block of the log but the first of a record
/// leads with.
pub const REC_FURTHER_CYCLE_DATA: usize = 4;

/// Bytes in an operation header.
pub const OP_HEADER_SIZE: usize = 12;

/// The client of every filesystem transaction's operations.
pub const XFS_TRANSACTION: u8 = 0x69;

/// An empty operation that opens a transaction.
pub const XLOG_START_TRANS: u8 = 0x01;

/// An empty operation that closes a transaction.
pub const XLOG_COMMIT_TRANS: u8 = 0x02;

/// "TRAN", which the little-endian order spells backwards on disk.
pub const XFS_TRANS_HEADER_MAGIC: u32 = 0x5452_414e;

/// Bytes in a transaction header.
pub const TRANS_HEADER_SIZE: usize = 16;

/// The type in the header of every checkpoint.
pub const XFS_TRANS_CHECKPOINT: u32 = 0x28;

/// An inode item.
pub const XFS_LI_INODE: u16 = 0x123b;

/// A buffer item: some bytes of some block changed.
pub const XFS_LI_BUF: u16 = 0x123c;

/// Bytes in an inode item's format structure.
pub const INODE_LOG_FORMAT_SIZE: usize = 56;

/// Offset of the item type in an inode format.
pub const ILF_TYPE: usize = 0;

/// Offset of the number of operations the inode item occupies.
pub const ILF_SIZE: usize = 2;

/// Offset of the mask of the parts of the inode that follow.
pub const ILF_FIELDS: usize = 4;

/// Offset of the length of the logged data fork, unpadded.
pub const ILF_DSIZE: usize = 10;

/// Offset of the inode number.
pub const ILF_INO: usize = 16;

/// Offset of the inode cluster's address, in basic blocks.
pub const ILF_BLKNO: usize = 40;

/// Offset of the inode cluster's length, in basic blocks.
pub const ILF_LEN: usize = 48;

/// Offset of the inode's byte offset within its cluster.
pub const ILF_BOFFSET: usize = 52;

/// The item logs the inode core.
pub const XFS_ILOG_CORE: u32 = 0x01;

/// The item logs the data fork's inline contents.
pub const XFS_ILOG_DDATA: u32 = 0x02;

/// The item logs the data fork's extent list.
pub const XFS_ILOG_DEXT: u32 = 0x04;

/// The item logs the attribute fork's inline contents.
pub const XFS_ILOG_ADATA: u32 = 0x08;

/// The item logs the attribute fork's extent list.
pub const XFS_ILOG_AEXT: u32 = 0x10;

/// Bytes in the core of a version-3 inode.
pub const LOG_DINODE_SIZE: usize = 176;

/// Bytes in the core of a version-1 or version-2 inode.
pub const V2_LOG_DINODE_SIZE: usize = 96;

/// "IN", at offset 0 of every inode.
pub const XFS_DINODE_MAGIC: u16 = 0x494e;

/// The inode version of a v5 filesystem.
pub const DI_VERSION_3: u8 = 3;

/// Offset of an inode's magic.
pub const DI_MAGIC: usize = 0;

/// Offset of an inode's version, which decides its core's length.
pub const DI_VERSION: usize = 4;

/// Offset of a version-3 inode's checksum: zero in the log, real on disk.
pub const DI_CRC: usize = 100;

/// Offset of a version-3 inode's sequence number.
pub const DI_LSN: usize = 112;

/// Offset of a version-3 inode's second flag word.
pub const DI_FLAGS2: usize = 120;

/// Offset of a version-3 inode's own number.
pub const DI_INO: usize = 152;

/// Timestamps are one 64-bit count each.
pub const DI_FLAGS2_BIGTIME: u64 = 0x08;

/// The extent counters are wider and elsewhere.
pub const DI_FLAGS2_NREXT64: u64 = 0x10;

/// Bytes of a buffer item's format structure before its bitmap.
pub const BLF_HEADER_SIZE: usize = 20;

/// The stretch of a buffer that one bitmap bit stands for.
pub const BLF_CHUNK: usize = 128;

/// Offset of the item type in a buffer format.
pub const BLF_TYPE: usize = 0;

/// Offset of the number of operations the buffer item occupies.
pub const BLF_SIZE: usize = 2;

/// Offset of the buffer item's flags.
pub const BLF_FLAGS: usize = 4;

/// The flag of a cancel item, which carries no data: it changes nothing, and
/// the items before it for the same block are void.
pub const BLF_CANCEL: u16 = 0x002;

/// Offset of the buffer's length, in basic blocks.
pub const BLF_LEN: usize = 6;

/// Offset of the buffer's absolute device address, in basic blocks.
pub const BLF_BLKNO: usize = 8;

/// Offset of the bitmap's length, in 32-bit words.
pub const BLF_MAP_SIZE: usize = 16;

} // verus!
