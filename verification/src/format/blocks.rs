//! Metadata blocks that carry a checksum: how each kind is told, and where
//! its checksum and sequence number sit.

use vstd::prelude::*;

verus! {

/// "XAGF", an allocation group's free space header.
pub const XFS_AGF_MAGIC: u32 = 0x5841_4746;

/// Offset of the sequence number in a free space header.
pub const AGF_LSN: usize = 208;

/// Offset of the checksum in a free space header.
pub const AGF_CRC: usize = 216;

/// "XAGI", an allocation group's inode header.
pub const XFS_AGI_MAGIC: u32 = 0x5841_4749;

/// Offset of the checksum in an inode header.
pub const AGI_CRC: usize = 312;

/// Offset of the sequence number in an inode header.
pub const AGI_LSN: usize = 320;

/// "AB3B", a free space B+tree block by block number, v5.
pub const XFS_ABTB_CRC_MAGIC: u32 = 0x4142_3342;

/// "ABTB", a free space B+tree block by block number, v4.
pub const XFS_ABTB_MAGIC: u32 = 0x4142_5442;

/// "AB3C", a free space B+tree block by size, v5.
pub const XFS_ABTC_CRC_MAGIC: u32 = 0x4142_3343;

/// "ABTC", a free space B+tree block by size, v4.
pub const XFS_ABTC_MAGIC: u32 = 0x4142_5443;

/// Offset of the sequence number in a free space B+tree block.
pub const ALLOC_BTREE_LSN: usize = 24;

/// Offset of the checksum in a free space B+tree block.
pub const ALLOC_BTREE_CRC: usize = 52;

/// "XDD3", a directory data block.
pub const XFS_DIR3_DATA_MAGIC: u32 = 0x5844_4433;

/// "XDB3", a single-block directory.
pub const XFS_DIR3_BLOCK_MAGIC: u32 = 0x5844_4233;

/// "XDF3", a directory free block.
pub const XFS_DIR3_FREE_MAGIC: u32 = 0x5844_4633;

/// Offset of the magic in a directory block that leads with it.
pub const DIR3_BLK_MAGIC: usize = 0;

/// Offset of the checksum in such a block.
pub const DIR3_BLK_CRC: usize = 4;

/// Offset of the sequence number in such a block.
pub const DIR3_BLK_LSN: usize = 16;

/// The only leaf of a directory index.
pub const XFS_DIR3_LEAF1_MAGIC: u16 = 0x3df1;

/// One of several leaves of a directory index.
pub const XFS_DIR3_LEAFN_MAGIC: u16 = 0x3dff;

/// An internal node of a directory or attribute index.
pub const XFS_DA3_NODE_MAGIC: u16 = 0x3ebe;

/// Offset of the magic in an index block, behind its two sibling pointers.
pub const DA_BLK_MAGIC: usize = 8;

/// Offset of the checksum in an index block.
pub const DA_BLK_CRC: usize = 12;

/// Offset of the sequence number in an index block.
pub const DA_BLK_LSN: usize = 24;

} // verus!
