//! The mounted filesystem's geometry, as far as the journal and the block
//! map depend on it.

use vstd::arithmetic::div_mod::lemma_fundamental_div_mod_converse;
use vstd::arithmetic::power2::{lemma_pow2_pos, pow2};
use vstd::bits::{
    lemma_u64_low_bits_mask_is_mod, lemma_u64_pow2_no_overflow, lemma_u64_shl_is_mul,
    lemma_u64_shr_is_div, low_bits_mask,
};
use vstd::prelude::*;

verus! {

/// The unit of the addresses that blocks and log items carry.
pub const BASIC_BLOCK: u64 = 512;

/// Geometry and identity, from the superblock.
#[derive(Debug, Clone, Copy)]
pub struct Superblock {
    /// Filesystem block size, in bytes.
    pub blocksize: u32,
    /// Sector size, in bytes.
    pub sectsize: u16,
    /// Inode size, in bytes.
    pub inodesize: u16,
    /// The version number in the low four bits, feature flags above.
    pub versionnum: u16,
    /// Blocks in an allocation group.
    pub agblocks: u32,
    /// How many low bits of a filesystem block number are the block within
    /// its allocation group; the bits above are the group.
    pub agblklog: u8,
    /// Filesystem block at which the log starts.
    pub logstart: u64,
    /// Bytes in an inode cluster buffer.
    pub cluster_bytes: u32,
    /// The filesystem's UUID.
    pub uuid: [u8; 16],
    /// The UUID that metadata blocks carry.
    pub meta_uuid: [u8; 16],
}

impl Superblock {
    /// What every mountable geometry satisfies: a block holds a magic, an
    /// inode and a cluster hold something, and the group bits of a block
    /// number are within the number.
    pub open spec fn valid(self) -> bool {
        &&& 4 <= self.blocksize
        &&& 0 < self.inodesize
        &&& 0 < self.cluster_bytes
        &&& self.agblklog < 64
    }

    /// Whether this is a version-5 filesystem, whose metadata checks itself.
    pub open spec fn v5(self) -> bool {
        self.versionnum % 16 == 5
    }

    /// The allocation group of a filesystem block number.
    pub open spec fn group_of(self, fsblock: u64) -> u64 {
        fsblock >> (self.agblklog as u64)
    }

    /// The block within its allocation group.
    pub open spec fn block_in_group(self, fsblock: u64) -> u64 {
        fsblock & ((1u64 << (self.agblklog as u64)) - 1) as u64
    }

    /// The device offset of a filesystem block, in bytes, were offsets
    /// unbounded.
    pub open spec fn fsblock_byte(self, fsblock: u64) -> int {
        (self.group_of(fsblock) * self.agblocks + self.block_in_group(fsblock)) * self.blocksize
    }

    /// The device offset of a filesystem block, in bytes, as a 64-bit
    /// number. A block number beyond any device wraps.
    pub open spec fn fsblock_offset_of(self, fsblock: u64) -> u64 {
        (self.fsblock_byte(fsblock) % 0x1_0000_0000_0000_0000) as u64
    }

    /// Whether this is a version-5 filesystem.
    pub fn is_v5(&self) -> (r: bool)
        ensures
            r == self.v5(),
    {
        self.versionnum % 16 == 5
    }

    /// Bytes in an inode cluster buffer.
    pub fn inode_cluster_bytes(&self) -> (r: u32)
        ensures
            r == self.cluster_bytes,
    {
        self.cluster_bytes
    }

    /// The device offset of filesystem block `fsblock`, in bytes.
    pub fn fsblock_offset(&self, fsblock: u64) -> (r: u64)
        requires
            self.valid(),
        ensures
            r == self.fsblock_offset_of(fsblock),
    {
        let log: u64 = self.agblklog as u64;
        let group: u64 = fsblock >> log;
        proof {
            assert(log < 64 ==> (1u64 << log) >= 1) by (bit_vector);
        }
        let within: u64 = fsblock & ((1u64 << log) - 1);
        let per_group: u128 = self.agblocks as u128;
        let size: u128 = self.blocksize as u128;
        proof {
            assert(group * per_group + within <= 0xFFFF_FFFF_FFFF_FFFF * 0x1_0000_0000)
                by (nonlinear_arith)
                requires
                    group <= 0xFFFF_FFFF_FFFF_FFFF,
                    within <= 0xFFFF_FFFF_FFFF_FFFF,
                    per_group <= 0xFFFF_FFFF,
            ;
            assert(0 <= group * per_group) by (nonlinear_arith);
        }
        let blocks: u128 = group as u128 * per_group + within as u128;
        proof {
            assert(blocks * size <= 0xFFFF_FFFF_FFFF_FFFF * 0x1_0000_0000 * 0xFFFF_FFFF)
                by (nonlinear_arith)
                requires
                    blocks <= 0xFFFF_FFFF_FFFF_FFFF * 0x1_0000_0000,
                    size <= 0xFFFF_FFFF,
            ;
        }
        (blocks * size % 0x1_0000_0000_0000_0000) as u64
    }
}

/// A filesystem block's address in basic blocks, which is the form in which
/// a block records where it lives.
pub open spec fn blkno_of(sb: Superblock, fsblock: u64) -> u64 {
    sb.fsblock_offset_of(fsblock) / BASIC_BLOCK
}

/// The address of filesystem block `fsblock` in 512-byte basic blocks.
pub fn blkno_of_fsblock(sb: &Superblock, fsblock: u64) -> (r: u64)
    requires
        sb.valid(),
    ensures
        r == blkno_of(*sb, fsblock),
{
    sb.fsblock_offset(fsblock) / BASIC_BLOCK
}

/// A filesystem block number is a group and a block within it, the group
/// above as many bits as the geometry says. The block's device offset is
/// that of its group, which has so many blocks, and of the block in it; its
/// address in basic blocks is a 512th of that.
pub proof fn law_block_numbers_are_group_and_block(
    sb: Superblock,
    fsblock: u64,
    group: nat,
    within: nat,
)
    requires
        sb.valid(),
        within < pow2(sb.agblklog as nat),
        fsblock == group * pow2(sb.agblklog as nat) + within,
    ensures
        sb.fsblock_offset_of(fsblock) == ((group * sb.agblocks + within) * sb.blocksize)
            % 0x1_0000_0000_0000_0000,
        blkno_of(sb, fsblock) == sb.fsblock_offset_of(fsblock) as int / 512,
{
    let log = sb.agblklog as nat;
    let p = pow2(log);
    lemma_pow2_pos(log);
    lemma_u64_pow2_no_overflow(log);
    lemma_u64_shr_is_div(fsblock, log as u64);
    lemma_u64_shl_is_mul(1, log as u64);
    lemma_u64_low_bits_mask_is_mod(fsblock, log);
    lemma_fundamental_div_mod_converse(fsblock as int, p as int, group as int, within as int);
    assert(((1u64 << (log as u64)) - 1) as u64 == low_bits_mask(log) as u64);
    assert(sb.group_of(fsblock) == group);
    assert(sb.block_in_group(fsblock) == within);
}

/// A filesystem is of version 5 if the low four bits of its version say so.
pub proof fn law_version_is_in_the_low_bits(sb: Superblock)
    ensures
        sb.v5() <==> sb.versionnum as int % 16 == 5,
{
}

} // verus!
