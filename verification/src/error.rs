//! What the driver refuses, and why.
//!
//! A refusal carries the numbers that led to it, so a caller can tell two
//! refusals apart without parsing text. [`Error::to_string`] puts them into
//! a sentence.

use vstd::prelude::*;
use vstd::string::StringExecFns;
use crate::text::{decimal, hexadecimal, push_decimal, push_hexadecimal};

verus! {

/// A structure that identifies itself, and which of its identities was
/// being checked.
#[derive(Debug, Clone, Copy, PartialEq, Eq)]
pub enum What {
    /// A block-map block as a whole.
    BmbtBlock,
    /// The inode a block-map block says it belongs to.
    BmbtBlockOwner,
    /// The address a block-map block says it lives at.
    BmbtBlockAddress,
}

/// Why a block, or an in-inode root, is not what it was taken for.
#[derive(Debug, Clone, Copy, PartialEq, Eq)]
pub enum BlockFault {
    /// A data fork too short for a block-map root.
    RootTooShort { ino: u64, len: usize },
    /// A block-map root that claims to be a leaf.
    RootIsLeaf { ino: u64 },
    /// A block-map root that claims more levels than there can be.
    RootTooDeep { ino: u64, level: u16 },
    /// A block-map root that claims more records than it has room for.
    RootOverfull { ino: u64, numrecs: u16, maxrecs: usize },
    /// A block shorter than its own header.
    BlockTooShort { ino: u64, fsblock: u64, len: usize, header: usize },
    /// A block without the magic of its kind.
    BlockMagic { ino: u64, fsblock: u64, magic: u32, want: u32 },
    /// A block at another depth than its parent says.
    BlockLevel { ino: u64, fsblock: u64, level: u16, expected: u16 },
    /// A block that claims more records than it has room for.
    BlockOverfull { ino: u64, fsblock: u64, numrecs: u16, maxrecs: usize },
    /// A pointer array that runs past the end of its block.
    PointersBeyondBlock { ino: u64, source: u64, end: usize, len: usize },
    /// A record array that runs past the end of its block.
    RecordsBeyondBlock { ino: u64, source: u64, end: usize, numrecs: u16, len: usize },
    /// A walk that visited more blocks than the extent count can justify.
    WalkOverBudget { ino: u64, nextents: u64 },
    /// A tree that holds another number of extents than its inode records.
    ExtentCount { ino: u64, found: usize, nextents: u64 },
    /// A block of a kind whose checksum layout is not known.
    UnknownChecksumKind { blkno: u64, magic: u32 },
}

/// Why a log item is malformed.
#[derive(Debug, Clone, Copy, PartialEq, Eq)]
pub enum LogFault {
    /// A buffer item's format operation is shorter than its header.
    BufferHeaderShort { len: usize },
    /// A buffer item's format operation does not hold the bitmap it claims.
    BufferMapShort { words: u32, need: u64, len: usize },
    /// A buffer item's address is negative.
    BufferAddress { blkno: u64 },
    /// A buffer item claims another number of operations than its bitmap
    /// has runs for.
    BufferRunCount { size: u16, runs: usize },
    /// A buffer item claims more operations than there are.
    BufferTruncated { size: u16, remain: usize },
    /// A buffer item's data operations carry another number of bytes than
    /// its bitmap covers.
    BufferByteCount { declared: u64, actual: u128 },
    /// One data operation has another length than its run.
    BufferRunLength { index: usize, len: usize, run: u64 },
    /// A buffer item's run reaches past the end of the block.
    RunBeyondBlock { start: u64, end: u64, len: usize },
    /// An item's address, in bytes, does not fit a device address.
    AddressBeyondDevice { blkno: u64 },
    /// An inode item's format operation is shorter than its header.
    InodeHeaderShort { len: usize },
    /// An inode item claims too few operations to include its core.
    InodeNoCore { size: u16 },
    /// An inode item claims more operations than there are.
    InodeTruncated { size: u16, remain: usize },
    /// An inode item does not log the core.
    InodeCoreNotLogged { fields: u32 },
    /// An inode item's buffer length is outside what the geometry allows.
    InodeBufferLength { ino: u64, cluster: u64, inodesize: u16, max: u32 },
    /// An inode item's offset is not an inode slot of its buffer.
    InodeOffset { ino: u64, boff: u32, cluster: u64, inodesize: u16 },
    /// A logged core is too short to be a version-3 core.
    CoreShort { ino: u64, len: usize },
    /// A core does not fit the inode it is for.
    CoreTooLarge { len: usize, inodesize: u16 },
    /// An inode item lands on another inode.
    SlotTaken { ino: u64, here: u64, boff: u32, blkno: u64 },
}

/// What is not implemented, or not allowed.
#[derive(Debug, Clone, Copy, PartialEq, Eq)]
pub enum Unsupported {
    /// An inode item logs a fork beside its core.
    ForkLogged { fork: u32 },
    /// An inode item logs a core of a version that has no checksum.
    CoreVersion { ino: u64, version: u8 },
    /// A log item of an unknown type.
    UnknownItem { kind: u16, at: usize },
    /// A checkpoint larger than one record.
    RecordTooLarge { len: usize, max: usize },
    /// A checkpoint that would cross the end of the log.
    RecordPastWrap { blocks: usize, free: u32 },
    /// An inode core that has no logged form.
    CoreNotLoggable { ino: u64, why: &'static str },
    /// A second checkpoint on one mount.
    SecondCheckpoint,
}

/// A refusal.
#[derive(Debug, PartialEq, Eq)]
pub enum Error {
    /// A malformed or truncated log item.
    CorruptLog(LogFault),
    /// Something this driver does not do.
    UnsupportedFeature(Unsupported),
    /// A structure that is not what it was taken for.
    BadSuperblock(BlockFault),
    /// A block whose stored checksum is not the one its bytes have.
    ChecksumMismatch { what: What, block: u64 },
    /// A block that says it is another one.
    BlockIdentityMismatch { what: What, expected: u64, found: u64 },
    /// A write through a mount that is read-only.
    ReadOnly,
    /// A read that reaches past the end of what is there.
    ShortRead { offset: u64, want: usize, got: usize },
    /// The device's own refusal, in its words.
    Io(String),
}

impl BlockFault {
    /// The sentence that states this refusal.
    pub open spec fn message(self) -> Seq<char> {
        match self {
            BlockFault::RootTooShort { ino, len } => "inode "@ + decimal(ino as nat) + ": data fork holds "@ + decimal(len as nat) + " bytes, too few for a bmbt root"@,
            BlockFault::RootIsLeaf { ino } => "inode "@ + decimal(ino as nat) + ": bmbt root claims level 0, which would be an inline extent list"@,
            BlockFault::RootTooDeep { ino, level } => "inode "@ + decimal(ino as nat) + ": bmbt root claims level "@ + decimal(level as nat) + ", beyond the 9-level maximum"@,
            BlockFault::RootOverfull { ino, numrecs, maxrecs } => "inode "@ + decimal(ino as nat) + ": bmbt root claims "@ + decimal(numrecs as nat) + " records but has room for "@ + decimal(maxrecs as nat),
            BlockFault::BlockTooShort { ino, fsblock, len, header } => "inode "@ + decimal(ino as nat) + ": bmbt block "@ + decimal(fsblock as nat) + " is "@ + decimal(len as nat) + " bytes, shorter than its "@ + decimal(header as nat) + "-byte header"@,
            BlockFault::BlockMagic { ino, fsblock, magic, want } => "inode "@ + decimal(ino as nat) + ": bmbt block "@ + decimal(fsblock as nat) + " has magic 0x"@ + hexadecimal(magic as nat, 8) + ", expected 0x"@ + hexadecimal(want as nat, 8),
            BlockFault::BlockLevel { ino, fsblock, level, expected } => "inode "@ + decimal(ino as nat) + ": bmbt block "@ + decimal(fsblock as nat) + " is at level "@ + decimal(level as nat) + ", but its parent points to it as level "@ + decimal(expected as nat),
            BlockFault::BlockOverfull { ino, fsblock, numrecs, maxrecs } => "inode "@ + decimal(ino as nat) + ": bmbt block "@ + decimal(fsblock as nat) + " claims "@ + decimal(numrecs as nat) + " records but has room for "@ + decimal(maxrecs as nat),
            BlockFault::PointersBeyondBlock { ino, source, end, len } => "inode "@ + decimal(ino as nat) + ": bmbt block "@ + decimal(source as nat) + " needs "@ + decimal(end as nat) + " bytes for its pointer array but is only "@ + decimal(len as nat) + " long"@,
            BlockFault::RecordsBeyondBlock { ino, source, end, numrecs, len } => "inode "@ + decimal(ino as nat) + ": bmbt leaf "@ + decimal(source as nat) + " needs "@ + decimal(end as nat) + " bytes for its "@ + decimal(numrecs as nat) + " records but is only "@ + decimal(len as nat) + " long"@,
            BlockFault::WalkOverBudget { ino, nextents } => "inode "@ + decimal(ino as nat) + ": bmbt walk visited more blocks than "@ + decimal(nextents as nat) + " extents can justify; the tree is cyclic or its extent count is wrong"@,
            BlockFault::ExtentCount { ino, found, nextents } => "inode "@ + decimal(ino as nat) + ": bmbt holds "@ + decimal(found as nat) + " extents but the inode records "@ + decimal(nextents as nat),
            BlockFault::UnknownChecksumKind { blkno, magic } => "block at device address "@ + decimal(blkno as nat) + " (magic 0x"@ + hexadecimal(magic as nat, 8) + ") is not a kind whose checksum this step knows; refusing rather than leave it with a stale CRC"@,
        }
    }

    /// State this refusal in a sentence.
    pub fn to_string(&self) -> (r: String)
        ensures
            r@ == self.message(),
    {
        match self {
            BlockFault::RootTooShort { ino, len } => {
                let mut s = String::from_str("inode ");
                push_decimal(&mut s, *ino as u128);
                s.append(": data fork holds ");
                push_decimal(&mut s, *len as u128);
                s.append(" bytes, too few for a bmbt root");
                s
            },
            BlockFault::RootIsLeaf { ino } => {
                let mut s = String::from_str("inode ");
                push_decimal(&mut s, *ino as u128);
                s.append(": bmbt root claims level 0, which would be an inline extent list");
                s
            },
            BlockFault::RootTooDeep { ino, level } => {
                let mut s = String::from_str("inode ");
                push_decimal(&mut s, *ino as u128);
                s.append(": bmbt root claims level ");
                push_decimal(&mut s, *level as u128);
                s.append(", beyond the 9-level maximum");
                s
            },
            BlockFault::RootOverfull { ino, numrecs, maxrecs } => {
                let mut s = String::from_str("inode ");
                push_decimal(&mut s, *ino as u128);
                s.append(": bmbt root claims ");
                push_decimal(&mut s, *numrecs as u128);
                s.append(" records but has room for ");
                push_decimal(&mut s, *maxrecs as u128);
                s
            },
            BlockFault::BlockTooShort { ino, fsblock, len, header } => {
                let mut s = String::from_str("inode ");
                push_decimal(&mut s, *ino as u128);
                s.append(": bmbt block ");
                push_decimal(&mut s, *fsblock as u128);
                s.append(" is ");
                push_decimal(&mut s, *len as u128);
                s.append(" bytes, shorter than its ");
                push_decimal(&mut s, *header as u128);
                s.append("-byte header");
                s
            },
            BlockFault::BlockMagic { ino, fsblock, magic, want } => {
                let mut s = String::from_str("inode ");
                push_decimal(&mut s, *ino as u128);
                s.append(": bmbt block ");
                push_decimal(&mut s, *fsblock as u128);
                s.append(" has magic 0x");
                push_hexadecimal(&mut s, *magic as u64, 8);
                s.append(", expected 0x");
                push_hexadecimal(&mut s, *want as u64, 8);
                s
            },
            BlockFault::BlockLevel { ino, fsblock, level, expected } => {
                let mut s = String::from_str("inode ");
                push_decimal(&mut s, *ino as u128);
                s.append(": bmbt block ");
                push_decimal(&mut s, *fsblock as u128);
                s.append(" is at level ");
                push_decimal(&mut s, *level as u128);
                s.append(", but its parent points to it as level ");
                push_decimal(&mut s, *expected as u128);
                s
            },
            BlockFault::BlockOverfull { ino, fsblock, numrecs, maxrecs } => {
                let mut s = String::from_str("inode ");
                push_decimal(&mut s, *ino as u128);
                s.append(": bmbt block ");
                push_decimal(&mut s, *fsblock as u128);
                s.append(" claims ");
                push_decimal(&mut s, *numrecs as u128);
                s.append(" records but has room for ");
                push_decimal(&mut s, *maxrecs as u128);
                s
            },
            BlockFault::PointersBeyondBlock { ino, source, end, len } => {
                let mut s = String::from_str("inode ");
                push_decimal(&mut s, *ino as u128);
                s.append(": bmbt block ");
                push_decimal(&mut s, *source as u128);
                s.append(" needs ");
                push_decimal(&mut s, *end as u128);
                s.append(" bytes for its pointer array but is only ");
                push_decimal(&mut s, *len as u128);
                s.append(" long");
                s
            },
            BlockFault::RecordsBeyondBlock { ino, source, end, numrecs, len } => {
                let mut s = String::from_str("inode ");
                push_decimal(&mut s, *ino as u128);
                s.append(": bmbt leaf ");
                push_decimal(&mut s, *source as u128);
                s.append(" needs ");
                push_decimal(&mut s, *end as u128);
                s.append(" bytes for its ");
                push_decimal(&mut s, *numrecs as u128);
                s.append(" records but is only ");
                push_decimal(&mut s, *len as u128);
                s.append(" long");
                s
            },
            BlockFault::WalkOverBudget { ino, nextents } => {
                let mut s = String::from_str("inode ");
                push_decimal(&mut s, *ino as u128);
                s.append(": bmbt walk visited more blocks than ");
                push_decimal(&mut s, *nextents as u128);
                s.append(" extents can justify; the tree is cyclic or its extent count is wrong");
                s
            },
            BlockFault::ExtentCount { ino, found, nextents } => {
                let mut s = String::from_str("inode ");
                push_decimal(&mut s, *ino as u128);
                s.append(": bmbt holds ");
                push_decimal(&mut s, *found as u128);
                s.append(" extents but the inode records ");
                push_decimal(&mut s, *nextents as u128);
                s
            },
            BlockFault::UnknownChecksumKind { blkno, magic } => {
                let mut s = String::from_str("block at device address ");
                push_decimal(&mut s, *blkno as u128);
                s.append(" (magic 0x");
                push_hexadecimal(&mut s, *magic as u64, 8);
                s.append(") is not a kind whose checksum this step knows; refusing rather than leave it with a stale CRC");
                s
            },
        }
    }
}

/// How many of an item's operations are not its format.
pub open spec fn data_operations(size: u16) -> int {
    if size == 0 {
        0
    } else {
        size - 1
    }
}

impl LogFault {
    /// The sentence that states this refusal.
    pub open spec fn message(self) -> Seq<char> {
        match self {
            LogFault::BufferHeaderShort { len } => "a buffer item's format operation is "@ + decimal(len as nat) + " bytes, shorter than the 20-byte header"@,
            LogFault::BufferMapShort { words, need, len } => "a buffer item with a "@ + decimal(words as nat) + "-word bitmap needs "@ + decimal(need as nat) + " bytes and has "@ + decimal(len as nat),
            LogFault::BufferAddress { blkno } => "a buffer item names device address "@ + decimal(blkno as nat) + ", which is not a positive block number"@,
            LogFault::BufferRunCount { size, runs } => "a buffer item claims "@ + decimal(size as nat) + " operations, which is "@ + decimal(
                data_operations(size) as nat,
            ) + " data operations, and its bitmap has "@ + decimal(runs as nat) + " runs"@,
            LogFault::BufferTruncated { size, remain } => "a buffer item needs "@ + decimal(size as nat) + " operations and only "@ + decimal(remain as nat) + " remain"@,
            LogFault::BufferByteCount { declared, actual } => "a buffer item's bitmap covers "@ + decimal(declared as nat) + " bytes and its data operations carry "@ + decimal(actual as nat),
            LogFault::BufferRunLength { index, len, run } => "data operation "@ + decimal(index as nat) + " is "@ + decimal(len as nat) + " bytes for a run of "@ + decimal(run as nat),
            LogFault::RunBeyondBlock { start, end, len } => "a buffer item wants bytes "@ + decimal(start as nat) + ".."@ + decimal(end as nat) + " of a "@ + decimal(len as nat) + "-byte block"@,
            LogFault::AddressBeyondDevice { blkno } => "a log item names basic block "@ + decimal(blkno as nat) + ", which is beyond any device"@,
            LogFault::InodeHeaderShort { len } => "an inode item's format operation is "@ + decimal(len as nat) + " bytes, shorter than the 56-byte header"@,
            LogFault::InodeNoCore { size } => "an inode item claims "@ + decimal(size as nat) + " operations, which cannot include its core"@,
            LogFault::InodeTruncated { size, remain } => "an inode item needs "@ + decimal(size as nat) + " operations and only "@ + decimal(remain as nat) + " remain"@,
            LogFault::InodeCoreNotLogged { fields } => "an inode item logs fields 0x"@ + hexadecimal(fields as nat, 8) + " without XFS_ILOG_CORE, so there is no core to apply"@,
            LogFault::InodeBufferLength { ino, cluster, inodesize, max } => "an inode item for inode "@ + decimal(ino as nat) + " names a "@ + decimal(cluster as nat) + "-byte buffer, outside this geometry's inodesize "@ + decimal(inodesize as nat) + "..cluster "@ + decimal(max as nat),
            LogFault::InodeOffset { ino, boff, cluster, inodesize } => "an inode item puts inode "@ + decimal(ino as nat) + " at offset "@ + decimal(boff as nat) + " of a "@ + decimal(cluster as nat) + "-byte buffer of "@ + decimal(inodesize as nat) + "-byte inodes"@,
            LogFault::CoreShort { ino, len } => "an inode item for inode "@ + decimal(ino as nat) + " carries a "@ + decimal(len as nat) + "-byte core, shorter than a v3 core's 176"@,
            LogFault::CoreTooLarge { len, inodesize } => "a "@ + decimal(len as nat) + "-byte logged core does not fit a "@ + decimal(inodesize as nat) + "-byte inode"@,
            LogFault::SlotTaken { ino, here, boff, blkno } => "an inode item for inode "@ + decimal(ino as nat) + " lands on inode "@ + decimal(here as nat) + " at byte "@ + decimal(boff as nat) + " of buffer block "@ + decimal(blkno as nat),
        }
    }

    /// State this refusal in a sentence.
    pub fn to_string(&self) -> (r: String)
        ensures
            r@ == self.message(),
    {
        match self {
            LogFault::BufferHeaderShort { len } => {
                let mut s = String::from_str("a buffer item's format operation is ");
                push_decimal(&mut s, *len as u128);
                s.append(" bytes, shorter than the 20-byte header");
                s
            },
            LogFault::BufferMapShort { words, need, len } => {
                let mut s = String::from_str("a buffer item with a ");
                push_decimal(&mut s, *words as u128);
                s.append("-word bitmap needs ");
                push_decimal(&mut s, *need as u128);
                s.append(" bytes and has ");
                push_decimal(&mut s, *len as u128);
                s
            },
            LogFault::BufferAddress { blkno } => {
                let mut s = String::from_str("a buffer item names device address ");
                push_decimal(&mut s, *blkno as u128);
                s.append(", which is not a positive block number");
                s
            },
            LogFault::BufferRunCount { size, runs } => {
                let mut s = String::from_str("a buffer item claims ");
                push_decimal(&mut s, *size as u128);
                s.append(" operations, which is ");
                push_decimal(&mut s, if *size == 0 { 0 } else { (*size - 1) as u128 });
                s.append(" data operations, and its bitmap has ");
                push_decimal(&mut s, *runs as u128);
                s.append(" runs");
                s
            },
            LogFault::BufferTruncated { size, remain } => {
                let mut s = String::from_str("a buffer item needs ");
                push_decimal(&mut s, *size as u128);
                s.append(" operations and only ");
                push_decimal(&mut s, *remain as u128);
                s.append(" remain");
                s
            },
            LogFault::BufferByteCount { declared, actual } => {
                let mut s = String::from_str("a buffer item's bitmap covers ");
                push_decimal(&mut s, *declared as u128);
                s.append(" bytes and its data operations carry ");
                push_decimal(&mut s, *actual as u128);
                s
            },
            LogFault::BufferRunLength { index, len, run } => {
                let mut s = String::from_str("data operation ");
                push_decimal(&mut s, *index as u128);
                s.append(" is ");
                push_decimal(&mut s, *len as u128);
                s.append(" bytes for a run of ");
                push_decimal(&mut s, *run as u128);
                s
            },
            LogFault::RunBeyondBlock { start, end, len } => {
                let mut s = String::from_str("a buffer item wants bytes ");
                push_decimal(&mut s, *start as u128);
                s.append("..");
                push_decimal(&mut s, *end as u128);
                s.append(" of a ");
                push_decimal(&mut s, *len as u128);
                s.append("-byte block");
                s
            },
            LogFault::AddressBeyondDevice { blkno } => {
                let mut s = String::from_str("a log item names basic block ");
                push_decimal(&mut s, *blkno as u128);
                s.append(", which is beyond any device");
                s
            },
            LogFault::InodeHeaderShort { len } => {
                let mut s = String::from_str("an inode item's format operation is ");
                push_decimal(&mut s, *len as u128);
                s.append(" bytes, shorter than the 56-byte header");
                s
            },
            LogFault::InodeNoCore { size } => {
                let mut s = String::from_str("an inode item claims ");
                push_decimal(&mut s, *size as u128);
                s.append(" operations, which cannot include its core");
                s
            },
            LogFault::InodeTruncated { size, remain } => {
                let mut s = String::from_str("an inode item needs ");
                push_decimal(&mut s, *size as u128);
                s.append(" operations and only ");
                push_decimal(&mut s, *remain as u128);
                s.append(" remain");
                s
            },
            LogFault::InodeCoreNotLogged { fields } => {
                let mut s = String::from_str("an inode item logs fields 0x");
                push_hexadecimal(&mut s, *fields as u64, 8);
                s.append(" without XFS_ILOG_CORE, so there is no core to apply");
                s
            },
            LogFault::InodeBufferLength { ino, cluster, inodesize, max } => {
                let mut s = String::from_str("an inode item for inode ");
                push_decimal(&mut s, *ino as u128);
                s.append(" names a ");
                push_decimal(&mut s, *cluster as u128);
                s.append("-byte buffer, outside this geometry's inodesize ");
                push_decimal(&mut s, *inodesize as u128);
                s.append("..cluster ");
                push_decimal(&mut s, *max as u128);
                s
            },
            LogFault::InodeOffset { ino, boff, cluster, inodesize } => {
                let mut s = String::from_str("an inode item puts inode ");
                push_decimal(&mut s, *ino as u128);
                s.append(" at offset ");
                push_decimal(&mut s, *boff as u128);
                s.append(" of a ");
                push_decimal(&mut s, *cluster as u128);
                s.append("-byte buffer of ");
                push_decimal(&mut s, *inodesize as u128);
                s.append("-byte inodes");
                s
            },
            LogFault::CoreShort { ino, len } => {
                let mut s = String::from_str("an inode item for inode ");
                push_decimal(&mut s, *ino as u128);
                s.append(" carries a ");
                push_decimal(&mut s, *len as u128);
                s.append("-byte core, shorter than a v3 core's 176");
                s
            },
            LogFault::CoreTooLarge { len, inodesize } => {
                let mut s = String::from_str("a ");
                push_decimal(&mut s, *len as u128);
                s.append("-byte logged core does not fit a ");
                push_decimal(&mut s, *inodesize as u128);
                s.append("-byte inode");
                s
            },
            LogFault::SlotTaken { ino, here, boff, blkno } => {
                let mut s = String::from_str("an inode item for inode ");
                push_decimal(&mut s, *ino as u128);
                s.append(" lands on inode ");
                push_decimal(&mut s, *here as u128);
                s.append(" at byte ");
                push_decimal(&mut s, *boff as u128);
                s.append(" of buffer block ");
                push_decimal(&mut s, *blkno as u128);
                s
            },
        }
    }
}

impl Unsupported {
    /// The sentence that states this refusal.
    pub open spec fn message(self) -> Seq<char> {
        match self {
            Unsupported::ForkLogged { fork } => "an inode item logging a data or attribute fork (0x"@ + hexadecimal(fork as nat, 8) + ") is not applied; only the core is, and the fork's bytes would have to land at di_forkoff"@,
            Unsupported::CoreVersion { ino, version } => "an inode item for inode "@ + decimal(ino as nat) + " logs version "@ + decimal(version as nat) + ", which this step cannot write back"@,
            Unsupported::UnknownItem { kind, at } => "unrecognised log item type 0x"@ + hexadecimal(kind as nat, 4) + " at operation "@ + decimal(at as nat),
            Unsupported::RecordTooLarge { len, max } => "the checkpoint is "@ + decimal(len as nat) + " bytes and the log's records hold at most "@ + decimal(max as nat) + "; splitting one across records is not implemented"@,
            Unsupported::RecordPastWrap { blocks, free } => "the checkpoint needs "@ + decimal(blocks as nat) + " basic blocks and only "@ + decimal(free as nat) + " remain before the log wraps; writing across the wrap is not implemented"@,
            Unsupported::CoreNotLoggable { ino, why } => "inode "@ + decimal(ino as nat) + " cannot be logged: "@ + why@,
            Unsupported::SecondCheckpoint => "this mount has already written a checkpoint, which nothing has replayed yet"@,
        }
    }

    /// State this refusal in a sentence.
    pub fn to_string(&self) -> (r: String)
        ensures
            r@ == self.message(),
    {
        match self {
            Unsupported::ForkLogged { fork } => {
                let mut s = String::from_str("an inode item logging a data or attribute fork (0x");
                push_hexadecimal(&mut s, *fork as u64, 8);
                s.append(") is not applied; only the core is, and the fork's bytes would have to land at di_forkoff");
                s
            },
            Unsupported::CoreVersion { ino, version } => {
                let mut s = String::from_str("an inode item for inode ");
                push_decimal(&mut s, *ino as u128);
                s.append(" logs version ");
                push_decimal(&mut s, *version as u128);
                s.append(", which this step cannot write back");
                s
            },
            Unsupported::UnknownItem { kind, at } => {
                let mut s = String::from_str("unrecognised log item type 0x");
                push_hexadecimal(&mut s, *kind as u64, 4);
                s.append(" at operation ");
                push_decimal(&mut s, *at as u128);
                s
            },
            Unsupported::RecordTooLarge { len, max } => {
                let mut s = String::from_str("the checkpoint is ");
                push_decimal(&mut s, *len as u128);
                s.append(" bytes and the log's records hold at most ");
                push_decimal(&mut s, *max as u128);
                s.append("; splitting one across records is not implemented");
                s
            },
            Unsupported::RecordPastWrap { blocks, free } => {
                let mut s = String::from_str("the checkpoint needs ");
                push_decimal(&mut s, *blocks as u128);
                s.append(" basic blocks and only ");
                push_decimal(&mut s, *free as u128);
                s.append(" remain before the log wraps; writing across the wrap is not implemented");
                s
            },
            Unsupported::CoreNotLoggable { ino, why } => {
                let mut s = String::from_str("inode ");
                push_decimal(&mut s, *ino as u128);
                s.append(" cannot be logged: ");
                s.append(why);
                s
            },
            Unsupported::SecondCheckpoint => {
                String::from_str("this mount has already written a checkpoint, which nothing has replayed yet")
            },
        }
    }
}

impl What {
    /// What the structure is called.
    pub open spec fn name(self) -> Seq<char> {
        match self {
            What::BmbtBlock => "bmbt block"@,
            What::BmbtBlockOwner => "bmbt block owner"@,
            What::BmbtBlockAddress => "bmbt block address"@,
        }
    }

    /// What the structure is called.
    pub fn as_str(&self) -> (r: &'static str)
        ensures
            r@ == self.name(),
    {
        match self {
            What::BmbtBlock => "bmbt block",
            What::BmbtBlockOwner => "bmbt block owner",
            What::BmbtBlockAddress => "bmbt block address",
        }
    }
}

impl Error {
    /// The sentence that states this refusal.
    pub open spec fn message(self) -> Seq<char> {
        match self {
            Error::CorruptLog(fault) => fault.message(),
            Error::UnsupportedFeature(what) => what.message(),
            Error::BadSuperblock(fault) => fault.message(),
            Error::ChecksumMismatch { what, block } => what.name() + " at block "@ + decimal(
                block as nat,
            ) + " does not match its CRC32C checksum"@,
            Error::BlockIdentityMismatch { what, expected, found } => what.name() + ": expected "@
                + decimal(expected as nat) + ", found "@ + decimal(found as nat),
            Error::ReadOnly => "the filesystem is mounted read-only"@,
            Error::ShortRead { offset, want, got } => "short read at "@ + decimal(offset as nat)
                + ": wanted "@ + decimal(want as nat) + " got "@ + decimal(got as nat),
            Error::Io(words) => words@,
        }
    }

    /// State this refusal in a sentence.
    pub fn to_string(&self) -> (r: String)
        ensures
            r@ == self.message(),
    {
        match self {
            Error::CorruptLog(fault) => fault.to_string(),
            Error::UnsupportedFeature(what) => what.to_string(),
            Error::BadSuperblock(fault) => fault.to_string(),
            Error::ChecksumMismatch { what, block } => {
                let mut s = String::from_str(what.as_str());
                s.append(" at block ");
                push_decimal(&mut s, *block as u128);
                s.append(" does not match its CRC32C checksum");
                s
            },
            Error::BlockIdentityMismatch { what, expected, found } => {
                let mut s = String::from_str(what.as_str());
                s.append(": expected ");
                push_decimal(&mut s, *expected as u128);
                s.append(", found ");
                push_decimal(&mut s, *found as u128);
                s
            },
            Error::ReadOnly => String::from_str("the filesystem is mounted read-only"),
            Error::ShortRead { offset, want, got } => {
                let mut s = String::from_str("short read at ");
                push_decimal(&mut s, *offset as u128);
                s.append(": wanted ");
                push_decimal(&mut s, *want as u128);
                s.append(" got ");
                push_decimal(&mut s, *got as u128);
                s
            },
            Error::Io(words) => words.clone(),
        }
    }
}

} // verus!
