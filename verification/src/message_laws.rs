//! What a refusal says when it is put into a sentence.

use vstd::prelude::*;
use crate::error::{BlockFault, Error, LogFault, Unsupported, What};
use crate::text::{decimal, hexadecimal};

verus! {

/// A refusal of a block or a root names the inode or the address, and every
/// number that led to it, each in its place.
pub proof fn law_block_faults_say_what_and_where(fault: BlockFault)
    ensures
        match fault {
            BlockFault::RootTooShort { ino, len } => fault.message() ==
                "inode "@
                    + decimal(ino as nat)
                    + ": data fork holds "@
                    + decimal(len as nat)
                    + " bytes, too few for a bmbt root"@,
            BlockFault::RootIsLeaf { ino } => fault.message() ==
                "inode "@
                    + decimal(ino as nat)
                    + ": bmbt root claims level 0, which would be an inline extent list"@,
            BlockFault::RootTooDeep { ino, level } => fault.message() ==
                "inode "@
                    + decimal(ino as nat)
                    + ": bmbt root claims level "@
                    + decimal(level as nat)
                    + ", beyond the 9-level maximum"@,
            BlockFault::RootOverfull { ino, numrecs, maxrecs } => fault.message() ==
                "inode "@
                    + decimal(ino as nat)
                    + ": bmbt root claims "@
                    + decimal(numrecs as nat)
                    + " records but has room for "@
                    + decimal(maxrecs as nat),
            BlockFault::BlockTooShort { ino, fsblock, len, header } => fault.message() ==
                "inode "@
                    + decimal(ino as nat)
                    + ": bmbt block "@
                    + decimal(fsblock as nat)
                    + " is "@
                    + decimal(len as nat)
                    + " bytes, shorter than its "@
                    + decimal(header as nat)
                    + "-byte header"@,
            BlockFault::BlockMagic { ino, fsblock, magic, want } => fault.message() ==
                "inode "@
                    + decimal(ino as nat)
                    + ": bmbt block "@
                    + decimal(fsblock as nat)
                    + " has magic 0x"@
                    + hexadecimal(magic as nat, 8)
                    + ", expected 0x"@
                    + hexadecimal(want as nat, 8),
            BlockFault::BlockLevel { ino, fsblock, level, expected } => fault.message() ==
                "inode "@
                    + decimal(ino as nat)
                    + ": bmbt block "@
                    + decimal(fsblock as nat)
                    + " is at level "@
                    + decimal(level as nat)
                    + ", but its parent points to it as level "@
                    + decimal(expected as nat),
            BlockFault::BlockOverfull { ino, fsblock, numrecs, maxrecs } => fault.message() ==
                "inode "@
                    + decimal(ino as nat)
                    + ": bmbt block "@
                    + decimal(fsblock as nat)
                    + " claims "@
                    + decimal(numrecs as nat)
                    + " records but has room for "@
                    + decimal(maxrecs as nat),
            BlockFault::PointersBeyondBlock { ino, source, end, len } => fault.message() ==
                "inode "@
                    + decimal(ino as nat)
                    + ": bmbt block "@
                    + decimal(source as nat)
                    + " needs "@
                    + decimal(end as nat)
                    + " bytes for its pointer array but is only "@
                    + decimal(len as nat)
                    + " long"@,
            BlockFault::RecordsBeyondBlock { ino, source, end, numrecs, len } => fault.message() ==
                "inode "@
                    + decimal(ino as nat)
                    + ": bmbt leaf "@
                    + decimal(source as nat)
                    + " needs "@
                    + decimal(end as nat)
                    + " bytes for its "@
                    + decimal(numrecs as nat)
                    + " records but is only "@
                    + decimal(len as nat)
                    + " long"@,
            BlockFault::WalkOverBudget { ino, nextents } => fault.message() ==
                "inode "@
                    + decimal(ino as nat)
                    + ": bmbt walk visited more blocks than "@
                    + decimal(nextents as nat)
                    + " extents can justify; the tree is cyclic or its extent count is wrong"@,
            BlockFault::ExtentCount { ino, found, nextents } => fault.message() ==
                "inode "@
                    + decimal(ino as nat)
                    + ": bmbt holds "@
                    + decimal(found as nat)
                    + " extents but the inode records "@
                    + decimal(nextents as nat),
            BlockFault::UnknownChecksumKind { blkno, magic } => fault.message() ==
                "block at device address "@
                    + decimal(blkno as nat)
                    + " (magic 0x"@
                    + hexadecimal(magic as nat, 8)
                    + ") is not a kind whose checksum this step knows; refusing rather than leave it with a stale CRC"@,
        },
{
}

/// A refusal of a log item says what it claims and what is there, each number
/// in its place.
pub proof fn law_log_faults_say_what_is_wrong(fault: LogFault)
    ensures
        match fault {
            LogFault::BufferHeaderShort { len } => fault.message() ==
                "a buffer item's format operation is "@
                    + decimal(len as nat)
                    + " bytes, shorter than the 20-byte header"@,
            LogFault::BufferMapShort { words, need, len } => fault.message() ==
                "a buffer item with a "@
                    + decimal(words as nat)
                    + "-word bitmap needs "@
                    + decimal(need as nat)
                    + " bytes and has "@
                    + decimal(len as nat),
            LogFault::BufferAddress { blkno } => fault.message() ==
                "a buffer item names device address "@
                    + decimal(blkno as nat)
                    + ", which is not a positive block number"@,
            LogFault::BufferRunCount { size, runs } => fault.message() ==
                "a buffer item claims "@
                    + decimal(size as nat)
                    + " operations, which is "@
                    + decimal((if size == 0 { 0int } else { size - 1 }) as nat)
                    + " data operations, and its bitmap has "@
                    + decimal(runs as nat)
                    + " runs"@,
            LogFault::BufferTruncated { size, remain } => fault.message() ==
                "a buffer item needs "@
                    + decimal(size as nat)
                    + " operations and only "@
                    + decimal(remain as nat)
                    + " remain"@,
            LogFault::BufferByteCount { declared, actual } => fault.message() ==
                "a buffer item's bitmap covers "@
                    + decimal(declared as nat)
                    + " bytes and its data operations carry "@
                    + decimal(actual as nat),
            LogFault::BufferRunLength { index, len, run } => fault.message() ==
                "data operation "@
                    + decimal(index as nat)
                    + " is "@
                    + decimal(len as nat)
                    + " bytes for a run of "@
                    + decimal(run as nat),
            LogFault::RunBeyondBlock { start, end, len } => fault.message() ==
                "a buffer item wants bytes "@
                    + decimal(start as nat)
                    + ".."@
                    + decimal(end as nat)
                    + " of a "@
                    + decimal(len as nat)
                    + "-byte block"@,
            LogFault::AddressBeyondDevice { blkno } => fault.message() ==
                "a log item names basic block "@
                    + decimal(blkno as nat)
                    + ", which is beyond any device"@,
            LogFault::InodeHeaderShort { len } => fault.message() ==
                "an inode item's format operation is "@
                    + decimal(len as nat)
                    + " bytes, shorter than the 56-byte header"@,
            LogFault::InodeNoCore { size } => fault.message() ==
                "an inode item claims "@
                    + decimal(size as nat)
                    + " operations, which cannot include its core"@,
            LogFault::InodeTruncated { size, remain } => fault.message() ==
                "an inode item needs "@
                    + decimal(size as nat)
                    + " operations and only "@
                    + decimal(remain as nat)
                    + " remain"@,
            LogFault::InodeCoreNotLogged { fields } => fault.message() ==
                "an inode item logs fields 0x"@
                    + hexadecimal(fields as nat, 8)
                    + " without XFS_ILOG_CORE, so there is no core to apply"@,
            LogFault::InodeBufferLength { ino, cluster, inodesize, max } => fault.message() ==
                "an inode item for inode "@
                    + decimal(ino as nat)
                    + " names a "@
                    + decimal(cluster as nat)
                    + "-byte buffer, outside this geometry's inodesize "@
                    + decimal(inodesize as nat)
                    + "..cluster "@
                    + decimal(max as nat),
            LogFault::InodeOffset { ino, boff, cluster, inodesize } => fault.message() ==
                "an inode item puts inode "@
                    + decimal(ino as nat)
                    + " at offset "@
                    + decimal(boff as nat)
                    + " of a "@
                    + decimal(cluster as nat)
                    + "-byte buffer of "@
                    + decimal(inodesize as nat)
                    + "-byte inodes"@,
            LogFault::CoreShort { ino, len } => fault.message() ==
                "an inode item for inode "@
                    + decimal(ino as nat)
                    + " carries a "@
                    + decimal(len as nat)
                    + "-byte core, shorter than a v3 core's 176"@,
            LogFault::CoreTooLarge { len, inodesize } => fault.message() ==
                "a "@
                    + decimal(len as nat)
                    + "-byte logged core does not fit a "@
                    + decimal(inodesize as nat)
                    + "-byte inode"@,
            LogFault::SlotTaken { ino, here, boff, blkno } => fault.message() ==
                "an inode item for inode "@
                    + decimal(ino as nat)
                    + " lands on inode "@
                    + decimal(here as nat)
                    + " at byte "@
                    + decimal(boff as nat)
                    + " of buffer block "@
                    + decimal(blkno as nat),
        },
{
}

/// What is not done is said, with the numbers that it is about.
pub proof fn law_what_is_not_done_is_said(what: Unsupported)
    ensures
        match what {
            Unsupported::ForkLogged { fork } => what.message() ==
                "an inode item logging a data or attribute fork (0x"@
                    + hexadecimal(fork as nat, 8)
                    + ") is not applied; only the core is, and the fork's bytes would have to land at di_forkoff"@,
            Unsupported::CoreVersion { ino, version } => what.message() ==
                "an inode item for inode "@
                    + decimal(ino as nat)
                    + " logs version "@
                    + decimal(version as nat)
                    + ", which this step cannot write back"@,
            Unsupported::UnknownItem { kind, at } => what.message() ==
                "unrecognised log item type 0x"@
                    + hexadecimal(kind as nat, 4)
                    + " at operation "@
                    + decimal(at as nat),
            Unsupported::RecordTooLarge { len, max } => what.message() ==
                "the checkpoint is "@
                    + decimal(len as nat)
                    + " bytes and the log's records hold at most "@
                    + decimal(max as nat)
                    + "; splitting one across records is not implemented"@,
            Unsupported::RecordPastWrap { blocks, free } => what.message() ==
                "the checkpoint needs "@
                    + decimal(blocks as nat)
                    + " basic blocks and only "@
                    + decimal(free as nat)
                    + " remain before the log wraps; writing across the wrap is not implemented"@,
            Unsupported::CoreNotLoggable { ino, why } => what.message() ==
                "inode "@
                    + decimal(ino as nat)
                    + " cannot be logged: "@
                    + why@,
            Unsupported::SecondCheckpoint => what.message() ==
                "this mount has already written a checkpoint, which nothing has replayed yet"@,
        },
{
}

/// A refusal is stated by what was refused; a block that contradicts itself
/// is named together with what it should say and what it says, and a device
/// speaks for itself.
pub proof fn law_refusals_are_stated(e: Error)
    ensures
        match e {
            Error::CorruptLog(fault) => e.message() == fault.message(),
            Error::UnsupportedFeature(what) => e.message() == what.message(),
            Error::BadSuperblock(fault) => e.message() == fault.message(),
            Error::ChecksumMismatch { what, block } => e.message() == what.name()
                + " at block "@ + decimal(block as nat)
                + " does not match its CRC32C checksum"@,
            Error::BlockIdentityMismatch { what, expected, found } => e.message() == what.name()
                + ": expected "@ + decimal(expected as nat)
                + ", found "@ + decimal(found as nat),
            Error::ReadOnly => e.message() == "the filesystem is mounted read-only"@,
            Error::ShortRead { offset, want, got } => e.message() == "short read at "@
                + decimal(offset as nat)
                + ": wanted "@ + decimal(want as nat)
                + " got "@ + decimal(got as nat),
            Error::Io(words) => e.message() == words@,
        },
        What::BmbtBlock.name() == "bmbt block"@,
        What::BmbtBlockOwner.name() == "bmbt block owner"@,
        What::BmbtBlockAddress.name() == "bmbt block address"@,
{
}

} // verus!
