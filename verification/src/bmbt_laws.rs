//! What a block-map tree's nodes are read as, in terms of their bytes.

use vstd::prelude::*;
use crate::bmbt::{
    answers, block_budget, block_in, law_walk_is_bounded, pointers_in, records_in, root_in,
    visited, walk_end, walk_start, Node, WalkState,
};
use crate::checksum::{law_only_the_field_is_zeroed, with_zeroed_crc};
use crate::endian::{be16_at, be32_at, be64_at};
use crate::error::{BlockFault, Error, What};
use crate::extent::{big_endian_16, law_list_yields_every_record_in_order, packed, Extent};
use crate::kind_laws::verifies;
use crate::superblock::{blkno_of, Superblock};

verus! {

/// A data fork holds a root exactly if there are four bytes for its header,
/// the level at byte 0 is one to nine, and there is room for the records
/// that are counted at byte 2, each of which takes 16 bytes. Otherwise the
/// refusal says what is wrong first.
pub proof fn law_root_is_what_the_fork_says(fork: Seq<u8>, ino: u64)
    requires
        fork.len() <= usize::MAX,
    ensures
        ({
            let level = be16_at(fork, 0);
            let numrecs = be16_at(fork, 2);
            let room = (fork.len() - 4) / 16;
            let r = root_in(fork, ino);
            &&& fork.len() < 4 ==> r == Err::<Node, Error>(
                Error::BadSuperblock(BlockFault::RootTooShort { ino, len: fork.len() as usize }),
            )
            &&& fork.len() >= 4 && level == 0 ==> r == Err::<Node, Error>(
                Error::BadSuperblock(BlockFault::RootIsLeaf { ino }),
            )
            &&& fork.len() >= 4 && level > 9 ==> r == Err::<Node, Error>(
                Error::BadSuperblock(BlockFault::RootTooDeep { ino, level }),
            )
            &&& fork.len() >= 4 && 1 <= level <= 9 && numrecs > room ==> r == Err::<Node, Error>(
                Error::BadSuperblock(
                    BlockFault::RootOverfull { ino, numrecs, maxrecs: room as usize },
                ),
            )
            &&& fork.len() >= 4 && 1 <= level <= 9 && numrecs <= room ==> r == Ok::<Node, Error>(
                Node { level, numrecs, body: 4, maxrecs: room as usize },
            )
        }),
{
}

/// Whether a version-5 block says that it is of this filesystem, this inode
/// and this address, under a checksum that verifies: the checksum at byte
/// 64, over the whole block, the UUID at 40, the inode at 56 and the
/// address in basic blocks at 24.
pub open spec fn says_it_belongs(buf: Seq<u8>, sb: Superblock, ino: u64, fsblock: u64) -> bool {
    &&& verifies(buf, 64, buf.len() as int)
    &&& buf.subrange(40, 56) == sb.meta_uuid@
    &&& be64_at(buf, 56) == ino
    &&& be64_at(buf, 24) == blkno_of(sb, fsblock)
}

/// A block is taken into the walk exactly if it has its header, which is 72
/// bytes on version 5 and 24 before, opens with "BMA3" or "BMAP", says on
/// version 5 that it belongs here, is at the level at which its parent has
/// it, by byte 4, and has room for the records that are counted at byte 6.
#[verifier::rlimit(40)]
pub proof fn law_block_is_of_the_tree_or_refused(
    buf: Seq<u8>,
    sb: Superblock,
    ino: u64,
    fsblock: u64,
    level: u16,
)
    requires
        buf.len() <= usize::MAX,
    ensures
        ({
            let v5 = sb.versionnum as int % 16 == 5;
            let header = if v5 {
                72int
            } else {
                24
            };
            let want = if v5 {
                0x424d_4133u32
            } else {
                0x424d_4150
            };
            let magic = be32_at(buf, 0);
            let here = be16_at(buf, 4);
            let numrecs = be16_at(buf, 6);
            let room = (buf.len() - header) / 16;
            let r = block_in(buf, sb, ino, fsblock, level);
            let opens = buf.len() >= header && magic == want;
            let belongs = opens && (v5 ==> says_it_belongs(buf, sb, ino, fsblock));
            &&& r is Ok <==> belongs && here == level && numrecs <= room
            &&& r is Ok ==> r == Ok::<Node, Error>(
                Node { level, numrecs, body: header as usize, maxrecs: room as usize },
            )
            &&& buf.len() < header ==> r == Err::<Node, Error>(
                Error::BadSuperblock(
                    BlockFault::BlockTooShort {
                        ino,
                        fsblock,
                        len: buf.len() as usize,
                        header: header as usize,
                    },
                ),
            )
            &&& buf.len() >= header && magic != want ==> r == Err::<Node, Error>(
                Error::BadSuperblock(BlockFault::BlockMagic { ino, fsblock, magic, want }),
            )
            &&& belongs && here != level ==> r == Err::<Node, Error>(
                Error::BadSuperblock(
                    BlockFault::BlockLevel { ino, fsblock, level: here, expected: level },
                ),
            )
            &&& belongs && here == level && numrecs > room ==> r == Err::<Node, Error>(
                Error::BadSuperblock(
                    BlockFault::BlockOverfull { ino, fsblock, numrecs, maxrecs: room as usize },
                ),
            )
            &&& opens && v5 && !verifies(buf, 64, buf.len() as int) ==> r == Err::<Node, Error>(
                Error::ChecksumMismatch { what: What::BmbtBlock, block: fsblock },
            )
            &&& opens && v5 && verifies(buf, 64, buf.len() as int) && buf.subrange(40, 56)
                != sb.meta_uuid@ ==> r == Err::<Node, Error>(
                Error::BlockIdentityMismatch {
                    what: What::BmbtBlock,
                    expected: fsblock,
                    found: u64::MAX,
                },
            )
            &&& opens && v5 && verifies(buf, 64, buf.len() as int) && buf.subrange(40, 56)
                == sb.meta_uuid@ && be64_at(buf, 56) != ino ==> r == Err::<Node, Error>(
                Error::BlockIdentityMismatch {
                    what: What::BmbtBlockOwner,
                    expected: ino,
                    found: be64_at(buf, 56),
                },
            )
            &&& opens && v5 && verifies(buf, 64, buf.len() as int) && buf.subrange(40, 56)
                == sb.meta_uuid@ && be64_at(buf, 56) == ino && be64_at(buf, 24) != blkno_of(
                sb,
                fsblock,
            ) ==> r == Err::<Node, Error>(
                Error::BlockIdentityMismatch {
                    what: What::BmbtBlockAddress,
                    expected: blkno_of(sb, fsblock),
                    found: be64_at(buf, 24),
                },
            )
        }),
{
    let n = buf.len() as int;
    if n >= 72 {
        let whole = Seq::new(
            n as nat,
            |i: int|
                if 64 <= i < 64 + 4 {
                    0u8
                } else {
                    buf[i]
                },
        );
        law_only_the_field_is_zeroed(buf, 64);
        assert(with_zeroed_crc(buf, 64) =~= whole);
    }
}

/// A node's pointers are 64 bits each, one behind the other from where the
/// room for all the keys it could hold ends, which take as much room as the
/// pointers; as many are read as there are records. If they are not all
/// there, none is.
pub proof fn law_pointers_stand_behind_the_room_for_keys(
    buf: Seq<u8>,
    node: Node,
    ino: u64,
    source: u64,
)
    ensures
        ({
            let first = node.body + 8 * node.maxrecs;
            let end = first + 8 * node.numrecs;
            let r = pointers_in(buf, node, ino, source);
            &&& end <= buf.len() ==> {
                &&& r matches Ok(ptrs)
                &&& ptrs.len() == node.numrecs
                &&& forall|i: int|
                    0 <= i < ptrs.len() ==> #[trigger] ptrs[i] == be64_at(buf, first + 8 * i)
            }
            &&& end > buf.len() ==> r == Err::<Seq<u64>, Error>(
                Error::BadSuperblock(
                    BlockFault::PointersBeyondBlock {
                        ino,
                        source,
                        end: end as usize,
                        len: buf.len() as usize,
                    },
                ),
            )
        }),
{
}

/// A leaf yields its records from the first to the last: the `k`th extent is
/// what the 16 bytes at 16 times `k` behind its header are, for as many
/// records as there are. If they are not all there, none is.
pub proof fn law_leaf_yields_its_records_in_order(
    buf: Seq<u8>,
    node: Node,
    ino: u64,
    source: u64,
    k: int,
)
    ensures
        ({
            let end = node.body + 16 * node.numrecs;
            let r = records_in(buf, node, ino, source);
            &&& end <= buf.len() ==> {
                &&& r matches Ok(found)
                &&& found.len() == node.numrecs
                &&& 0 <= k < node.numrecs ==> {
                    let at = node.body + 16 * k;
                    &&& packed(found[k]) == big_endian_16(buf.subrange(at, at + 16))
                    &&& found[k].startoff < 0x40_0000_0000_0000
                    &&& found[k].startblock < 0x10_0000_0000_0000
                    &&& found[k].blockcount < 0x20_0000
                }
            }
            &&& end > buf.len() ==> r == Err::<Seq<Extent>, Error>(
                Error::BadSuperblock(
                    BlockFault::RecordsBeyondBlock {
                        ino,
                        source,
                        end: end as usize,
                        numrecs: node.numrecs,
                        len: buf.len() as usize,
                    },
                ),
            )
        }),
{
    let end = node.body + 16 * node.numrecs;
    if end <= buf.len() && 0 <= k < node.numrecs {
        let records = buf.subrange(node.body as int, end);
        let at = node.body + 16 * k;
        law_list_yields_every_record_in_order(records, node.numrecs as nat, k);
        assert(records.subrange(16 * k, 16 * k + 16) =~= buf.subrange(at, at + 16));
    }
}

/// Visiting a leaf adds its records, in order, behind what was found before,
/// and nothing else: the walk goes on where it would have gone on.
#[verifier::rlimit(40)]
pub proof fn law_visiting_a_leaf_adds_its_records(
    st: WalkState,
    buf: Seq<u8>,
    sb: Superblock,
    ino: u64,
    k: int,
)
    requires
        st.stack.len() > 0,
        st.stack.last().1 == 0,
        st.budget > 0,
        buf.len() <= usize::MAX,
    ensures
        visited(st, buf, sb, ino) matches Ok(next) ==> {
            let body = if sb.versionnum as int % 16 == 5 {
                72int
            } else {
                24
            };
            let numrecs = be16_at(buf, 6);
            &&& next.stack == st.stack.drop_last()
            &&& next.budget == st.budget - 1
            &&& next.extents.len() == st.extents.len() + numrecs
            &&& 0 <= k < st.extents.len() ==> next.extents[k] == st.extents[k]
            &&& 0 <= k < numrecs ==> {
                let e = next.extents[st.extents.len() + k];
                &&& packed(e) == big_endian_16(buf.subrange(body + 16 * k, body + 16 * k + 16))
                &&& e.startoff < 0x40_0000_0000_0000
                &&& e.startblock < 0x10_0000_0000_0000
                &&& e.blockcount < 0x20_0000
            }
        },
{
    reveal(visited);
    if let Ok(next) = visited(st, buf, sb, ino) {
        let (fsblock, level) = st.stack.last();
        let node = block_in(buf, sb, ino, fsblock, level)->Ok_0;
        law_leaf_yields_its_records_in_order(buf, node, ino, fsblock, k);
    }
}

/// Visiting a node puts its children, the leftmost first, before everything
/// that was to be visited anyway, one level down.
#[verifier::rlimit(40)]
pub proof fn law_visiting_a_node_goes_down_left_first(
    st: WalkState,
    buf: Seq<u8>,
    sb: Superblock,
    ino: u64,
    k: int,
)
    requires
        st.stack.len() > 0,
        st.stack.last().1 > 0,
        st.budget > 0,
        buf.len() <= usize::MAX,
    ensures
        visited(st, buf, sb, ino) matches Ok(next) ==> {
            let body = if sb.versionnum as int % 16 == 5 {
                72int
            } else {
                24
            };
            let numrecs = be16_at(buf, 6);
            let first = body + (buf.len() - body) / 16 * 8;
            let rest = st.stack.len() - 1;
            &&& next.extents == st.extents
            &&& next.budget == st.budget - 1
            &&& next.stack.len() == rest + numrecs
            &&& 0 <= k < rest ==> next.stack[k] == st.stack[k]
            &&& 0 <= k < numrecs ==> next.stack[next.stack.len() - 1 - k] == (
                be64_at(buf, first + 8 * k),
                (st.stack.last().1 - 1) as u16,
            )
        },
{
    reveal(visited);
    if let Ok(next) = visited(st, buf, sb, ino) {
        let (fsblock, level) = st.stack.last();
        let node = block_in(buf, sb, ino, fsblock, level)->Ok_0;
        law_pointers_stand_behind_the_room_for_keys(buf, node, ino, fsblock);
    }
}

/// A walk starts from the root's pointers, the leftmost first, one level
/// below the root, with nothing found. A refusal of the root is the walk's.
pub proof fn law_walk_starts_at_the_root(fork: Seq<u8>, nextents: u64, ino: u64, k: int)
    requires
        fork.len() <= usize::MAX,
    ensures
        ({
            let r = walk_start(fork, nextents, ino);
            let numrecs = be16_at(fork, 2);
            let first = 4 + (fork.len() - 4) / 16 * 8;
            &&& root_in(fork, ino) is Err <==> r is Err
            &&& root_in(fork, ino) matches Err(e) ==> r == Err::<WalkState, Error>(e)
            &&& r matches Ok(st) ==> {
                &&& st.extents.len() == 0
                &&& st.stack.len() == numrecs
                &&& st.budget == block_budget(nextents)
                &&& 0 <= k < numrecs ==> st.stack[numrecs - 1 - k] == (
                    be64_at(fork, first + 8 * k),
                    (be16_at(fork, 0) - 1) as u16,
                )
            }
        }),
{
    reveal(walk_start);
    if let Ok(root) = root_in(fork, ino) {
        law_pointers_stand_behind_the_room_for_keys(fork, root, ino, 0);
    }
}

/// A walk reads at most twice as many blocks as it would need if every
/// extent had a leaf of its own, with one to spare, and 64 in any case.
pub proof fn law_walk_reads_what_its_count_justifies<F: FnMut(u64) -> Result<Vec<u8>, Error>>(
    read: F,
    fork: Seq<u8>,
    nextents: u64,
    replies: Seq<Result<Vec<u8>, Error>>,
    sb: Superblock,
    ino: u64,
)
    requires
        walk_start(fork, nextents, ino) is Ok,
        answers(read, walk_start(fork, nextents, ino)->Ok_0, replies, sb, ino),
    ensures
        replies.len() <= 64 || replies.len() <= 2 * nextents + 2,
        block_budget(nextents) == if nextents < 31 {
            64int
        } else if nextents < 0x7fff_ffff_ffff_ffff {
            2 * nextents + 2
        } else {
            u64::MAX as int
        },
{
    law_walk_is_bounded(read, fork, nextents, replies, sb, ino);
}

/// A walk that asks for nothing more gives what it found exactly if nothing
/// is left to visit and it found as many extents as it was to find. One
/// that has blocks left was cut short, and one that found another number
/// says which.
pub proof fn law_walk_ends_with_all_or_a_refusal(st: WalkState, nextents: u64, ino: u64)
    ensures
        ({
            let r = walk_end(Ok(st), nextents, ino);
            &&& st.stack.len() == 0 && st.extents.len() == nextents ==> r == Ok::<
                Seq<Extent>,
                Error,
            >(st.extents)
            &&& st.stack.len() > 0 ==> r == Err::<Seq<Extent>, Error>(
                Error::BadSuperblock(BlockFault::WalkOverBudget { ino, nextents }),
            )
            &&& st.stack.len() == 0 && st.extents.len() != nextents ==> r == Err::<
                Seq<Extent>,
                Error,
            >(
                Error::BadSuperblock(
                    BlockFault::ExtentCount { ino, found: st.extents.len() as usize, nextents },
                ),
            )
        }),
{
}

} // verus!
