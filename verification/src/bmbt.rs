//! The block-map B+tree (`bmbt`).
//!
//! A file's data fork holds its extents inline for as long as they fit in
//! the inode. Once they do not, they move into a B+tree and the fork holds
//! that tree's root. The root is stored in a short form with a 4-byte
//! header; every other node is a whole block with a 24-byte header on v4
//! and 72 on v5. The bodies are laid out alike:
//!
//! ```text
//! leaf   (level 0):  [ header ][ rec rec rec ... ]
//! node   (level >0): [ header ][ key key key ... ][ ptr ptr ptr ... ]
//!                              |<-- maxrecs -->|
//! ```
//!
//! The pointers begin after the space reserved for the *maximum* number of
//! keys the node could hold, not after the keys in use.
//!
//! The tree is walked depth first, so that every block can be checked
//! against the parent that led to it before it is believed.

use vstd::prelude::*;
use crate::bytes::same;
use crate::checksum::{crc32c_of, crc32c_with_zeroed_crc, with_zeroed_crc};
use crate::endian::{be16, be16_at, be32, be32_at, be64, be64_at, le32, le32_at, uuid_at};
use crate::error::{BlockFault, Error, What};
use crate::extent::{extents_at, parse_list, Extent, EXTENT_RECORD_SIZE};
use crate::superblock::{blkno_of, blkno_of_fsblock, Superblock};

verus! {

/// "BMAP", the v4 on-disk node.
pub const XFS_BMAP_MAGIC: u32 = 0x424d_4150;

/// "BMA3", the v5 on-disk node.
pub const XFS_BMAP_CRC_MAGIC: u32 = 0x424d_4133;

/// The in-inode root's header: level and numrecs.
pub const ROOT_HEADER_LEN: usize = 4;

/// The v4 block header: magic, level, numrecs, two siblings.
pub const V4_HEADER_LEN: usize = 24;

/// The v5 block header: the v4 fields plus block number, LSN, UUID, owner,
/// CRC and padding.
pub const V5_HEADER_LEN: usize = 72;

/// Bytes in a key.
pub const KEY_LEN: usize = 8;

/// Bytes in a pointer.
pub const PTR_LEN: usize = 8;

/// Offset of the magic in a block header.
pub const MAGIC: usize = 0;

/// Offset of the level in a block header.
pub const LEVEL: usize = 4;

/// Offset of the record count in a block header.
pub const NUMRECS: usize = 6;

/// Offset of the block's own address in a v5 header, in 512-byte basic
/// blocks.
pub const BLKNO: usize = 24;

/// Offset of the sequence number in a v5 header.
pub const LSN: usize = 32;

/// Offset of the UUID in a v5 header.
pub const UUID: usize = 40;

/// Offset of the owning inode in a v5 header.
pub const OWNER: usize = 56;

/// Offset of the checksum in a v5 header.
pub const CRC: usize = 64;

/// Offset of the level in the in-inode root.
pub const ROOT_LEVEL: usize = 0;

/// Offset of the record count in the in-inode root.
pub const ROOT_NUMRECS: usize = 2;

/// The deepest tree there can be. A damaged level cannot drive a descent
/// beyond it.
pub const MAX_LEVELS: u16 = 9;

/// The parsed header of a node, whichever form it came in.
#[derive(Debug, Clone, Copy, PartialEq, Eq)]
pub struct Node {
    /// Levels below this node; a leaf is at level 0.
    pub level: u16,
    /// Records in use.
    pub numrecs: u16,
    /// Where the body starts.
    pub body: usize,
    /// Records this node could hold, which is what positions the pointers.
    pub maxrecs: usize,
}

/// How many records a node of `usable` body bytes can hold. A key and a
/// pointer take as much room as a leaf record.
pub fn maxrecs(usable: usize) -> (r: usize)
    ensures
        r == usable / 16,
{
    usable / (KEY_LEN + PTR_LEN)
}

/// The root in a data fork, or why there is none.
pub open spec fn root_in(fork: Seq<u8>, ino: u64) -> Result<Node, Error> {
    let level = be16_at(fork, ROOT_LEVEL as int);
    let numrecs = be16_at(fork, ROOT_NUMRECS as int);
    let room = ((fork.len() - ROOT_HEADER_LEN) / 16) as usize;
    if fork.len() < ROOT_HEADER_LEN {
        Err(Error::BadSuperblock(BlockFault::RootTooShort { ino, len: fork.len() as usize }))
    } else if level == 0 {
        Err(Error::BadSuperblock(BlockFault::RootIsLeaf { ino }))
    } else if level > MAX_LEVELS {
        Err(Error::BadSuperblock(BlockFault::RootTooDeep { ino, level }))
    } else if numrecs > room {
        Err(Error::BadSuperblock(BlockFault::RootOverfull { ino, numrecs, maxrecs: room }))
    } else {
        Ok(Node { level, numrecs, body: ROOT_HEADER_LEN, maxrecs: room })
    }
}

/// Read the in-inode root's header out of the data fork.
///
/// The root is never a leaf: a level-0 tree is what XFS keeps as an inline
/// extent array.
pub fn parse_root(fork: &[u8], ino: u64) -> (r: Result<Node, Error>)
    ensures
        r == root_in(fork@, ino),
{
    if fork.len() < ROOT_HEADER_LEN {
        return Err(Error::BadSuperblock(BlockFault::RootTooShort { ino, len: fork.len() }));
    }
    let level = be16(fork, ROOT_LEVEL);
    let numrecs = be16(fork, ROOT_NUMRECS);
    if level == 0 {
        return Err(Error::BadSuperblock(BlockFault::RootIsLeaf { ino }));
    }
    if level > MAX_LEVELS {
        return Err(Error::BadSuperblock(BlockFault::RootTooDeep { ino, level }));
    }
    let room: usize = maxrecs(fork.len() - ROOT_HEADER_LEN);
    if numrecs as usize > room {
        return Err(Error::BadSuperblock(BlockFault::RootOverfull { ino, numrecs, maxrecs: room }));
    }
    Ok(Node { level, numrecs, body: ROOT_HEADER_LEN, maxrecs: room })
}

/// Bytes in a block header of this filesystem.
pub open spec fn header_len(sb: Superblock) -> usize {
    if sb.v5() {
        V5_HEADER_LEN
    } else {
        V4_HEADER_LEN
    }
}

/// The magic of a block of this filesystem.
pub open spec fn block_magic(sb: Superblock) -> u32 {
    if sb.v5() {
        XFS_BMAP_CRC_MAGIC
    } else {
        XFS_BMAP_MAGIC
    }
}

/// What a v5 block's own account of itself contradicts, if anything: its
/// checksum, its filesystem, its inode, its address, in that order.
pub open spec fn identity_fault(
    buf: Seq<u8>,
    sb: Superblock,
    ino: u64,
    fsblock: u64,
) -> Option<Error> {
    if le32_at(buf, CRC as int) != crc32c_of(with_zeroed_crc(buf, CRC as int)) {
        Some(Error::ChecksumMismatch { what: What::BmbtBlock, block: fsblock })
    } else if buf.subrange(UUID as int, UUID + 16) != sb.meta_uuid@ {
        Some(
            Error::BlockIdentityMismatch {
                what: What::BmbtBlock,
                expected: fsblock,
                found: u64::MAX,
            },
        )
    } else if be64_at(buf, OWNER as int) != ino {
        Some(
            Error::BlockIdentityMismatch {
                what: What::BmbtBlockOwner,
                expected: ino,
                found: be64_at(buf, OWNER as int),
            },
        )
    } else if be64_at(buf, BLKNO as int) != blkno_of(sb, fsblock) {
        Some(
            Error::BlockIdentityMismatch {
                what: What::BmbtBlockAddress,
                expected: blkno_of(sb, fsblock),
                found: be64_at(buf, BLKNO as int),
            },
        )
    } else {
        None
    }
}

/// The node in a block read at `fsblock`, or why the block is refused.
pub open spec fn block_in(
    buf: Seq<u8>,
    sb: Superblock,
    ino: u64,
    fsblock: u64,
    expect_level: u16,
) -> Result<Node, Error> {
    let header = header_len(sb);
    let magic = be32_at(buf, MAGIC as int);
    let level = be16_at(buf, LEVEL as int);
    let numrecs = be16_at(buf, NUMRECS as int);
    let room = ((buf.len() - header) / 16) as usize;
    if buf.len() < header {
        Err(
            Error::BadSuperblock(
                BlockFault::BlockTooShort { ino, fsblock, len: buf.len() as usize, header },
            ),
        )
    } else if magic != block_magic(sb) {
        Err(
            Error::BadSuperblock(
                BlockFault::BlockMagic { ino, fsblock, magic, want: block_magic(sb) },
            ),
        )
    } else if sb.v5() && identity_fault(buf, sb, ino, fsblock) is Some {
        Err(identity_fault(buf, sb, ino, fsblock)->0)
    } else if level != expect_level {
        Err(
            Error::BadSuperblock(
                BlockFault::BlockLevel { ino, fsblock, level, expected: expect_level },
            ),
        )
    } else if numrecs > room {
        Err(
            Error::BadSuperblock(
                BlockFault::BlockOverfull { ino, fsblock, numrecs, maxrecs: room },
            ),
        )
    } else {
        Ok(Node { level, numrecs, body: header, maxrecs: room })
    }
}

/// Check a v5 block against its own account of itself.
fn check_identity(buf: &[u8], sb: &Superblock, ino: u64, fsblock: u64) -> (r: Result<(), Error>)
    requires
        sb.valid(),
        V5_HEADER_LEN <= buf.len(),
    ensures
        match identity_fault(buf@, *sb, ino, fsblock) {
            Some(e) => r == Err::<(), Error>(e),
            None => r is Ok,
        },
{
    // The owner check is the one that matters: a stale block from another
    // file would otherwise decode into plausible extents and hand back
    // another inode's data.
    let stored = le32(buf, CRC);
    let computed = crc32c_with_zeroed_crc(buf, CRC);
    if stored != computed {
        return Err(Error::ChecksumMismatch { what: What::BmbtBlock, block: fsblock });
    }
    let uuid = uuid_at(buf, UUID);
    if !same(&uuid, &sb.meta_uuid) {
        return Err(
            Error::BlockIdentityMismatch {
                what: What::BmbtBlock,
                expected: fsblock,
                found: u64::MAX,
            },
        );
    }
    let owner = be64(buf, OWNER);
    if owner != ino {
        return Err(
            Error::BlockIdentityMismatch {
                what: What::BmbtBlockOwner,
                expected: ino,
                found: owner,
            },
        );
    }
    // A pointer corrupted into another valid block of the same inode passes
    // every check above; its address is what tells the two apart.
    let stated = be64(buf, BLKNO);
    let expected = blkno_of_fsblock(sb, fsblock);
    if stated != expected {
        return Err(
            Error::BlockIdentityMismatch { what: What::BmbtBlockAddress, expected, found: stated },
        );
    }
    Ok(())
}

/// Read and check an on-disk node's header.
///
/// `expect_level` is the level the parent said this child sits at, and
/// `ino` the inode the tree belongs to. A block that is not part of this
/// tree, not at the depth the parent believed, or not the one that was
/// asked for, is refused before its contents are read as extents.
pub fn parse_block(
    buf: &[u8],
    sb: &Superblock,
    ino: u64,
    fsblock: u64,
    expect_level: u16,
) -> (r: Result<Node, Error>)
    requires
        sb.valid(),
    ensures
        r == block_in(buf@, *sb, ino, fsblock, expect_level),
{
    let v5 = sb.is_v5();
    let header: usize = if v5 {
        V5_HEADER_LEN
    } else {
        V4_HEADER_LEN
    };
    if buf.len() < header {
        return Err(
            Error::BadSuperblock(
                BlockFault::BlockTooShort { ino, fsblock, len: buf.len(), header },
            ),
        );
    }
    let want: u32 = if v5 {
        XFS_BMAP_CRC_MAGIC
    } else {
        XFS_BMAP_MAGIC
    };
    let magic = be32(buf, MAGIC);
    if magic != want {
        return Err(Error::BadSuperblock(BlockFault::BlockMagic { ino, fsblock, magic, want }));
    }
    if v5 {
        match check_identity(buf, sb, ino, fsblock) {
            Ok(()) => {},
            Err(e) => {
                return Err(e);
            },
        }
    }
    let level = be16(buf, LEVEL);
    if level != expect_level {
        return Err(
            Error::BadSuperblock(
                BlockFault::BlockLevel { ino, fsblock, level, expected: expect_level },
            ),
        );
    }
    let numrecs = be16(buf, NUMRECS);
    let room: usize = maxrecs(buf.len() - header);
    if numrecs as usize > room {
        return Err(
            Error::BadSuperblock(
                BlockFault::BlockOverfull { ino, fsblock, numrecs, maxrecs: room },
            ),
        );
    }
    Ok(Node { level, numrecs, body: header, maxrecs: room })
}

/// Where a node's pointers begin: past the room for all the keys it could
/// hold.
pub open spec fn first_pointer(node: Node) -> int {
    node.body + node.maxrecs * 8
}

/// The child pointers of an internal node, in order, or why they cannot be
/// read.
pub open spec fn pointers_in(buf: Seq<u8>, node: Node, ino: u64, source: u64) -> Result<
    Seq<u64>,
    Error,
> {
    let first = first_pointer(node);
    let end = first + node.numrecs * 8;
    if end > buf.len() {
        Err(
            Error::BadSuperblock(
                BlockFault::PointersBeyondBlock {
                    ino,
                    source,
                    end: end as usize,
                    len: buf.len() as usize,
                },
            ),
        )
    } else {
        Ok(Seq::new(node.numrecs as nat, |i: int| be64_at(buf, first + i * 8)))
    }
}

/// The child pointers of an internal node, in order.
pub fn pointers(buf: &[u8], node: &Node, ino: u64, source: u64) -> (r: Result<Vec<u64>, Error>)
    requires
        first_pointer(*node) + node.numrecs * 8 <= usize::MAX,
    ensures
        match r {
            Ok(v) => pointers_in(buf@, *node, ino, source) == Ok::<Seq<u64>, Error>(v@),
            Err(e) => pointers_in(buf@, *node, ino, source) == Err::<Seq<u64>, Error>(e),
        },
{
    let first: usize = node.body + node.maxrecs * KEY_LEN;
    let end: usize = first + node.numrecs as usize * PTR_LEN;
    if end > buf.len() {
        return Err(
            Error::BadSuperblock(
                BlockFault::PointersBeyondBlock { ino, source, end, len: buf.len() },
            ),
        );
    }
    let mut v: Vec<u64> = Vec::new();
    let mut i: usize = 0;
    while i < node.numrecs as usize
        invariant
            i <= node.numrecs,
            first == first_pointer(*node),
            first + node.numrecs * 8 <= buf.len(),
            v@ == Seq::new(i as nat, |k: int| be64_at(buf@, first + k * 8)),
        decreases node.numrecs - i,
    {
        v.push(be64(buf, first + i * PTR_LEN));
        i += 1;
        assert(v@ =~= Seq::new(i as nat, |k: int| be64_at(buf@, first + k * 8)));
    }
    Ok(v)
}

/// The extent records of a leaf, in order, or why they cannot be read.
pub open spec fn records_in(buf: Seq<u8>, node: Node, ino: u64, source: u64) -> Result<
    Seq<Extent>,
    Error,
> {
    let end = node.body + node.numrecs * 16;
    if end > buf.len() {
        Err(
            Error::BadSuperblock(
                BlockFault::RecordsBeyondBlock {
                    ino,
                    source,
                    end: end as usize,
                    numrecs: node.numrecs,
                    len: buf.len() as usize,
                },
            ),
        )
    } else {
        Ok(extents_at(buf.subrange(node.body as int, end), node.numrecs as nat))
    }
}

/// The extent records of a leaf, in order.
pub fn records(buf: &[u8], node: &Node, ino: u64, source: u64) -> (r: Result<Vec<Extent>, Error>)
    requires
        node.body + node.numrecs * 16 <= usize::MAX,
    ensures
        match r {
            Ok(v) => records_in(buf@, *node, ino, source) == Ok::<Seq<Extent>, Error>(v@),
            Err(e) => records_in(buf@, *node, ino, source) == Err::<Seq<Extent>, Error>(e),
        },
{
    let end: usize = node.body + node.numrecs as usize * EXTENT_RECORD_SIZE;
    if end > buf.len() {
        return Err(
            Error::BadSuperblock(
                BlockFault::RecordsBeyondBlock {
                    ino,
                    source,
                    end,
                    numrecs: node.numrecs,
                    len: buf.len(),
                },
            ),
        );
    }
    Ok(parse_list(vstd::slice::slice_subrange(buf, node.body, end), node.numrecs))
}

/// A walk in progress.
#[verifier::ext_equal]
pub struct WalkState {
    /// Blocks still to visit, the next one last, each with the level its
    /// parent says it is at.
    pub stack: Seq<(u64, u16)>,
    /// The extents of the leaves visited so far.
    pub extents: Seq<Extent>,
    /// How many more blocks may be visited.
    pub budget: u64,
}

/// A walk in progress.
pub struct Walk {
    /// Blocks still to visit, the next one last, each with the level its
    /// parent says it is at.
    pub stack: Vec<(u64, u16)>,
    /// The extents of the leaves visited so far.
    pub extents: Vec<Extent>,
    /// How many more blocks may be visited.
    pub budget: u64,
}

impl View for Walk {
    type V = WalkState;

    open spec fn view(&self) -> WalkState {
        WalkState { stack: self.stack@, extents: self.extents@, budget: self.budget }
    }
}

/// Blocks to visit for the pointers of a node at `level`, the leftmost last.
pub open spec fn children(ptrs: Seq<u64>, level: u16) -> Seq<(u64, u16)> {
    Seq::new(ptrs.len(), |i: int| (ptrs[ptrs.len() - 1 - i], (level - 1) as u16))
}

/// How many blocks a tree of `nextents` extents may have. It is twice what
/// that many leaves would need, and never less than 64.
pub open spec fn block_budget(nextents: u64) -> u64 {
    let twice = (nextents + 1) * 2;
    if twice > u64::MAX {
        u64::MAX
    } else if twice < 64 {
        64
    } else {
        twice as u64
    }
}

/// A walk that has read the root and nothing else, or why it cannot start.
#[verifier::opaque]
pub open spec fn walk_start(fork: Seq<u8>, nextents: u64, ino: u64) -> Result<WalkState, Error> {
    match root_in(fork, ino) {
        Err(e) => Err(e),
        Ok(root) => match pointers_in(fork, root, ino, 0) {
            Err(e) => Err(e),
            Ok(ptrs) => Ok(
                WalkState {
                    stack: children(ptrs, root.level),
                    extents: Seq::empty(),
                    budget: block_budget(nextents),
                },
            ),
        },
    }
}

/// The walk after the block it asked for has been read as `buf`, or why
/// that block is refused.
#[verifier::opaque]
pub open spec fn visited(st: WalkState, buf: Seq<u8>, sb: Superblock, ino: u64) -> Result<
    WalkState,
    Error,
> {
    let (fsblock, level) = st.stack.last();
    let rest = st.stack.drop_last();
    let budget = (st.budget - 1) as u64;
    match block_in(buf, sb, ino, fsblock, level) {
        Err(e) => Err(e),
        Ok(node) => if node.level == 0 {
            match records_in(buf, node, ino, fsblock) {
                Err(e) => Err(e),
                Ok(found) => Ok(WalkState { stack: rest, extents: st.extents + found, budget }),
            }
        } else {
            match pointers_in(buf, node, ino, fsblock) {
                Err(e) => Err(e),
                Ok(ptrs) => Ok(
                    WalkState {
                        stack: rest + children(ptrs, node.level),
                        extents: st.extents,
                        budget,
                    },
                ),
            }
        },
    }
}

/// The walk after a reply to its request, be it a block or a refusal.
pub open spec fn answered(
    st: WalkState,
    reply: Result<Vec<u8>, Error>,
    sb: Superblock,
    ino: u64,
) -> Result<WalkState, Error> {
    match reply {
        Err(e) => Err(e),
        Ok(buf) => visited(st, buf@, sb, ino),
    }
}

/// The walk after a series of replies, or the refusal that ended it.
#[verifier::opaque]
pub open spec fn walk_after(
    start: WalkState,
    replies: Seq<Result<Vec<u8>, Error>>,
    sb: Superblock,
    ino: u64,
) -> Result<WalkState, Error>
    decreases replies.len(),
{
    if replies.len() == 0 {
        Ok(start)
    } else {
        match walk_after(start, replies.drop_last(), sb, ino) {
            Err(e) => Err(e),
            Ok(st) => answered(st, replies.last(), sb, ino),
        }
    }
}

/// Whether a walk has a block to ask for and may ask for it.
pub open spec fn wants_a_block(st: Result<WalkState, Error>) -> bool {
    st matches Ok(s) && s.stack.len() > 0 && s.budget > 0
}

/// What a walk that asks for nothing more returns.
pub open spec fn walk_end(st: Result<WalkState, Error>, nextents: u64, ino: u64) -> Result<
    Seq<Extent>,
    Error,
> {
    match st {
        Err(e) => Err(e),
        Ok(s) => if s.stack.len() > 0 {
            Err(Error::BadSuperblock(BlockFault::WalkOverBudget { ino, nextents }))
        } else if s.extents.len() != nextents {
            Err(
                Error::BadSuperblock(
                    BlockFault::ExtentCount { ino, found: s.extents.len() as usize, nextents },
                ),
            )
        } else {
            Ok(s.extents)
        },
    }
}

/// Whether a walk that stands at `st` asks for nothing more and returns `r`.
pub open spec fn concludes(
    st: Result<WalkState, Error>,
    nextents: u64,
    ino: u64,
    r: Result<Vec<Extent>, Error>,
) -> bool {
    &&& !wants_a_block(st)
    &&& match r {
        Ok(v) => walk_end(st, nextents, ino) == Ok::<Seq<Extent>, Error>(v@),
        Err(e) => walk_end(st, nextents, ino) == Err::<Seq<Extent>, Error>(e),
    }
}

/// Whether the `k`th of `replies` is one that `read` may give to the
/// request that the walk from `start` makes after the replies before it.
#[verifier::opaque]
pub open spec fn answer_fits<F: FnMut(u64) -> Result<Vec<u8>, Error>>(
    read: F,
    start: WalkState,
    replies: Seq<Result<Vec<u8>, Error>>,
    k: int,
    sb: Superblock,
    ino: u64,
) -> bool {
    let st = walk_after(start, replies.take(k), sb, ino);
    &&& wants_a_block(st)
    &&& call_ensures(read, (st->Ok_0.stack.last().0,), replies[k])
}

/// Whether `replies` are answers that `read` may give to the requests of
/// the walk from `start`, one reply for each request.
pub open spec fn answers<F: FnMut(u64) -> Result<Vec<u8>, Error>>(
    read: F,
    start: WalkState,
    replies: Seq<Result<Vec<u8>, Error>>,
    sb: Superblock,
    ino: u64,
) -> bool {
    forall|k: int|
        0 <= k < replies.len() ==> #[trigger] answer_fits(read, start, replies, k, sb, ino)
}

/// Whether walking the tree rooted in `fork`, with blocks fetched by
/// `read`, may return `r`: either the walk cannot start, or `r` is what it
/// comes to on some answers of `read` to its requests.
pub open spec fn walk_returns<F: FnMut(u64) -> Result<Vec<u8>, Error>>(
    read: F,
    fork: Seq<u8>,
    nextents: u64,
    sb: Superblock,
    ino: u64,
    r: Result<Vec<Extent>, Error>,
) -> bool {
    match walk_start(fork, nextents, ino) {
        Err(e) => r == Err::<Vec<Extent>, Error>(e),
        Ok(start) => exists|replies: Seq<Result<Vec<u8>, Error>>|
            {
                &&& #[trigger] answers(read, start, replies, sb, ino)
                &&& concludes(walk_after(start, replies, sb, ino), nextents, ino, r)
            },
    }
}

impl Walk {
    /// Read the root out of the data fork.
    pub fn start(fork: &[u8], nextents: u64, ino: u64) -> (r: Result<Walk, Error>)
        ensures
            match r {
                Ok(w) => walk_start(fork@, nextents, ino) == Ok::<WalkState, Error>(w@),
                Err(e) => walk_start(fork@, nextents, ino) == Err::<WalkState, Error>(e),
            },
    {
        proof {
            reveal(walk_start);
            assert(fork@.len() == fork.len());
        }
        let root = match parse_root(fork, ino) {
            Ok(root) => root,
            Err(e) => {
                return Err(e);
            },
        };
        let ptrs = match pointers(fork, &root, ino, 0) {
            Ok(ptrs) => ptrs,
            Err(e) => {
                return Err(e);
            },
        };
        let mut stack: Vec<(u64, u16)> = Vec::new();
        push_children(&mut stack, &ptrs, root.level);
        assert(stack@ =~= children(ptrs@, root.level));
        let budget: u64 = if nextents >= 0x7FFF_FFFF_FFFF_FFFF {
            u64::MAX
        } else if (nextents + 1) * 2 < 64 {
            64
        } else {
            (nextents + 1) * 2
        };
        let w = Walk { stack, extents: Vec::new(), budget };
        assert(w@.extents =~= Seq::<Extent>::empty());
        Ok(w)
    }

    /// Take in the block that was asked for.
    ///
    /// A refused block leaves the walk where it was.
    pub fn visit(&mut self, buf: &[u8], sb: &Superblock, ino: u64) -> (r: Result<(), Error>)
        requires
            sb.valid(),
            old(self).stack@.len() > 0,
            old(self).budget > 0,
        ensures
            match r {
                Ok(_) => visited(old(self)@, buf@, *sb, ino) == Ok::<WalkState, Error>(
                    final(self)@,
                ),
                Err(e) => visited(old(self)@, buf@, *sb, ino) == Err::<WalkState, Error>(e)
                    && final(self)@ == old(self)@,
            },
            r is Ok ==> final(self).budget == old(self).budget - 1,
    {
        proof {
            reveal(visited);
            assert(buf@.len() == buf.len());
        }
        let (fsblock, expect_level) = self.stack[self.stack.len() - 1];
        let node = match parse_block(buf, sb, ino, fsblock, expect_level) {
            Ok(node) => node,
            Err(e) => {
                return Err(e);
            },
        };
        if node.level == 0 {
            let mut found = match records(buf, &node, ino, fsblock) {
                Ok(found) => found,
                Err(e) => {
                    return Err(e);
                },
            };
            self.stack.pop();
            self.extents.append(&mut found);
        } else {
            let ptrs = match pointers(buf, &node, ino, fsblock) {
                Ok(ptrs) => ptrs,
                Err(e) => {
                    return Err(e);
                },
            };
            self.stack.pop();
            push_children(&mut self.stack, &ptrs, node.level);
        }
        self.budget -= 1;
        Ok(())
    }
}

/// Push the children of a node at `level`, the leftmost last so that it is
/// visited first.
fn push_children(stack: &mut Vec<(u64, u16)>, ptrs: &Vec<u64>, level: u16)
    requires
        level > 0,
    ensures
        final(stack)@ == old(stack)@ + children(ptrs@, level),
{
    let n: usize = ptrs.len();
    let mut i: usize = 0;
    while i < n
        invariant
            i <= n,
            n == ptrs@.len(),
            level > 0,
            stack@ == old(stack)@ + children(ptrs@, level).take(i as int),
        decreases n - i,
    {
        stack.push((ptrs[n - 1 - i], level - 1));
        i += 1;
        assert(stack@ =~= old(stack)@ + children(ptrs@, level).take(i as int));
    }
    assert(stack@ =~= old(stack)@ + children(ptrs@, level));
}

/// Collect every extent in an inode's block-map B+tree, in file order.
///
/// `fork` is the inode's data fork, the in-inode root. `read_fsblock`
/// fetches one filesystem block by number.
///
/// `nextents` is what the inode claims, and is checked against what the
/// tree yields. It also bounds how many blocks are read: the level checks
/// bound the depth of a damaged tree, and not its breadth.
pub fn walk<F>(
    fork: &[u8],
    nextents: u64,
    sb: &Superblock,
    ino: u64,
    read_fsblock: F,
) -> (r: Result<Vec<Extent>, Error>) where F: FnMut(u64) -> Result<Vec<u8>, Error>
    requires
        sb.valid(),
        forall|fsblock: u64| call_requires(read_fsblock, (fsblock,)),
    ensures
        walk_returns(read_fsblock, fork@, nextents, *sb, ino, r),
{
    let mut w = match Walk::start(fork, nextents, ino) {
        Ok(w) => w,
        Err(e) => {
            return Err(e);
        },
    };
    let ghost start = w@;
    let ghost mut replies: Seq<Result<Vec<u8>, Error>> = Seq::empty();
    proof {
        reveal(walk_after);
    }
    let mut read = read_fsblock;
    while w.stack.len() > 0
        invariant
            sb.valid(),
            read == read_fsblock,
            forall|fsblock: u64| call_requires(read_fsblock, (fsblock,)),
            walk_start(fork@, nextents, ino) == Ok::<WalkState, Error>(start),
            answers(read_fsblock, start, replies, *sb, ino),
            walk_after(start, replies, *sb, ino) == Ok::<WalkState, Error>(w@),
        decreases w.budget,
    {
        if w.budget == 0 {
            return Err(Error::BadSuperblock(BlockFault::WalkOverBudget { ino, nextents }));
        }
        let fsblock: u64 = w.stack[w.stack.len() - 1].0;
        let reply = read(fsblock);
        proof {
            lemma_one_more_answer(read_fsblock, start, replies, reply, *sb, ino);
            replies = replies.push(reply);
        }
        let buf = match reply {
            Ok(buf) => buf,
            Err(e) => {
                return Err(e);
            },
        };
        match w.visit(&buf, sb, ino) {
            Ok(()) => {},
            Err(e) => {
                return Err(e);
            },
        }
    }
    if w.extents.len() as u64 != nextents {
        return Err(
            Error::BadSuperblock(
                BlockFault::ExtentCount { ino, found: w.extents.len(), nextents },
            ),
        );
    }
    Ok(w.extents)
}

/// A reply to the request a walk stands at extends its series of answers.
proof fn lemma_one_more_answer<F: FnMut(u64) -> Result<Vec<u8>, Error>>(
    read: F,
    start: WalkState,
    replies: Seq<Result<Vec<u8>, Error>>,
    reply: Result<Vec<u8>, Error>,
    sb: Superblock,
    ino: u64,
)
    requires
        answers(read, start, replies, sb, ino),
        wants_a_block(walk_after(start, replies, sb, ino)),
        call_ensures(
            read,
            (walk_after(start, replies, sb, ino)->Ok_0.stack.last().0,),
            reply,
        ),
    ensures
        answers(read, start, replies.push(reply), sb, ino),
        walk_after(start, replies.push(reply), sb, ino) == answered(
            walk_after(start, replies, sb, ino)->Ok_0,
            reply,
            sb,
            ino,
        ),
{
    let more = replies.push(reply);
    assert(more.drop_last() =~= replies);
    reveal_with_fuel(walk_after, 1);
    assert forall|k: int| 0 <= k < more.len() implies #[trigger] answer_fits(
        read,
        start,
        more,
        k,
        sb,
        ino,
    ) by {
        reveal(answer_fits);
        assert(more.take(k) =~= replies.take(k));
        if k == replies.len() {
            assert(replies.take(k) =~= replies);
        } else {
            assert(answer_fits(read, start, replies, k, sb, ino));
        }
    }
}

/// What a walk that stands at `st` returns when every block reads as
/// `image` says.
pub open spec fn walk_over(
    image: spec_fn(u64) -> Result<Seq<u8>, Error>,
    st: WalkState,
    nextents: u64,
    sb: Superblock,
    ino: u64,
) -> Result<Seq<Extent>, Error>
    decreases st.budget,
{
    if !(st.stack.len() > 0 && st.budget > 0) {
        walk_end(Ok(st), nextents, ino)
    } else {
        match image(st.stack.last().0) {
            Err(e) => Err(e),
            Ok(buf) => match visited(st, buf, sb, ino) {
                Err(e) => Err(e),
                Ok(next) => {
                    proof {
                        reveal(visited);
                    }
                    walk_over(image, next, nextents, sb, ino)
                },
            },
        }
    }
}

/// The extents at and below the block `fsblock` at `level`, left to right,
/// provided that every block there is readable and is what its parent says.
pub open spec fn extents_below(
    image: spec_fn(u64) -> Result<Seq<u8>, Error>,
    fsblock: u64,
    level: u16,
    sb: Superblock,
    ino: u64,
) -> Option<Seq<Extent>>
    decreases level, 0nat,
{
    match image(fsblock) {
        Err(_) => None,
        Ok(buf) => match block_in(buf, sb, ino, fsblock, level) {
            Err(_) => None,
            Ok(node) => if level == 0 {
                match records_in(buf, node, ino, fsblock) {
                    Err(_) => None,
                    Ok(found) => Some(found),
                }
            } else {
                match pointers_in(buf, node, ino, fsblock) {
                    Err(_) => None,
                    Ok(ptrs) => extents_under(image, ptrs, (level - 1) as u16, sb, ino),
                }
            },
        },
    }
}

/// The extents at and below the blocks `ptrs`, all at `level`, left to
/// right.
pub open spec fn extents_under(
    image: spec_fn(u64) -> Result<Seq<u8>, Error>,
    ptrs: Seq<u64>,
    level: u16,
    sb: Superblock,
    ino: u64,
) -> Option<Seq<Extent>>
    decreases level, ptrs.len(),
{
    if ptrs.len() == 0 {
        Some(Seq::empty())
    } else {
        match (
            extents_below(image, ptrs[0], level, sb, ino),
            extents_under(image, ptrs.drop_first(), level, sb, ino),
        ) {
            (Some(first), Some(rest)) => Some(first + rest),
            _ => None,
        }
    }
}

/// How many blocks there are at and below the block `fsblock` at `level`.
pub open spec fn blocks_below(
    image: spec_fn(u64) -> Result<Seq<u8>, Error>,
    fsblock: u64,
    level: u16,
    sb: Superblock,
    ino: u64,
) -> nat
    decreases level, 0nat,
{
    match image(fsblock) {
        Err(_) => 1,
        Ok(buf) => match block_in(buf, sb, ino, fsblock, level) {
            Err(_) => 1,
            Ok(node) => if level == 0 {
                1
            } else {
                match pointers_in(buf, node, ino, fsblock) {
                    Err(_) => 1,
                    Ok(ptrs) => 1 + blocks_under(image, ptrs, (level - 1) as u16, sb, ino),
                }
            },
        },
    }
}

/// How many blocks there are at and below the blocks `ptrs`, all at
/// `level`, counting a block once for every pointer to it.
pub open spec fn blocks_under(
    image: spec_fn(u64) -> Result<Seq<u8>, Error>,
    ptrs: Seq<u64>,
    level: u16,
    sb: Superblock,
    ino: u64,
) -> nat
    decreases level, ptrs.len(),
{
    if ptrs.len() == 0 {
        0
    } else {
        blocks_below(image, ptrs[0], level, sb, ino) + blocks_under(
            image,
            ptrs.drop_first(),
            level,
            sb,
            ino,
        )
    }
}

/// The extents a walk will still collect from its stack.
spec fn extents_pending(
    image: spec_fn(u64) -> Result<Seq<u8>, Error>,
    stack: Seq<(u64, u16)>,
    sb: Superblock,
    ino: u64,
) -> Option<Seq<Extent>>
    decreases stack.len(),
{
    if stack.len() == 0 {
        Some(Seq::empty())
    } else {
        match (
            extents_below(image, stack.last().0, stack.last().1, sb, ino),
            extents_pending(image, stack.drop_last(), sb, ino),
        ) {
            (Some(first), Some(rest)) => Some(first + rest),
            _ => None,
        }
    }
}

/// The blocks a walk will still visit from its stack.
spec fn blocks_pending(
    image: spec_fn(u64) -> Result<Seq<u8>, Error>,
    stack: Seq<(u64, u16)>,
    sb: Superblock,
    ino: u64,
) -> nat
    decreases stack.len(),
{
    if stack.len() == 0 {
        0
    } else {
        blocks_below(image, stack.last().0, stack.last().1, sb, ino) + blocks_pending(
            image,
            stack.drop_last(),
            sb,
            ino,
        )
    }
}

/// Pushing a node's children puts what is under the node in front of what
/// was pending before.
proof fn lemma_pending_children(
    image: spec_fn(u64) -> Result<Seq<u8>, Error>,
    base: Seq<(u64, u16)>,
    ptrs: Seq<u64>,
    level: u16,
    sb: Superblock,
    ino: u64,
)
    requires
        level > 0,
    ensures
        ({
            let stack = base + children(ptrs, level);
            let below = (level - 1) as u16;
            &&& blocks_pending(image, stack, sb, ino) == blocks_under(image, ptrs, below, sb, ino)
                + blocks_pending(image, base, sb, ino)
            &&& extents_pending(image, stack, sb, ino) == match (
                extents_under(image, ptrs, below, sb, ino),
                extents_pending(image, base, sb, ino),
            ) {
                (Some(first), Some(rest)) => Some(first + rest),
                _ => None,
            }
        }),
    decreases ptrs.len(),
{
    let stack = base + children(ptrs, level);
    let below = (level - 1) as u16;
    if ptrs.len() == 0 {
        assert(stack =~= base);
        if let Some(rest) = extents_pending(image, base, sb, ino) {
            assert(Seq::<Extent>::empty() + rest =~= rest);
        }
    } else {
        let tail = ptrs.drop_first();
        assert(stack.last() == (ptrs[0], below));
        assert(stack.drop_last() =~= base + children(tail, level));
        lemma_pending_children(image, base, tail, level, sb, ino);
        if let (Some(a), Some(b), Some(c)) = (
            extents_below(image, ptrs[0], below, sb, ino),
            extents_under(image, tail, below, sb, ino),
            extents_pending(image, base, sb, ino),
        ) {
            assert(a + (b + c) =~= (a + b) + c);
        }
    }
}

/// A walk returns what it has, followed by what is pending, exactly when
/// all that is pending is sound, the count is right and the budget lasts.
proof fn lemma_walk_collects_pending(
    image: spec_fn(u64) -> Result<Seq<u8>, Error>,
    st: WalkState,
    nextents: u64,
    sb: Superblock,
    ino: u64,
)
    ensures
        ({
            let out = walk_over(image, st, nextents, sb, ino);
            let pending = extents_pending(image, st.stack, sb, ino);
            let fits = blocks_pending(image, st.stack, sb, ino) <= st.budget;
            &&& out is Ok <==> pending is Some && fits && st.extents.len() + pending->0.len()
                == nextents
            &&& out is Ok ==> out->Ok_0 == st.extents + pending->0
        }),
    decreases st.budget,
{
    reveal(visited);
    if st.stack.len() == 0 {
        assert(st.extents + Seq::<Extent>::empty() =~= st.extents);
    } else if st.budget == 0 {
        lemma_a_block_counts(image, st.stack.last().0, st.stack.last().1, sb, ino);
    } else {
        let (fsblock, level) = st.stack.last();
        let rest = st.stack.drop_last();
        lemma_a_block_counts(image, fsblock, level, sb, ino);
        if let Ok(buf) = image(fsblock) {
            if let Ok(node) = block_in(buf, sb, ino, fsblock, level) {
                assert(node.level == level);
                if let Ok(next) = visited(st, buf, sb, ino) {
                    lemma_walk_collects_pending(image, next, nextents, sb, ino);
                    if level == 0 {
                        let found = records_in(buf, node, ino, fsblock)->Ok_0;
                        if let Some(more) = extents_pending(image, rest, sb, ino) {
                            assert((st.extents + found) + more =~= st.extents + (found + more));
                        }
                    } else {
                        let ptrs = pointers_in(buf, node, ino, fsblock)->Ok_0;
                        lemma_pending_children(image, rest, ptrs, level, sb, ino);
                    }
                }
            }
        }
    }
}

/// A pointer stands for at least the block it points to.
proof fn lemma_a_block_counts(
    image: spec_fn(u64) -> Result<Seq<u8>, Error>,
    fsblock: u64,
    level: u16,
    sb: Superblock,
    ino: u64,
)
    ensures
        blocks_below(image, fsblock, level, sb, ino) >= 1,
{
}

/// Walking a filesystem whose blocks read as `image` says returns exactly
/// the extents of the tree's leaves in file order. It does so if and only
/// if every block of the tree is what its parent says it is, there are as
/// many extents as the inode records, and there are no more blocks than
/// that count can justify.
pub proof fn law_walk_collects_the_tree_in_file_order(
    image: spec_fn(u64) -> Result<Seq<u8>, Error>,
    fork: Seq<u8>,
    nextents: u64,
    sb: Superblock,
    ino: u64,
)
    requires
        root_in(fork, ino) is Ok,
        pointers_in(fork, root_in(fork, ino)->Ok_0, ino, 0) is Ok,
    ensures
        walk_start(fork, nextents, ino) is Ok,
        ({
            let root = root_in(fork, ino)->Ok_0;
            let ptrs = pointers_in(fork, root, ino, 0)->Ok_0;
            let below = (root.level - 1) as u16;
            let start = walk_start(fork, nextents, ino)->Ok_0;
            let out = walk_over(image, start, nextents, sb, ino);
            let tree = extents_under(image, ptrs, below, sb, ino);
            &&& out is Ok <==> tree is Some && tree->0.len() == nextents && blocks_under(
                image,
                ptrs,
                below,
                sb,
                ino,
            ) <= block_budget(nextents)
            &&& out is Ok ==> out == Ok::<Seq<Extent>, Error>(tree->0)
        }),
{
    reveal(walk_start);
    let root = root_in(fork, ino)->Ok_0;
    let ptrs = pointers_in(fork, root, ino, 0)->Ok_0;
    let start = walk_start(fork, nextents, ino)->Ok_0;
    let none = Seq::<(u64, u16)>::empty();
    assert(none + children(ptrs, root.level) =~= children(ptrs, root.level));
    lemma_pending_children(image, none, ptrs, root.level, sb, ino);
    lemma_walk_collects_pending(image, start, nextents, sb, ino);
    if let Some(tree) = extents_under(image, ptrs, (root.level - 1) as u16, sb, ino) {
        assert(tree + Seq::<Extent>::empty() =~= tree);
        assert(Seq::<Extent>::empty() + tree =~= tree);
    }
}

/// A reader that always gives what `image` says makes a walk return what
/// `image` determines.
pub proof fn law_walk_of_a_steady_reader<F: FnMut(u64) -> Result<Vec<u8>, Error>>(
    read: F,
    image: spec_fn(u64) -> Result<Seq<u8>, Error>,
    fork: Seq<u8>,
    nextents: u64,
    sb: Superblock,
    ino: u64,
    r: Result<Vec<Extent>, Error>,
)
    requires
        walk_start(fork, nextents, ino) is Ok,
        walk_returns(read, fork, nextents, sb, ino, r),
        forall|fsblock: u64, reply: Result<Vec<u8>, Error>| #[trigger]
            call_ensures(read, (fsblock,), reply) ==> match reply {
                Ok(buf) => image(fsblock) == Ok::<Seq<u8>, Error>(buf@),
                Err(e) => image(fsblock) == Err::<Seq<u8>, Error>(e),
            },
    ensures
        ({
            let out = walk_over(image, walk_start(fork, nextents, ino)->Ok_0, nextents, sb, ino);
            match r {
                Ok(v) => out == Ok::<Seq<Extent>, Error>(v@),
                Err(e) => out == Err::<Seq<Extent>, Error>(e),
            }
        }),
{
    let start = walk_start(fork, nextents, ino)->Ok_0;
    let replies = choose|replies: Seq<Result<Vec<u8>, Error>>|
        {
            &&& #[trigger] answers(read, start, replies, sb, ino)
            &&& concludes(walk_after(start, replies, sb, ino), nextents, ino, r)
        };
    lemma_steady_answers(read, image, start, replies, replies.len() as int, nextents, sb, ino);
    assert(replies.take(replies.len() as int) =~= replies);
}

/// After any number of a steady reader's answers, what is left to return is
/// still what the walk was going to return at the start.
proof fn lemma_steady_answers<F: FnMut(u64) -> Result<Vec<u8>, Error>>(
    read: F,
    image: spec_fn(u64) -> Result<Seq<u8>, Error>,
    start: WalkState,
    replies: Seq<Result<Vec<u8>, Error>>,
    n: int,
    nextents: u64,
    sb: Superblock,
    ino: u64,
)
    requires
        0 <= n <= replies.len(),
        answers(read, start, replies, sb, ino),
        forall|fsblock: u64, reply: Result<Vec<u8>, Error>| #[trigger]
            call_ensures(read, (fsblock,), reply) ==> match reply {
                Ok(buf) => image(fsblock) == Ok::<Seq<u8>, Error>(buf@),
                Err(e) => image(fsblock) == Err::<Seq<u8>, Error>(e),
            },
    ensures
        match walk_after(start, replies.take(n), sb, ino) {
            Err(e) => walk_over(image, start, nextents, sb, ino) == Err::<Seq<Extent>, Error>(e),
            Ok(st) => walk_over(image, start, nextents, sb, ino) == walk_over(
                image,
                st,
                nextents,
                sb,
                ino,
            ),
        },
    decreases n,
{
    reveal(walk_after);
    if n > 0 {
        lemma_steady_answers(read, image, start, replies, n - 1, nextents, sb, ino);
        assert(replies.take(n).drop_last() =~= replies.take(n - 1));
        assert(replies.take(n).last() == replies[n - 1]);
        assert(answer_fits(read, start, replies, n - 1, sb, ino));
        reveal(answer_fits);
        let st = walk_after(start, replies.take(n - 1), sb, ino)->Ok_0;
        assert(call_ensures(read, (st.stack.last().0,), replies[n - 1]));
        lemma_a_visit_costs(st, replies[n - 1], sb, ino);
    }
}

/// A visit uses up one block of the budget.
proof fn lemma_a_visit_costs(
    st: WalkState,
    reply: Result<Vec<u8>, Error>,
    sb: Superblock,
    ino: u64,
)
    requires
        st.budget > 0,
    ensures
        answered(st, reply, sb, ino) matches Ok(next) ==> next.budget == st.budget - 1,
{
    reveal(visited);
}

/// A walk asks for no more blocks than its extent count can justify,
/// whatever the blocks hold.
pub proof fn law_walk_is_bounded<F: FnMut(u64) -> Result<Vec<u8>, Error>>(
    read: F,
    fork: Seq<u8>,
    nextents: u64,
    replies: Seq<Result<Vec<u8>, Error>>,
    sb: Superblock,
    ino: u64,
)
    requires
        walk_start(fork, nextents, ino) is Ok,
        answers(read, walk_start(fork, nextents, ino)->Ok_0, replies, sb, ino),
    ensures
        replies.len() <= block_budget(nextents),
{
    reveal(walk_start);
    let start = walk_start(fork, nextents, ino)->Ok_0;
    lemma_budget_spent(read, start, replies, replies.len() as int, sb, ino);
}

/// Every answer uses up one block of the budget.
proof fn lemma_budget_spent<F: FnMut(u64) -> Result<Vec<u8>, Error>>(
    read: F,
    start: WalkState,
    replies: Seq<Result<Vec<u8>, Error>>,
    n: int,
    sb: Superblock,
    ino: u64,
)
    requires
        0 <= n <= replies.len(),
        answers(read, start, replies, sb, ino),
    ensures
        n <= start.budget,
        walk_after(start, replies.take(n), sb, ino) matches Ok(st) ==> st.budget == start.budget
            - n,
    decreases n,
{
    reveal(walk_after);
    if n > 0 {
        lemma_budget_spent(read, start, replies, n - 1, sb, ino);
        assert(replies.take(n).drop_last() =~= replies.take(n - 1));
        assert(replies.take(n).last() == replies[n - 1]);
        assert(answer_fits(read, start, replies, n - 1, sb, ino));
        reveal(answer_fits);
        let st = walk_after(start, replies.take(n - 1), sb, ino)->Ok_0;
        lemma_a_visit_costs(st, replies[n - 1], sb, ino);
    }
}

} // verus!
