//! Carrying one log item out on the bytes it is about.
//!
//! # Checksums are verified before they are rewritten
//!
//! A block is restamped only if it is of a kind whose checksum layout is
//! known and the checksum it carries verifies (see [`crate::crc_kind`]); any
//! other block is refused, because one with a wrong checksum is worse than
//! one that nothing was applied to.
//!
//! # The sequence number is stamped, not copied
//!
//! Neither the checksum nor the sequence number is logged, so a replayer
//! supplies the transaction's own.
//!
//! # Inode clusters carry no block checksum
//!
//! A logged inode is addressed through its cluster, and a cluster is inodes
//! laid end to end with a checksum each. So an inode item is applied to one
//! inode's bytes and restamped as one inode.

use vstd::prelude::*;
use crate::bytes::{patched, put};
use crate::checksum::{crc32c_of, crc32c_with_zeroed_crc, with_zeroed_crc};
use crate::crc_kind::{kind, kind_of};
use crate::dinode::{disk_core, disk_dinode_in};
use crate::endian::{
    be16, be16_at, be32, be32_at, be64, be64_at, be64_bytes, le16, le16_at, le32_bytes, to_be64,
    to_le32,
};
use crate::error::{BlockFault, Error, LogFault, Unsupported};
use crate::format::log_items::{
    BBSIZE, BLF_CANCEL, BLF_FLAGS, DI_CRC, DI_INO, DI_LSN, DI_MAGIC, DI_VERSION, DI_VERSION_3,
    LOG_DINODE_SIZE, XFS_DINODE_MAGIC, XFS_LI_BUF, XFS_LI_INODE,
};
use crate::log::ByteOrder;
use crate::log_item::{
    buf_item_at, cancelled, find_item, first_item, inode_item_at, is_cancel, is_cancelled_from,
    is_item, item_span, law_accepted_buffer_item_agrees, law_cancel_items_span_one_operation,
    lemma_first_item, parse_buf, parse_inode, BufItem, BufItemView, InodeItem, InodeItemView,
};
use crate::log_write::Op;
use crate::superblock::Superblock;

verus! {

/// A block with the data of some runs patched in.
pub open spec fn with_runs(buf: Seq<u8>, runs: Seq<(u64, u64)>, data: Seq<Op>) -> Seq<u8>
    decreases runs.len(),
{
    if runs.len() == 0 {
        buf
    } else {
        patched(
            with_runs(buf, runs.drop_last(), data),
            runs.last().0 as int,
            data[runs.len() - 1].data@,
        )
    }
}

/// The first run from `k` on that reaches past the end of a block.
pub open spec fn first_overrun(runs: Seq<(u64, u64)>, len: nat, k: int) -> Option<int>
    decreases runs.len() - k,
{
    if k >= runs.len() {
        None
    } else if runs[k].0 + runs[k].1 > len {
        Some(k)
    } else {
        first_overrun(runs, len, k + 1)
    }
}

/// A block with one buffer item applied to it, or why it cannot be.
pub open spec fn block_applied(
    sb: Superblock,
    item: BufItemView,
    data: Seq<Op>,
    buf: Seq<u8>,
    lsn: u64,
) -> Result<Seq<u8>, Error> {
    match kind(buf, sb) {
        None => Err(
            Error::BadSuperblock(
                BlockFault::UnknownChecksumKind { blkno: item.blkno, magic: be32_at(buf, 0) },
            ),
        ),
        Some(kind) => match first_overrun(item.runs, buf.len(), 0) {
            Some(k) => Err(
                Error::CorruptLog(
                    LogFault::RunBeyondBlock {
                        start: item.runs[k].0,
                        end: (item.runs[k].0 + item.runs[k].1) as u64,
                        len: buf.len() as usize,
                    },
                ),
            ),
            None => Ok(kind.restamped(with_runs(buf, item.runs, data), sb, lsn)),
        },
    }
}

/// Whether each run has a data operation of its length.
pub open spec fn runs_carried(runs: Seq<(u64, u64)>, data: Seq<Op>) -> bool {
    &&& runs.len() == data.len()
    &&& forall|k: int|
        0 <= k < runs.len() ==> {
            &&& (#[trigger] runs[k]).1 == data[k].data@.len()
            &&& runs[k].0 + runs[k].1 <= u64::MAX
        }
}

/// Patching runs in does not change a block's length.
proof fn lemma_with_runs_len(buf: Seq<u8>, runs: Seq<(u64, u64)>, data: Seq<Op>)
    ensures
        with_runs(buf, runs, data).len() == buf.len(),
    decreases runs.len(),
{
    if runs.len() > 0 {
        lemma_with_runs_len(buf, runs.drop_last(), data);
    }
}

/// Patch a buffer item's runs into its block and restamp the checksum.
///
/// `block` is the block as it is on disk. What comes back is to be written
/// in its place.
pub fn apply_one(
    sb: &Superblock,
    item: &BufItem,
    data: &[Op],
    block: Vec<u8>,
    lsn: u64,
) -> (r: Result<Vec<u8>, Error>)
    requires
        4 <= block@.len(),
        runs_carried(item.runs@, data@),
    ensures
        match r {
            Ok(v) => block_applied(*sb, item@, data@, block@, lsn) == Ok::<Seq<u8>, Error>(v@),
            Err(e) => block_applied(*sb, item@, data@, block@, lsn) == Err::<Seq<u8>, Error>(e),
        },
{
    let mut buf = block;
    let len: usize = buf.len();
    let kind = match kind_of(&buf, sb) {
        Some(kind) => kind,
        None => {
            return Err(
                Error::BadSuperblock(
                    BlockFault::UnknownChecksumKind { blkno: item.blkno, magic: be32(&buf, 0) },
                ),
            );
        },
    };
    let ghost runs = item.runs@;
    let mut k: usize = 0;
    while k < item.runs.len()
        invariant
            k <= runs.len(),
            runs == item.runs@,
            runs_carried(runs, data@),
            buf@.len() == block@.len(),
            len == block@.len(),
            buf@ == with_runs(block@, runs.take(k as int), data@),
            first_overrun(runs, block@.len(), 0) == first_overrun(runs, block@.len(), k as int),
            block_applied(*sb, item@, data@, block@, lsn) == match first_overrun(
                runs,
                block@.len(),
                0,
            ) {
                Some(k) => Err(
                    Error::CorruptLog(
                        LogFault::RunBeyondBlock {
                            start: runs[k].0,
                            end: (runs[k].0 + runs[k].1) as u64,
                            len,
                        },
                    ),
                ),
                None => Ok(kind.restamped(with_runs(block@, runs, data@), *sb, lsn)),
            },
        decreases runs.len() - k,
    {
        let (start, size) = item.runs[k];
        assert((start, size) == runs[k as int]);
        if start + size > len as u64 {
            return Err(
                Error::CorruptLog(
                    LogFault::RunBeyondBlock { start, end: start + size, len },
                ),
            );
        }
        put(&mut buf, start as usize, &data[k].data);
        proof {
            let more = runs.take(k + 1);
            assert(more.drop_last() =~= runs.take(k as int));
            assert(more.last() == runs[k as int]);
        }
        k += 1;
    }
    assert(runs.take(k as int) =~= runs);
    kind.restamp(&mut buf, sb, lsn);
    Ok(buf)
}

/// The on-disk form of the core that an inode item carries, or why the item
/// cannot be applied under this geometry.
///
/// A version-3 core that is long enough always has an on-disk form.
pub open spec fn core_to_apply(sb: Superblock, item: InodeItemView, order: ByteOrder) -> Result<
    Seq<u8>,
    Error,
> {
    let cluster = item.len_bb * 512;
    let core = disk_core(item.core, order)->Ok_0;
    if !(sb.inodesize <= cluster <= sb.cluster_bytes) {
        Err(
            Error::CorruptLog(
                LogFault::InodeBufferLength {
                    ino: item.ino,
                    cluster: cluster as u64,
                    inodesize: sb.inodesize,
                    max: sb.cluster_bytes,
                },
            ),
        )
    } else if item.boffset % (sb.inodesize as u32) != 0 || item.boffset + sb.inodesize > cluster {
        Err(
            Error::CorruptLog(
                LogFault::InodeOffset {
                    ino: item.ino,
                    boff: item.boffset,
                    cluster: cluster as u64,
                    inodesize: sb.inodesize,
                },
            ),
        )
    } else if item.core.len() < LOG_DINODE_SIZE {
        Err(
            Error::CorruptLog(
                LogFault::CoreShort { ino: item.ino, len: item.core.len() as usize },
            ),
        )
    } else if item.core[DI_VERSION as int] != DI_VERSION_3 {
        Err(
            Error::UnsupportedFeature(
                Unsupported::CoreVersion { ino: item.ino, version: item.core[DI_VERSION as int] },
            ),
        )
    } else if core.len() > sb.inodesize {
        Err(
            Error::CorruptLog(
                LogFault::CoreTooLarge { len: core.len() as usize, inodesize: sb.inodesize },
            ),
        )
    } else {
        Ok(core)
    }
}

/// Check an inode item against the geometry and turn its core into the
/// on-disk form.
///
/// The item's own buffer length is trusted only within what the geometry
/// allows: a huge one is a damaged field, not a large read. A core of an
/// older version has no checksum to restamp, and a v5 filesystem does not
/// use one.
pub fn check_inode(sb: &Superblock, item: &InodeItem, order: ByteOrder) -> (r: Result<
    Vec<u8>,
    Error,
>)
    requires
        sb.valid(),
    ensures
        match r {
            Ok(v) => core_to_apply(*sb, item@, order) == Ok::<Seq<u8>, Error>(v@),
            Err(e) => core_to_apply(*sb, item@, order) == Err::<Seq<u8>, Error>(e),
        },
{
    let inodesize: u16 = sb.inodesize;
    let max: u32 = sb.inode_cluster_bytes();
    let cluster: u64 = item.len_bb as u64 * BBSIZE as u64;
    if cluster < inodesize as u64 || cluster > max as u64 {
        return Err(
            Error::CorruptLog(
                LogFault::InodeBufferLength { ino: item.ino, cluster, inodesize, max },
            ),
        );
    }
    let boff: u32 = item.boffset;
    if boff % inodesize as u32 != 0 || boff as u64 + inodesize as u64 > cluster {
        return Err(
            Error::CorruptLog(LogFault::InodeOffset { ino: item.ino, boff, cluster, inodesize }),
        );
    }
    let len: usize = item.core.len();
    if len < LOG_DINODE_SIZE {
        return Err(Error::CorruptLog(LogFault::CoreShort { ino: item.ino, len }));
    }
    let version: u8 = item.core[DI_VERSION];
    if version != DI_VERSION_3 {
        return Err(
            Error::UnsupportedFeature(Unsupported::CoreVersion { ino: item.ino, version }),
        );
    }
    match disk_dinode_in(&item.core, order) {
        Ok(core) => {
            if core.len() > inodesize as usize {
                Err(
                    Error::CorruptLog(LogFault::CoreTooLarge { len: core.len(), inodesize }),
                )
            } else {
                Ok(core)
            }
        },
        Err(_) => {
            // A version-3 core of full length always has an on-disk form.
            assert(false);
            Err(Error::CorruptLog(LogFault::CoreShort { ino: item.ino, len }))
        },
    }
}

/// Whether an inode on disk with this sequence number is newer than a
/// transaction with that one. Zero and all ones are not sequence numbers.
pub open spec fn is_newer(stamped: u64, lsn: u64) -> bool {
    stamped != 0 && stamped != u64::MAX && stamped > lsn
}

/// An inode with a core and a sequence number put into it, and then the
/// checksum of the whole.
pub open spec fn inode_restamped(inode: Seq<u8>, core: Seq<u8>, lsn: u64) -> Seq<u8> {
    let numbered = patched(patched(inode, 0, core), DI_LSN as int, be64_bytes(lsn));
    patched(
        numbered,
        DI_CRC as int,
        le32_bytes(crc32c_of(with_zeroed_crc(numbered, DI_CRC as int))),
    )
}

/// A cluster with one inode item applied to it; nothing, if the inode there
/// is newer; or why the item cannot be applied.
pub open spec fn inode_applied(
    sb: Superblock,
    item: InodeItemView,
    core: Seq<u8>,
    buf: Seq<u8>,
    lsn: u64,
) -> Result<Option<Seq<u8>>, Error> {
    let boff = item.boffset as int;
    let inode = buf.subrange(boff, boff + sb.inodesize);
    let allocated = be16_at(inode, DI_MAGIC as int) == XFS_DINODE_MAGIC;
    let here = be64_at(inode, DI_INO as int);
    if allocated && here != item.ino {
        Err(
            Error::CorruptLog(
                LogFault::SlotTaken { ino: item.ino, here, boff: item.boffset, blkno: item.blkno },
            ),
        )
    } else if allocated && is_newer(be64_at(inode, DI_LSN as int), lsn) {
        Ok(None)
    } else {
        Ok(Some(patched(buf, boff, inode_restamped(inode, core, lsn))))
    }
}

/// Patch one inode's core into its cluster and restamp the inode's own
/// checksum.
///
/// `core` is the item's core as [`check_inode`] gives it and `cluster` the
/// cluster as it is on disk. What comes back is to be written in its place:
/// the whole cluster, since an inode is not necessarily a whole sector. A
/// cluster whose inode is newer already is left alone, which is a correct
/// outcome, not a failure.
///
/// The cluster addresses the inode, so nothing else has checked that it is
/// the same inode. An allocated one states its own number; a free slot says
/// nothing and is this item's to fill.
pub fn apply_inode(
    sb: &Superblock,
    item: &InodeItem,
    core: &[u8],
    cluster: Vec<u8>,
    lsn: u64,
) -> (r: Result<Option<Vec<u8>>, Error>)
    requires
        LOG_DINODE_SIZE <= core@.len() <= sb.inodesize,
        item.boffset + sb.inodesize <= cluster@.len(),
    ensures
        match r {
            Ok(Some(v)) => inode_applied(*sb, item@, core@, cluster@, lsn) == Ok::<
                Option<Seq<u8>>,
                Error,
            >(Some(v@)),
            Ok(None) => inode_applied(*sb, item@, core@, cluster@, lsn) == Ok::<
                Option<Seq<u8>>,
                Error,
            >(None),
            Err(e) => inode_applied(*sb, item@, core@, cluster@, lsn) == Err::<
                Option<Seq<u8>>,
                Error,
            >(e),
        },
{
    let mut buf = cluster;
    assert(buf@.len() == buf.len());
    let boff: usize = item.boffset as usize;
    let inodesize: usize = sb.inodesize as usize;
    let mut inode = vstd::slice::slice_to_vec(
        vstd::slice::slice_subrange(&buf, boff, boff + inodesize),
    );
    if be16(&inode, DI_MAGIC) == XFS_DINODE_MAGIC {
        let here: u64 = be64(&inode, DI_INO);
        if here != item.ino {
            return Err(
                Error::CorruptLog(
                    LogFault::SlotTaken {
                        ino: item.ino,
                        here,
                        boff: item.boffset,
                        blkno: item.blkno,
                    },
                ),
            );
        }
        // The logged sequence number cannot be trusted for this decision;
        // the disk's own can.
        let stamped: u64 = be64(&inode, DI_LSN);
        if stamped != 0 && stamped != u64::MAX && stamped > lsn {
            return Ok(None);
        }
    }
    put(&mut inode, 0, core);
    put(&mut inode, DI_LSN, &to_be64(lsn));
    // The checksum covers the whole inode, not the core.
    let crc = crc32c_with_zeroed_crc(&inode, DI_CRC);
    put(&mut inode, DI_CRC, &to_le32(crc));
    put(&mut buf, boff, &inode);
    Ok(Some(buf))
}

/// What a task does with the bytes it reads.
pub enum Work {
    /// Patch a buffer item's runs into a block.
    Block(BufItem),
    /// Put an inode item's core, in its on-disk form, into a cluster.
    Inode(InodeItem, Vec<u8>),
}

/// One item of a transaction made ready: which bytes to read, and what to
/// do with them.
pub struct Task {
    /// The operation that holds the item's format.
    pub from: usize,
    /// The operation behind the item's last.
    pub next: usize,
    /// Device offset of the block or cluster.
    pub offset: u64,
    /// Bytes in the block or cluster.
    pub len: usize,
    pub work: Work,
}

/// What a task does, as values.
pub enum WorkView {
    Block(BufItemView),
    Inode(InodeItemView, Seq<u8>),
}

/// A task, as values.
pub struct TaskView {
    pub from: usize,
    pub next: usize,
    pub offset: u64,
    pub len: usize,
    pub work: WorkView,
}

impl View for Work {
    type V = WorkView;

    open spec fn view(&self) -> WorkView {
        match self {
            Work::Block(item) => WorkView::Block(item@),
            Work::Inode(item, core) => WorkView::Inode(item@, core@),
        }
    }
}

impl View for Task {
    type V = TaskView;

    open spec fn view(&self) -> TaskView {
        TaskView {
            from: self.from,
            next: self.next,
            offset: self.offset,
            len: self.len,
            work: self.work@,
        }
    }
}

/// Refusal of an address that is beyond any device.
pub open spec fn beyond_device(blkno: u64) -> Error {
    Error::CorruptLog(LogFault::AddressBeyondDevice { blkno })
}

/// The item at operation `at` made ready, or why it cannot be applied.
#[verifier::opaque]
pub open spec fn task_at(sb: Superblock, ops: Seq<Op>, at: int, order: ByteOrder) -> Result<
    TaskView,
    Error,
> {
    let kind = le16_at(ops[at].data@, 0);
    if kind == XFS_LI_BUF {
        match buf_item_at(ops, at) {
            Err(e) => Err(e),
            Ok((item, size)) => if item.blkno * 512 > u64::MAX {
                Err(beyond_device(item.blkno))
            } else {
                Ok(
                    TaskView {
                        from: at as usize,
                        next: (at + size) as usize,
                        offset: (item.blkno * 512) as u64,
                        len: sb.blocksize as usize,
                        work: WorkView::Block(item),
                    },
                )
            },
        }
    } else if kind == XFS_LI_INODE {
        match inode_item_at(ops, at) {
            Err(e) => Err(e),
            Ok((item, size)) => match core_to_apply(sb, item, order) {
                Err(e) => Err(e),
                Ok(core) => if item.blkno * 512 > u64::MAX {
                    Err(beyond_device(item.blkno))
                } else {
                    Ok(
                        TaskView {
                            from: at as usize,
                            next: (at + size) as usize,
                            offset: (item.blkno * 512) as u64,
                            len: (item.len_bb * 512) as usize,
                            work: WorkView::Inode(item, core),
                        },
                    )
                },
            },
        }
    } else {
        Err(Error::UnsupportedFeature(Unsupported::UnknownItem { kind, at: at as usize }))
    }
}

/// Where to go on if the item at operation `at` is well-formed and not to
/// be applied: it is a cancel item, or cancelled by an item behind it.
#[verifier::opaque]
pub open spec fn passed_over(ops: Seq<Op>, at: int) -> Option<int> {
    let kind = le16_at(ops[at].data@, 0);
    if kind == XFS_LI_BUF {
        match buf_item_at(ops, at) {
            Err(_) => None,
            Ok((item, size)) => if is_cancel(ops[at].data@, item.blkno) || cancelled(
                ops,
                at,
                item.blkno,
            ) {
                Some(at + size)
            } else {
                None
            },
        }
    } else if kind == XFS_LI_INODE {
        match inode_item_at(ops, at) {
            Err(_) => None,
            Ok((item, size)) => if cancelled(ops, at, item.blkno) {
                Some(at + size)
            } else {
                None
            },
        }
    } else {
        None
    }
}

/// The first item to be applied from operation `at` on made ready, if there
/// is one left. Cancel items, and the items they cancel, are passed over.
pub open spec fn task_from(sb: Superblock, ops: Seq<Op>, at: int, order: ByteOrder) -> Result<
    Option<TaskView>,
    Error,
>
    decreases ops.len() - at,
    when 0 <= at <= ops.len()
    via task_from_advances
{
    let first = first_item(ops, at);
    if first >= ops.len() {
        Ok(None)
    } else {
        match passed_over(ops, first) {
            Some(next) => task_from(sb, ops, next, order),
            None => match task_at(sb, ops, first, order) {
                Err(e) => Err(e),
                Ok(task) => Ok(Some(task)),
            },
        }
    }
}

#[via_fn]
proof fn task_from_advances(sb: Superblock, ops: Seq<Op>, at: int, order: ByteOrder) {
    lemma_first_item(ops, at);
    let first = first_item(ops, at);
    if first < ops.len() {
        lemma_passed_over(ops, first);
    }
}

/// An item that is passed over spans what it says it spans.
pub(crate) proof fn lemma_passed_over(ops: Seq<Op>, at: int)
    requires
        0 <= at < ops.len(),
    ensures
        passed_over(ops, at) matches Some(next) ==> {
            &&& item_span(ops, at) == Some(next - at)
            &&& at < next <= ops.len()
        },
{
    reveal(passed_over);
}

impl TaskView {
    /// The bytes to write in place of the ones read, if any, or why the
    /// item cannot be applied to them.
    pub open spec fn outcome(self, sb: Superblock, ops: Seq<Op>, buf: Seq<u8>, lsn: u64) -> Result<
        Option<Seq<u8>>,
        Error,
    > {
        match self.work {
            WorkView::Block(item) => match block_applied(
                sb,
                item,
                ops.subrange(self.from + 1, self.next as int),
                buf,
                lsn,
            ) {
                Err(e) => Err(e),
                Ok(bytes) => Ok(Some(bytes)),
            },
            WorkView::Inode(item, core) => inode_applied(sb, item, core, buf, lsn),
        }
    }

    /// How many byte runs writing the task's outcome writes.
    pub open spec fn runs(self) -> nat {
        match self.work {
            WorkView::Block(item) => item.runs.len(),
            WorkView::Inode(..) => 1,
        }
    }
}

/// What holds of a task that was made ready.
pub open spec fn is_ready(sb: Superblock, ops: Seq<Op>, task: TaskView) -> bool {
    &&& task.from < task.next <= ops.len()
    &&& task.runs() < task.next - task.from
    &&& match task.work {
        WorkView::Block(item) => {
            &&& runs_carried(item.runs, ops.subrange(task.from + 1, task.next as int))
            &&& task.len == sb.blocksize
        },
        WorkView::Inode(item, core) => {
            &&& LOG_DINODE_SIZE <= core.len() <= sb.inodesize
            &&& item.boffset + sb.inodesize <= task.len
            &&& task.len == item.len_bb * 512
        },
    }
}

/// A task that was made ready lies within its transaction and can be
/// carried out.
pub(crate) proof fn lemma_ready(sb: Superblock, ops: Seq<Op>, at: int, order: ByteOrder)
    requires
        0 <= at < ops.len() <= usize::MAX,
    ensures
        task_at(sb, ops, at, order) matches Ok(task) ==> {
            &&& is_ready(sb, ops, task)
            &&& task.from == at
            &&& item_span(ops, at) == Some(task.next - at)
        },
{
    reveal(task_at);
    if let Ok(task) = task_at(sb, ops, at, order) {
        if let WorkView::Block(item) = task.work {
            law_accepted_buffer_item_agrees(ops, at);
            let data = ops.subrange(task.from + 1, task.next as int);
            assert forall|k: int| 0 <= k < item.runs.len() implies {
                &&& (#[trigger] item.runs[k]).1 == data[k].data@.len()
                &&& item.runs[k].0 + item.runs[k].1 <= u64::MAX
            } by {
                assert(data[k] == ops[at + 1 + k]);
            }
        }
    }
}

/// The next task is an item ahead and within the transaction, and is not
/// passed over.
pub(crate) proof fn lemma_task_from(sb: Superblock, ops: Seq<Op>, at: int, order: ByteOrder)
    requires
        0 <= at <= ops.len() <= usize::MAX,
    ensures
        task_from(sb, ops, at, order) matches Ok(Some(task)) ==> {
            &&& is_ready(sb, ops, task)
            &&& at <= task.from < task.next <= ops.len()
            &&& task_at(sb, ops, task.from as int, order) == Ok::<TaskView, Error>(task)
            &&& passed_over(ops, task.from as int) is None
            &&& is_item(ops, at, task.from as int)
            &&& forall|k: int|
                #[trigger] is_item(ops, task.next as int, k) ==> is_item(ops, at, k)
        },
    decreases ops.len() - at,
{
    lemma_first_item(ops, at);
    let first = first_item(ops, at);
    if first < ops.len() {
        lemma_passed_over(ops, first);
        lemma_ready(sb, ops, first, order);
        if let Some(next) = passed_over(ops, first) {
            lemma_task_from(sb, ops, next, order);
            assert forall|k: int| #[trigger] is_item(ops, next, k) implies is_item(ops, at, k) by {}
            if let Ok(Some(task)) = task_from(sb, ops, next, order) {
                assert(is_item(ops, next, task.from as int));
            }
        } else if let Ok(task) = task_at(sb, ops, first, order) {
            assert forall|k: int| #[trigger]
                is_item(ops, task.next as int, k) implies is_item(ops, at, k) by {}
        }
    }
}

/// What an item comes to: it is passed over, or made ready.
enum Step {
    Passed(usize),
    Ready(Task),
}

/// Pass over the item at operation `at`, or make it ready.
fn ready(sb: &Superblock, ops: &[Op], at: usize, order: ByteOrder) -> (r: Result<Step, Error>)
    requires
        sb.valid(),
        at < ops.len(),
        ops@[at as int].data@.len() >= 2,
    ensures
        match r {
            Ok(Step::Passed(next)) => passed_over(ops@, at as int) == Some(next as int),
            Ok(Step::Ready(task)) => {
                &&& passed_over(ops@, at as int) is None
                &&& task_at(*sb, ops@, at as int, order) == Ok::<TaskView, Error>(task@)
            },
            Err(e) => {
                &&& passed_over(ops@, at as int) is None
                &&& task_at(*sb, ops@, at as int, order) == Err::<TaskView, Error>(e)
            },
        },
{
    proof {
        reveal(task_at);
        reveal(passed_over);
        lemma_ready(*sb, ops@, at as int, order);
        law_accepted_buffer_item_agrees(ops@, at as int);
    }
    let data = &ops[at].data;
    let kind: u16 = le16(data, 0);
    if kind == XFS_LI_BUF {
        let (item, size) = match parse_buf(ops, at) {
            Ok(found) => found,
            Err(e) => {
                return Err(e);
            },
        };
        proof {
            law_cancel_items_span_one_operation(ops@, at as int, item.blkno);
        }
        if size == 1 && le16(data, BLF_FLAGS) & BLF_CANCEL != 0 || is_cancelled_from(
            ops,
            at + size,
            item.blkno,
        ) {
            return Ok(Step::Passed(at + size));
        }
        if item.blkno > u64::MAX / BBSIZE as u64 {
            return Err(
                Error::CorruptLog(LogFault::AddressBeyondDevice { blkno: item.blkno }),
            );
        }
        Ok(
            Step::Ready(
                Task {
                    from: at,
                    next: at + size,
                    offset: item.blkno * BBSIZE as u64,
                    len: sb.blocksize as usize,
                    work: Work::Block(item),
                },
            ),
        )
    } else if kind == XFS_LI_INODE {
        let (item, size) = match parse_inode(ops, at) {
            Ok(found) => found,
            Err(e) => {
                return Err(e);
            },
        };
        if is_cancelled_from(ops, at + size, item.blkno) {
            return Ok(Step::Passed(at + size));
        }
        let core = match check_inode(sb, &item, order) {
            Ok(core) => core,
            Err(e) => {
                return Err(e);
            },
        };
        if item.blkno > u64::MAX / BBSIZE as u64 {
            return Err(
                Error::CorruptLog(LogFault::AddressBeyondDevice { blkno: item.blkno }),
            );
        }
        Ok(
            Step::Ready(
                Task {
                    from: at,
                    next: at + size,
                    offset: item.blkno * BBSIZE as u64,
                    len: item.len_bb as usize * BBSIZE,
                    work: Work::Inode(item, core),
                },
            ),
        )
    } else {
        Err(Error::UnsupportedFeature(Unsupported::UnknownItem { kind, at }))
    }
}

/// Make the first item to be applied from operation `at` on ready, if there
/// is one left.
///
/// A cancel item is passed over, and so is an item for a block that an item
/// behind it cancels.
pub fn next_task(sb: &Superblock, ops: &[Op], at: usize, order: ByteOrder) -> (r: Result<
    Option<Task>,
    Error,
>)
    requires
        sb.valid(),
        at <= ops.len(),
    ensures
        match r {
            Ok(Some(task)) => {
                &&& task_from(*sb, ops@, at as int, order) == Ok::<Option<TaskView>, Error>(
                    Some(task@),
                )
                &&& is_ready(*sb, ops@, task@)
                &&& at <= task.from
            },
            Ok(None) => task_from(*sb, ops@, at as int, order) == Ok::<Option<TaskView>, Error>(
                None,
            ),
            Err(e) => task_from(*sb, ops@, at as int, order) == Err::<Option<TaskView>, Error>(e),
        },
{
    let mut i: usize = at;
    loop
        invariant
            sb.valid(),
            at <= i <= ops.len(),
            task_from(*sb, ops@, at as int, order) == task_from(*sb, ops@, i as int, order),
        decreases ops.len() - i,
    {
        let first: usize = find_item(ops, i);
        if first >= ops.len() {
            return Ok(None);
        }
        proof {
            lemma_passed_over(ops@, first as int);
            lemma_ready(*sb, ops@, first as int, order);
        }
        match ready(sb, ops, first, order) {
            Ok(Step::Passed(next)) => {
                i = next;
            },
            Ok(Step::Ready(task)) => {
                return Ok(Some(task));
            },
            Err(e) => {
                return Err(e);
            },
        }
    }
}

impl Task {
    /// Carry the task out on the bytes read for it. What comes back, if
    /// anything, is to be written in their place.
    pub fn apply(&self, sb: &Superblock, ops: &[Op], buf: Vec<u8>, lsn: u64) -> (r: Result<
        Option<Vec<u8>>,
        Error,
    >)
        requires
            sb.valid(),
            is_ready(*sb, ops@, self@),
            buf@.len() == self.len,
        ensures
            match r {
                Ok(Some(v)) => self@.outcome(*sb, ops@, buf@, lsn) == Ok::<Option<Seq<u8>>, Error>(
                    Some(v@),
                ),
                Ok(None) => self@.outcome(*sb, ops@, buf@, lsn) == Ok::<Option<Seq<u8>>, Error>(
                    None,
                ),
                Err(e) => self@.outcome(*sb, ops@, buf@, lsn) == Err::<Option<Seq<u8>>, Error>(e),
            },
    {
        match &self.work {
            Work::Block(item) => {
                let data = vstd::slice::slice_subrange(ops, self.from + 1, self.next);
                match apply_one(sb, item, data, buf, lsn) {
                    Ok(bytes) => Ok(Some(bytes)),
                    Err(e) => Err(e),
                }
            },
            Work::Inode(item, core) => apply_inode(sb, item, core, buf, lsn),
        }
    }

    /// How many byte runs writing the task's outcome writes.
    pub fn run_count(&self) -> (r: usize)
        ensures
            r == self@.runs(),
    {
        match &self.work {
            Work::Block(item) => item.runs.len(),
            Work::Inode(_, _) => 1,
        }
    }
}

/// What is written in place of some bytes is as long as they are.
pub proof fn law_outcome_keeps_the_length(
    sb: Superblock,
    ops: Seq<Op>,
    task: TaskView,
    buf: Seq<u8>,
    lsn: u64,
)
    ensures
        task.outcome(sb, ops, buf, lsn) matches Ok(Some(bytes)) ==> bytes.len() == buf.len(),
{
    if let WorkView::Block(item) = task.work {
        lemma_with_runs_len(buf, item.runs, ops.subrange(task.from + 1, task.next as int));
    }
}

} // verus!
