//! What holds of a device that a transaction was applied to.

use vstd::prelude::*;
use crate::apply::{applied, available, law_transaction_goes_item_by_item};
use crate::bytes::{lemma_patched, patched};
use crate::checksum::{crc32c_of, law_checksum_ignores_its_own_field, with_zeroed_crc};
use crate::crc_kind::{kind, kinds, law_kind_is_known, law_restamped_block_verifies, CrcKind};
use crate::dinode::{
    crc_blanked, law_logged_core_comes_back, law_logged_core_has_no_checksum, logged_core,
};
use crate::endian::{
    be16_at, be64_at, be64_bytes, le16_at, le32_at, le32_bytes, lemma_be64_reads_back,
    lemma_le32_reads_back,
};
use crate::error::Error;
use crate::format::log_items::{
    DI_CRC, DI_INO, DI_LSN, DI_MAGIC, DI_VERSION, DI_VERSION_3, LOG_DINODE_SIZE, XFS_DINODE_MAGIC,
    XFS_ILOG_CORE, XFS_LI_INODE, XFS_TRANS_CHECKPOINT,
};
use crate::frame_laws::{all_frame, law_frame_carries_no_item};
use crate::log::ByteOrder;
use crate::log_item::{
    buf_item_at, buf_map, cancelled, cancels_from, first_item, inode_item_at, is_cancel, is_item,
    is_transaction_header, item_span, law_accepted_buffer_item_agrees,
    law_runs_are_the_maximal_runs, lemma_first_item, BufItemView, InodeItemView,
};
use crate::log_laws::{
    law_buffer_adds_up_to_the_inode, law_inode_format_reads_back,
    law_transaction_header_reads_back,
};
use crate::log_write::{
    buffer_containing, core_operations, inode_format_bytes, op_values, InodeBuffer, Op,
};
use crate::superblock::Superblock;
use crate::task::{
    block_applied, core_to_apply, first_overrun, inode_applied, inode_restamped, is_newer,
    lemma_task_from, passed_over, task_at, task_from, with_runs, TaskView,
    WorkView,
};

verus! {

/// Whether a byte of a block lies in one of some runs.
pub open spec fn in_runs(runs: Seq<(u64, u64)>, i: int) -> bool {
    exists|k: int| 0 <= k < runs.len() && (#[trigger] runs[k]).0 <= i < runs[k].0 + runs[k].1
}

/// Whether runs are in ascending order and do not touch.
pub open spec fn ascending(runs: Seq<(u64, u64)>) -> bool {
    forall|j: int, k: int|
        #![trigger runs[j], runs[k]]
        0 <= j < k < runs.len() ==> runs[j].0 + runs[j].1 < runs[k].0
}

/// Whether a byte of a block is one that restamping writes.
pub open spec fn is_stamp(k: CrcKind, i: int) -> bool {
    k.lsn_off <= i < k.lsn_off + 8 || k.crc_off <= i < k.crc_off + 4
}

/// Where no run overruns, all are within the block.
proof fn lemma_no_overrun(runs: Seq<(u64, u64)>, len: nat, k: int)
    requires
        0 <= k,
        first_overrun(runs, len, k) is None,
    ensures
        forall|i: int| k <= i < runs.len() ==> (#[trigger] runs[i]).0 + runs[i].1 <= len,
    decreases runs.len() - k,
{
    if k < runs.len() {
        lemma_no_overrun(runs, len, k + 1);
    }
}

/// Patching ascending runs in puts each run's data where the run is, and
/// changes nothing outside the runs.
proof fn lemma_runs_land(buf: Seq<u8>, runs: Seq<(u64, u64)>, data: Seq<Op>)
    requires
        ascending(runs),
        runs.len() <= data.len(),
        forall|k: int|
            0 <= k < runs.len() ==> (#[trigger] runs[k]).1 == data[k].data@.len() && runs[k].0
                + runs[k].1 <= buf.len(),
    ensures
        with_runs(buf, runs, data).len() == buf.len(),
        forall|k: int, i: int|
            #![trigger runs[k], with_runs(buf, runs, data)[i]]
            0 <= k < runs.len() && runs[k].0 <= i < runs[k].0 + runs[k].1 ==> with_runs(
                buf,
                runs,
                data,
            )[i] == data[k].data@[i - runs[k].0],
        forall|i: int|
            0 <= i < buf.len() && !in_runs(runs, i) ==> #[trigger] with_runs(buf, runs, data)[i]
                == buf[i],
    decreases runs.len(),
{
    if runs.len() > 0 {
        let most = runs.drop_last();
        let n = runs.len() - 1;
        assert(forall|k: int| 0 <= k < n ==> #[trigger] most[k] == runs[k]);
        lemma_runs_land(buf, most, data);
        let before = with_runs(buf, most, data);
        let after = with_runs(buf, runs, data);
        assert(after == patched(before, runs[n].0 as int, data[n].data@));
        assert forall|k: int, i: int|
            #![trigger runs[k], after[i]]
            0 <= k < runs.len() && runs[k].0 <= i < runs[k].0 + runs[k].1 implies after[i]
            == data[k].data@[i - runs[k].0] by {
            if k < n {
                assert(most[k] == runs[k]);
                assert(runs[k].0 + runs[k].1 < runs[n].0);
                assert(before[i] == data[k].data@[i - runs[k].0]);
            }
        }
        assert forall|i: int| 0 <= i < buf.len() && !in_runs(runs, i) implies #[trigger] after[i]
            == buf[i] by {
            assert(!in_runs(most, i)) by {
                if in_runs(most, i) {
                    let k = choose|k: int|
                        0 <= k < most.len() && (#[trigger] most[k]).0 <= i < most[k].0 + most[k].1;
                    assert(runs[k].0 <= i < runs[k].0 + runs[k].1);
                }
            }
            assert(!(runs[n].0 <= i < runs[n].0 + runs[n].1));
            assert(before[i] == buf[i]);
        }
    }
}

/// A buffer item lands where it says. In the block that comes out, each run
/// holds its data operation's bytes and every byte outside the runs is as
/// it was, except for the sequence number, which is the transaction's, and
/// the checksum, which verifies. The block was of a known kind, and its own
/// checksum verified before.
pub proof fn law_buffer_item_lands(
    sb: Superblock,
    ops: Seq<Op>,
    at: int,
    item: BufItemView,
    size: usize,
    buf: Seq<u8>,
    lsn: u64,
    after: Seq<u8>,
)
    requires
        0 <= at < ops.len(),
        buf_item_at(ops, at) == Ok::<(BufItemView, usize), Error>((item, size)),
        block_applied(sb, item, ops.subrange(at + 1, at + size), buf, lsn) == Ok::<
            Seq<u8>,
            Error,
        >(after),
    ensures
        ({
            let k = kind(buf, sb)->0;
            &&& kind(buf, sb) is Some && kinds().contains(k) && k.describes(buf, sb)
            &&& after.len() == buf.len()
            &&& be64_at(after, k.lsn_off as int) == lsn
            &&& le32_at(after, k.crc_off as int) == k.checksum(after, sb)
            &&& forall|r: int, i: int|
                #![trigger item.runs[r], after[i]]
                0 <= r < item.runs.len() && item.runs[r].0 <= i < item.runs[r].0 + item.runs[r].1
                    && !is_stamp(k, i) ==> after[i] == ops[at + 1 + r].data@[i - item.runs[r].0]
            &&& forall|i: int|
                0 <= i < buf.len() && !in_runs(item.runs, i) && !is_stamp(k, i)
                    ==> #[trigger] after[i] == buf[i]
        }),
{
    law_kind_is_known(buf, sb);
    law_accepted_buffer_item_agrees(ops, at);
    let data = ops.subrange(at + 1, at + size);
    let map = buf_map(ops[at].data@);
    law_runs_are_the_maximal_runs(map);
    assert(forall|r: int| 0 <= r < item.runs.len() ==> #[trigger] data[r] == ops[at + 1 + r]);
    lemma_no_overrun(item.runs, buf.len(), 0);
    assert forall|r: int| 0 <= r < item.runs.len() implies (#[trigger] item.runs[r]).1
        == data[r].data@.len() && item.runs[r].0 + item.runs[r].1 <= buf.len() by {
        assert(data[r] == ops[at + 1 + r]);
    }
    lemma_runs_land(buf, item.runs, data);
    let k = kind(buf, sb)->0;
    let patched_in = with_runs(buf, item.runs, data);
    law_restamped_block_verifies(k, patched_in, sb, lsn);
    assert forall|r: int, i: int|
        #![trigger item.runs[r], after[i]]
        0 <= r < item.runs.len() && item.runs[r].0 <= i < item.runs[r].0 + item.runs[r].1
            && !is_stamp(k, i) implies after[i] == ops[at + 1 + r].data@[i - item.runs[r].0] by {
        assert(data[r] == ops[at + 1 + r]);
        assert(patched_in[i] == data[r].data@[i - item.runs[r].0]);
        assert(after[i] == patched_in[i]);
    }
}

/// Restamping an inode leaves its length and everything beyond the core as
/// they were. In the core, all but the sequence number, which is the
/// transaction's, and the checksum, which verifies over the whole inode,
/// come from the item.
pub proof fn law_restamped_inode_verifies(inode: Seq<u8>, core: Seq<u8>, lsn: u64)
    requires
        DI_LSN + 8 <= core.len() <= inode.len(),
    ensures
        ({
            let after = inode_restamped(inode, core, lsn);
            &&& after.len() == inode.len()
            &&& be64_at(after, DI_LSN as int) == lsn
            &&& le32_at(after, DI_CRC as int) == crc32c_of(with_zeroed_crc(after, DI_CRC as int))
            &&& forall|i: int|
                0 <= i < inode.len() && !(DI_LSN <= i < DI_LSN + 8) && !(DI_CRC <= i < DI_CRC + 4)
                    ==> #[trigger] after[i] == (if i < core.len() {
                    core[i]
                } else {
                    inode[i]
                })
        }),
{
    let cored = patched(inode, 0, core);
    let numbered = patched(cored, DI_LSN as int, be64_bytes(lsn));
    let crc = crc32c_of(with_zeroed_crc(numbered, DI_CRC as int));
    let after = inode_restamped(inode, core, lsn);
    lemma_patched(cored, DI_LSN as int, be64_bytes(lsn));
    lemma_patched(numbered, DI_CRC as int, le32_bytes(crc));
    assert(after.subrange(DI_LSN as int, DI_LSN + 8) =~= be64_bytes(lsn));
    lemma_be64_reads_back(after, DI_LSN as int, lsn);
    lemma_le32_reads_back(after, DI_CRC as int, crc);
    law_checksum_ignores_its_own_field(numbered, DI_CRC as int, le32_bytes(crc));
}

/// An inode item touches its own slot of its cluster and nothing else: the
/// inodes packed around it stay as they were. A slot that another inode
/// occupies is refused, and one that is newer already is left alone.
pub proof fn law_inode_item_keeps_to_its_slot(
    sb: Superblock,
    item: InodeItemView,
    core: Seq<u8>,
    buf: Seq<u8>,
    lsn: u64,
)
    requires
        DI_LSN + 8 <= core.len() <= sb.inodesize,
        item.boffset + sb.inodesize <= buf.len(),
    ensures
        ({
            let boff = item.boffset as int;
            let slot = buf.subrange(boff, boff + sb.inodesize);
            let allocated = be16_at(slot, DI_MAGIC as int) == XFS_DINODE_MAGIC;
            let here = be64_at(slot, DI_INO as int);
            let newer = is_newer(be64_at(slot, DI_LSN as int), lsn);
            let outcome = inode_applied(sb, item, core, buf, lsn);
            &&& outcome is Err <==> allocated && here != item.ino
            &&& outcome == Ok::<Option<Seq<u8>>, Error>(None) <==> allocated && here == item.ino
                && newer
            &&& outcome matches Ok(Some(after)) ==> {
                &&& after.len() == buf.len()
                &&& after.subrange(boff, boff + sb.inodesize) == inode_restamped(slot, core, lsn)
                &&& forall|i: int|
                    0 <= i < buf.len() && !(boff <= i < boff + sb.inodesize)
                        ==> #[trigger] after[i] == buf[i]
            }
        }),
{
    let boff = item.boffset as int;
    let slot = buf.subrange(boff, boff + sb.inodesize);
    law_restamped_inode_verifies(slot, core, lsn);
    lemma_patched(buf, boff, inode_restamped(slot, core, lsn));
}

/// Applying a transaction does not change the size of what it is applied
/// to.
pub proof fn law_image_keeps_its_size(
    image: Seq<u8>,
    sb: Superblock,
    ops: Seq<Op>,
    lsn: u64,
    order: ByteOrder,
    at: int,
    written: int,
)
    requires
        sb.valid(),
        0 <= at <= ops.len() <= usize::MAX,
    ensures
        applied(image, sb, ops, lsn, order, at, written).0.len() == image.len(),
    decreases ops.len() - at,
{
    law_transaction_goes_item_by_item(image, sb, ops, lsn, order, at, written);
    lemma_task_from(sb, ops, at, order);
    if let Ok(Some(task)) = task_from(sb, ops, at, order) {
        if task.len <= available(image, task.offset) {
            let buf = image.subrange(task.offset as int, task.offset + task.len);
            match task.outcome(sb, ops, buf, lsn) {
                Err(_) => {},
                Ok(None) => {
                    law_image_keeps_its_size(
                        image,
                        sb,
                        ops,
                        lsn,
                        order,
                        task.next as int,
                        written,
                    );
                },
                Ok(Some(bytes)) => {
                    law_image_keeps_its_size(
                        patched(image, task.offset as int, bytes),
                        sb,
                        ops,
                        lsn,
                        order,
                        task.next as int,
                        written + task.runs(),
                    );
                },
            }
        }
    }
}

/// Whether an item from operation `at` on that is not passed over is about
/// the byte at `i`.
pub open spec fn is_about(sb: Superblock, ops: Seq<Op>, at: int, order: ByteOrder, i: int) -> bool {
    exists|k: int| #[trigger]
        is_item(ops, at, k) && passed_over(ops, k) is None && covers(
            task_at(sb, ops, k, order),
            i,
        )
}

/// Whether an item that was made ready is about the byte at `i`.
pub open spec fn covers(task: Result<TaskView, Error>, i: int) -> bool {
    task matches Ok(task) && task.offset <= i < task.offset + task.len
}

/// Applying a transaction leaves every byte that none of its items is about
/// as it was, whether the transaction is applied in full or refused.
pub proof fn law_other_bytes_stay(
    image: Seq<u8>,
    sb: Superblock,
    ops: Seq<Op>,
    lsn: u64,
    order: ByteOrder,
    at: int,
    written: int,
    i: int,
)
    requires
        sb.valid(),
        0 <= at <= ops.len() <= usize::MAX,
        0 <= i < image.len(),
        !is_about(sb, ops, at, order, i),
    ensures
        applied(image, sb, ops, lsn, order, at, written).0[i] == image[i],
    decreases ops.len() - at,
{
    law_transaction_goes_item_by_item(image, sb, ops, lsn, order, at, written);
    lemma_task_from(sb, ops, at, order);
    if let Ok(Some(task)) = task_from(sb, ops, at, order) {
        assert(is_item(ops, at, task.from as int));
        assert(!is_about(sb, ops, task.next as int, order, i)) by {
            if is_about(sb, ops, task.next as int, order, i) {
                let k = choose|k: int| #[trigger]
                    is_item(ops, task.next as int, k) && passed_over(ops, k) is None && covers(
                        task_at(sb, ops, k, order),
                        i,
                    );
                assert(is_item(ops, at, k));
            }
        }
        if task.len <= available(image, task.offset) {
            let buf = image.subrange(task.offset as int, task.offset + task.len);
            match task.outcome(sb, ops, buf, lsn) {
                Err(_) => {},
                Ok(None) => {
                    law_other_bytes_stay(
                        image,
                        sb,
                        ops,
                        lsn,
                        order,
                        task.next as int,
                        written,
                        i,
                    );
                },
                Ok(Some(bytes)) => {
                    law_other_bytes_stay(
                        patched(image, task.offset as int, bytes),
                        sb,
                        ops,
                        lsn,
                        order,
                        task.next as int,
                        written + task.runs(),
                        i,
                    );
                },
            }
        }
    }
}

/// Whether the item at `k` is void for a block: it is a cancel item for it,
/// or an item behind it cancels the block.
pub open spec fn is_void(ops: Seq<Op>, k: int, blkno: u64) -> bool {
    is_cancel(ops[k].data@, blkno) || cancelled(ops, k, blkno)
}

/// An item that could be applied is passed over exactly if it is void for
/// the block it is about.
pub proof fn law_void_items_are_passed_over(
    sb: Superblock,
    ops: Seq<Op>,
    k: int,
    order: ByteOrder,
)
    requires
        0 <= k < ops.len(),
    ensures
        task_at(sb, ops, k, order) matches Ok(task) ==> (passed_over(ops, k) is Some <==> is_void(
            ops,
            k,
            task.offset / 512,
        )),
{
    reveal(task_at);
    reveal(passed_over);
}

/// A block that only void items are about is unchanged: a cancel item
/// changes nothing, and suppresses the items before it for the same block.
pub proof fn law_cancelled_block_is_unchanged(
    image: Seq<u8>,
    sb: Superblock,
    ops: Seq<Op>,
    lsn: u64,
    order: ByteOrder,
    i: int,
)
    requires
        sb.valid(),
        ops.len() <= usize::MAX,
        0 <= i < image.len(),
        forall|k: int| #[trigger]
            is_item(ops, 0, k) && covers(task_at(sb, ops, k, order), i) ==> is_void(
                ops,
                k,
                task_at(sb, ops, k, order)->Ok_0.offset / 512,
            ),
    ensures
        applied(image, sb, ops, lsn, order, 0, 0).0[i] == image[i],
{
    assert(!is_about(sb, ops, 0, order, i)) by {
        if is_about(sb, ops, 0, order, i) {
            let k = choose|k: int| #[trigger]
                is_item(ops, 0, k) && passed_over(ops, k) is None && covers(
                    task_at(sb, ops, k, order),
                    i,
                );
            lemma_items_are_within(ops, 0, k);
            law_void_items_are_passed_over(sb, ops, k, order);
        }
    }
    law_other_bytes_stay(image, sb, ops, lsn, order, 0, 0, i);
}

/// An item starts at one of the operations.
proof fn lemma_items_are_within(ops: Seq<Op>, at: int, k: int)
    requires
        0 <= at <= ops.len(),
        is_item(ops, at, k),
    ensures
        at <= k < ops.len(),
    decreases ops.len() - at,
{
    lemma_first_item(ops, at);
    let first = first_item(ops, at);
    if k != first {
        lemma_items_are_within(ops, first + item_span(ops, first)->0, k);
    }
}

/// A transaction whose first item is refused changes nothing.
pub proof fn law_refusal_changes_nothing(
    image: Seq<u8>,
    sb: Superblock,
    ops: Seq<Op>,
    lsn: u64,
    order: ByteOrder,
    at: int,
    written: int,
)
    requires
        sb.valid(),
        0 <= at <= ops.len() <= usize::MAX,
        match task_from(sb, ops, at, order) {
            Err(_) => true,
            Ok(None) => false,
            Ok(Some(task)) => task.len <= available(image, task.offset) ==> task.outcome(
                sb,
                ops,
                image.subrange(task.offset as int, task.offset + task.len),
                lsn,
            ) is Err,
        },
    ensures
        applied(image, sb, ops, lsn, order, at, written).0 == image,
        applied(image, sb, ops, lsn, order, at, written).1 is Err,
{
    law_transaction_goes_item_by_item(image, sb, ops, lsn, order, at, written);
}

/// The items from operation `at` on whose outcome is written, in order.
#[verifier::opaque]
pub open spec fn written_tasks(
    image: Seq<u8>,
    sb: Superblock,
    ops: Seq<Op>,
    lsn: u64,
    order: ByteOrder,
    at: int,
) -> Seq<TaskView>
    decreases ops.len() - at,
    when 0 <= at <= ops.len() <= usize::MAX
    via written_tasks_advances
{
    match task_from(sb, ops, at, order) {
        Ok(Some(task)) => if task.len > available(image, task.offset) {
            Seq::empty()
        } else {
            let buf = image.subrange(task.offset as int, task.offset + task.len);
            match task.outcome(sb, ops, buf, lsn) {
                Err(_) => Seq::empty(),
                Ok(None) => written_tasks(image, sb, ops, lsn, order, task.next as int),
                Ok(Some(bytes)) => seq![task] + written_tasks(
                    patched(image, task.offset as int, bytes),
                    sb,
                    ops,
                    lsn,
                    order,
                    task.next as int,
                ),
            }
        },
        _ => Seq::empty(),
    }
}

#[via_fn]
proof fn written_tasks_advances(
    image: Seq<u8>,
    sb: Superblock,
    ops: Seq<Op>,
    lsn: u64,
    order: ByteOrder,
    at: int,
) {
    lemma_task_from(sb, ops, at, order);
}

/// How many byte runs some items have: one for each run of a buffer item,
/// and one for each inode.
pub open spec fn runs_in(tasks: Seq<TaskView>) -> int
    decreases tasks.len(),
{
    if tasks.len() == 0 {
        0
    } else {
        tasks[0].runs() + runs_in(tasks.drop_first())
    }
}

/// The count that comes back is exactly of what was written: one for each
/// run of a buffer item written, and one for each inode written.
pub proof fn law_count_is_of_what_was_written(
    image: Seq<u8>,
    sb: Superblock,
    ops: Seq<Op>,
    lsn: u64,
    order: ByteOrder,
    at: int,
    written: int,
)
    requires
        sb.valid(),
        0 <= at <= ops.len() <= usize::MAX,
    ensures
        applied(image, sb, ops, lsn, order, at, written).1 matches Ok(count) ==> count == written
            + runs_in(written_tasks(image, sb, ops, lsn, order, at)),
    decreases ops.len() - at,
{
    reveal_with_fuel(written_tasks, 2);
    law_transaction_goes_item_by_item(image, sb, ops, lsn, order, at, written);
    lemma_task_from(sb, ops, at, order);
    if let Ok(Some(task)) = task_from(sb, ops, at, order) {
        if task.len <= available(image, task.offset) {
            let buf = image.subrange(task.offset as int, task.offset + task.len);
            match task.outcome(sb, ops, buf, lsn) {
                Err(_) => {},
                Ok(None) => {
                    law_count_is_of_what_was_written(
                        image,
                        sb,
                        ops,
                        lsn,
                        order,
                        task.next as int,
                        written,
                    );
                },
                Ok(Some(bytes)) => {
                    let after = patched(image, task.offset as int, bytes);
                    law_count_is_of_what_was_written(
                        after,
                        sb,
                        ops,
                        lsn,
                        order,
                        task.next as int,
                        written + task.runs(),
                    );
                    let rest = written_tasks(after, sb, ops, lsn, order, task.next as int);
                    assert((seq![task] + rest).drop_first() =~= rest);
                },
            }
        }
    }
}

/// Whether byte `at` of an image is an inode slot that an item for inode
/// `ino` may fill: it is a slot of its cluster, the cluster is there, and
/// the slot is free or holds that inode in a state that is not newer.
#[verifier::opaque]
pub open spec fn slot_is_for(image: Seq<u8>, sb: Superblock, at: u64, ino: u64, lsn: u64) -> bool {
    let buffer = buffer_containing(at, sb.cluster_bytes);
    let raw = image.subrange(at as int, at + sb.inodesize);
    &&& LOG_DINODE_SIZE <= sb.inodesize
    &&& sb.cluster_bytes % 512 == 0
    &&& buffer.boffset % (sb.inodesize as u32) == 0
    &&& buffer.boffset + sb.inodesize <= sb.cluster_bytes
    &&& buffer.blkno * 512 + sb.cluster_bytes <= image.len()
    &&& be16_at(raw, DI_MAGIC as int) == XFS_DINODE_MAGIC ==> be64_at(raw, DI_INO as int) == ino
        && !is_newer(be64_at(raw, DI_LSN as int), lsn)
}

/// Whether two operations are the item that logs a version-3 inode for the
/// slot at byte `at`.
#[verifier::opaque]
spec fn logs_inode(
    ops: Seq<Op>,
    sb: Superblock,
    at: u64,
    ino: u64,
    inode: Seq<u8>,
    order: ByteOrder,
) -> bool {
    let buffer = buffer_containing(at, sb.cluster_bytes);
    &&& ops.len() == 2
    &&& ops[0].data@ == inode_format_bytes(ino, XFS_ILOG_CORE, buffer, 2, 0)
    &&& LOG_DINODE_SIZE <= inode.len()
    &&& inode[DI_VERSION as int] == DI_VERSION_3
    &&& logged_core(inode, order) == Ok::<Seq<u8>, &'static str>(ops[1].data@)
}

/// The item that logs an inode, made ready.
proof fn lemma_logged_inode_is_ready(
    image: Seq<u8>,
    sb: Superblock,
    ops: Seq<Op>,
    lsn: u64,
    order: ByteOrder,
    at: u64,
    ino: u64,
    inode: Seq<u8>,
) -> (task: TaskView)
    requires
        sb.valid(),
        slot_is_for(image, sb, at, ino, lsn),
        logs_inode(ops, sb, at, ino, inode, order),
    ensures
        task_from(sb, ops, 0, order) == Ok::<Option<TaskView>, Error>(Some(task)),
        task.next == 2,
        task.offset + task.len <= image.len(),
        ops.len() == 2,
        ({
            let raw = image.subrange(at as int, at + sb.inodesize);
            &&& task.work matches WorkView::Inode(item, core)
            &&& task.offset + item.boffset == at
            &&& core == crc_blanked(inode.subrange(0, 176), 3)
            &&& core.len() == 176
            &&& be16_at(raw, DI_MAGIC as int) == XFS_DINODE_MAGIC ==> be64_at(raw, DI_INO as int)
                == item.ino && !is_newer(be64_at(raw, DI_LSN as int), lsn)
        }),
{
    reveal(slot_is_for);
    reveal(logs_inode);
    let buffer = buffer_containing(at, sb.cluster_bytes);
    law_buffer_adds_up_to_the_inode(at, sb.cluster_bytes);
    law_logged_core_comes_back(inode, order);
    law_logged_core_has_no_checksum(inode, order);
    let item = InodeItemView {
        ino,
        blkno: buffer.blkno,
        len_bb: buffer.len,
        boffset: buffer.boffset,
        core: ops[1].data@,
    };
    let core = crc_blanked(inode.subrange(0, 176), 3);
    assert(core_to_apply(sb, item, order) == Ok::<Seq<u8>, Error>(core));
    lemma_core_item(ops, ino, buffer, item);
    let task = TaskView {
        from: 0,
        next: 2,
        offset: (buffer.blkno * 512) as u64,
        len: sb.cluster_bytes as usize,
        work: WorkView::Inode(item, core),
    };
    assert(task_at(sb, ops, 0, order) == Ok::<TaskView, Error>(task)) by {
        reveal(task_at);
    }
    task
}

/// The two operations that log an inode's core are an inode item that
/// nothing cancels.
proof fn lemma_core_item(ops: Seq<Op>, ino: u64, buffer: InodeBuffer, item: InodeItemView)
    requires
        ops.len() == 2,
        ops[0].data@ == inode_format_bytes(ino, XFS_ILOG_CORE, buffer, 2, 0),
        item == (InodeItemView {
            ino,
            blkno: buffer.blkno,
            len_bb: buffer.len,
            boffset: buffer.boffset,
            core: ops[1].data@,
        }),
    ensures
        le16_at(ops[0].data@, 0) == XFS_LI_INODE,
        inode_item_at(ops, 0) == Ok::<(InodeItemView, usize), Error>((item, 2)),
        first_item(ops, 0) == 0,
        first_item(ops, 2) == 2,
        passed_over(ops, 0) is None,
{
    reveal(passed_over);
    law_inode_format_reads_back(ino, XFS_ILOG_CORE, buffer, 2, 0);
    assert(1u32 & 1u32 == 1u32) by (bit_vector);
    assert(1u32 & (2u32 | 4u32 | 8u32 | 16u32) == 0u32) by (bit_vector);
    assert(inode_item_at(ops, 0) == Ok::<(InodeItemView, usize), Error>((item, 2)));
    assert(item_span(ops, 0) == Some(2int));
    assert(!cancels_from(ops, 2, item.blkno));
}

/// A transaction of one inode item fills the inode's slot.
proof fn lemma_inode_task_is_applied(
    image: Seq<u8>,
    sb: Superblock,
    ops: Seq<Op>,
    lsn: u64,
    order: ByteOrder,
    task: TaskView,
    item: InodeItemView,
    core: Seq<u8>,
)
    requires
        sb.valid(),
        ops.len() == 2,
        task_from(sb, ops, 0, order) == Ok::<Option<TaskView>, Error>(Some(task)),
        task.next == 2,
        task.work == WorkView::Inode(item, core),
        task.offset + task.len <= image.len(),
        ({
            let at = task.offset + item.boffset;
            let raw = image.subrange(at, at + sb.inodesize);
            be16_at(raw, DI_MAGIC as int) == XFS_DINODE_MAGIC ==> be64_at(raw, DI_INO as int)
                == item.ino && !is_newer(be64_at(raw, DI_LSN as int), lsn)
        }),
    ensures
        ({
            let at = task.offset + item.boffset;
            let raw = image.subrange(at, at + sb.inodesize);
            applied(image, sb, ops, lsn, order, 0, 0) == (
                patched(image, at, inode_restamped(raw, core, lsn)),
                Ok::<int, Error>(1),
            )
        }),
{
    lemma_task_from(sb, ops, 0, order);
    law_transaction_goes_item_by_item(image, sb, ops, lsn, order, 0, 0);
    let at = task.offset + item.boffset;
    let raw = image.subrange(at, at + sb.inodesize);
    let buf = image.subrange(task.offset as int, task.offset + task.len);
    let boff = item.boffset as int;
    assert(buf.subrange(boff, boff + sb.inodesize) =~= raw);
    let new = inode_restamped(raw, core, lsn);
    let bytes = patched(buf, boff, new);
    assert(task.outcome(sb, ops, buf, lsn) == Ok::<Option<Seq<u8>>, Error>(Some(bytes)));
    let after = patched(image, task.offset as int, bytes);
    law_transaction_goes_item_by_item(after, sb, ops, lsn, order, 2, 1);
    assert(task_from(sb, ops, 2, order) == Ok::<Option<TaskView>, Error>(None));
    assert(after =~= patched(image, at, new));
}

/// A slot filled with an inode's core holds that core but for the sequence
/// number and the checksum, and nothing beside the core moves.
proof fn lemma_core_in_place(image: Seq<u8>, at: int, size: int, inode: Seq<u8>, lsn: u64)
    requires
        0 <= at,
        LOG_DINODE_SIZE <= size,
        LOG_DINODE_SIZE <= inode.len(),
        at + size <= image.len(),
    ensures
        ({
            let raw = image.subrange(at, at + size);
            let core = crc_blanked(inode.subrange(0, 176), 3);
            let after = patched(image, at, inode_restamped(raw, core, lsn));
            inode_came_back(image, after, at, size, inode, lsn)
        }),
{
    let raw = image.subrange(at, at + size);
    let core = crc_blanked(inode.subrange(0, 176), 3);
    law_restamped_inode_verifies(raw, core, lsn);
    let new = inode_restamped(raw, core, lsn);
    let after = patched(image, at, new);
    lemma_patched(image, at, new);
    assert(after.subrange(at, at + size) =~= new);
    assert forall|i: int|
        0 <= i < image.len() && !(at + DI_LSN <= i < at + DI_LSN + 8) && !(at + DI_CRC <= i < at
            + DI_CRC + 4) implies #[trigger] after[i] == (if at <= i < at + 176 {
        inode[i - at]
    } else {
        image[i]
    }) by {
        if at <= i < at + size {
            assert(after[i] == new[i - at]);
            assert(raw[i - at] == image[i]);
        }
    }
}

/// The item that logs an inode, applied on its own.
proof fn lemma_logged_item_comes_back(
    image: Seq<u8>,
    sb: Superblock,
    ops: Seq<Op>,
    lsn: u64,
    order: ByteOrder,
    at: u64,
    ino: u64,
    inode: Seq<u8>,
)
    requires
        sb.valid(),
        slot_is_for(image, sb, at, ino, lsn),
        logs_inode(ops, sb, at, ino, inode, order),
    ensures
        applied(image, sb, ops, lsn, order, 0, 0).1 == Ok::<int, Error>(1),
        inode_came_back(
            image,
            applied(image, sb, ops, lsn, order, 0, 0).0,
            at as int,
            sb.inodesize as int,
            inode,
            lsn,
        ),
{
    let task = lemma_logged_inode_is_ready(image, sb, ops, lsn, order, at, ino, inode);
    if let WorkView::Inode(item, core) = task.work {
        lemma_inode_task_is_applied(image, sb, ops, lsn, order, task, item, core);
    }
    reveal(slot_is_for);
    reveal(logs_inode);
    law_buffer_adds_up_to_the_inode(at, sb.cluster_bytes);
    lemma_core_in_place(image, at as int, sb.inodesize as int, inode, lsn);
}

/// Whether the slot of `size` bytes at `at` now holds an inode's core,
/// except for the two fields that a log does not carry: the sequence
/// number, which is the transaction's, and the checksum, which verifies
/// over the whole inode. Nothing beside the core has moved, neither the
/// rest of the inode nor its neighbours.
pub open spec fn inode_came_back(
    before: Seq<u8>,
    after: Seq<u8>,
    at: int,
    size: int,
    inode: Seq<u8>,
    lsn: u64,
) -> bool {
    let slot = after.subrange(at, at + size);
    &&& after.len() == before.len()
    &&& be64_at(slot, DI_LSN as int) == lsn
    &&& le32_at(slot, DI_CRC as int) == crc32c_of(with_zeroed_crc(slot, DI_CRC as int))
    &&& forall|i: int|
        0 <= i < before.len() && !(at + DI_LSN <= i < at + DI_LSN + 8) && !(at + DI_CRC <= i < at
            + DI_CRC + 4) ==> #[trigger] after[i] == (if at <= i < at + 176 {
            inode[i - at]
        } else {
            before[i]
        })
}

/// An inode whose core is logged and then applied comes back: the five
/// operations of the change, applied as they stand, put the core into the
/// slot it was addressed to, and one run is counted.
pub proof fn law_logged_inode_comes_back(
    image: Seq<u8>,
    sb: Superblock,
    ops: Seq<Op>,
    lsn: u64,
    order: ByteOrder,
    tid: u32,
    at: u64,
    ino: u64,
    inode: Seq<u8>,
    core: Seq<u8>,
)
    requires
        sb.valid(),
        slot_is_for(image, sb, at, ino, lsn),
        LOG_DINODE_SIZE <= inode.len(),
        inode[DI_VERSION as int] == DI_VERSION_3,
        logged_core(inode, order) == Ok::<Seq<u8>, &'static str>(core),
        op_values(ops) == core_operations(
            tid,
            ino,
            buffer_containing(at, sb.cluster_bytes),
            core,
        ),
    ensures
        applied(image, sb, ops, lsn, order, 0, 0).1 == Ok::<int, Error>(1),
        inode_came_back(
            image,
            applied(image, sb, ops, lsn, order, 0, 0).0,
            at as int,
            sb.inodesize as int,
            inode,
            lsn,
        ),
{
    let front = ops.subrange(0, 2);
    let items = ops.subrange(2, 4);
    let back = ops.subrange(4, 5);
    lemma_core_operations_framed(ops, tid, ino, buffer_containing(at, sb.cluster_bytes), core);
    assert(logs_inode(items, sb, at, ino, inode, order)) by {
        reveal(logs_inode);
    }
    lemma_logged_item_comes_back(image, sb, items, lsn, order, at, ino, inode);
    law_frame_carries_no_item(image, sb, front, items, back, lsn, order);
}

/// The five operations of a core change are an inode item in its frame.
proof fn lemma_core_operations_framed(
    ops: Seq<Op>,
    tid: u32,
    ino: u64,
    buffer: InodeBuffer,
    core: Seq<u8>,
)
    requires
        op_values(ops) == core_operations(tid, ino, buffer, core),
    ensures
        ops.len() == 5,
        ops == ops.subrange(0, 2) + ops.subrange(2, 4) + ops.subrange(4, 5),
        all_frame(ops.subrange(0, 2)),
        all_frame(ops.subrange(4, 5)),
        ops.subrange(2, 4).len() == 2,
        ops.subrange(2, 4)[0].data@ == inode_format_bytes(ino, XFS_ILOG_CORE, buffer, 2, 0),
        ops.subrange(2, 4)[1].data@ == core,
{
    let values = core_operations(tid, ino, buffer, core);
    assert(op_values(ops).len() == 5);
    assert(op_values(ops)[0] == values[0]);
    assert(op_values(ops)[1] == values[1]);
    assert(op_values(ops)[2] == values[2]);
    assert(op_values(ops)[3] == values[3]);
    assert(op_values(ops)[4] == values[4]);
    law_transaction_header_reads_back(tid, XFS_TRANS_CHECKPOINT, 2);
    assert(is_transaction_header(ops[1].data@));
    assert(ops =~= ops.subrange(0, 2) + ops.subrange(2, 4) + ops.subrange(4, 5));
}

} // verus!
