//! The frame around a transaction's items carries none of them.

use vstd::prelude::*;
use crate::apply::{applied, law_transaction_goes_item_by_item};
use crate::bytes::patched;
use crate::endian::{law_little_endian_round_trip, le32_bytes};
use crate::error::Error;
use crate::format::log_items::XFS_TRANS_HEADER_MAGIC;
use crate::log::ByteOrder;
use crate::log_item::{
    buf_item_at, cancelled, cancels_from, first_item, inode_item_at, is_frame, item_span,
    lemma_first_item,
};
use crate::log_write::{trans_header_bytes, Op};
use crate::superblock::Superblock;
use crate::task::{
    lemma_passed_over, lemma_ready, lemma_task_from, passed_over, task_at, task_from, TaskView,
};

verus! {

/// Whether some operations are all part of a frame.
pub open spec fn all_frame(ops: Seq<Op>) -> bool {
    forall|i: int| 0 <= i < ops.len() ==> is_frame(#[trigger] ops[i].data@)
}

/// A transaction header is part of the frame, whatever it says.
pub proof fn law_transaction_header_is_frame(tid: u32, kind: u32, item_ops: u32)
    ensures
        is_frame(trans_header_bytes(tid, kind, item_ops)),
{
    let header = trans_header_bytes(tid, kind, item_ops);
    assert(header.subrange(0, 4) =~= le32_bytes(XFS_TRANS_HEADER_MAGIC));
    law_little_endian_round_trip(header, 0, 0, XFS_TRANS_HEADER_MAGIC, 0);
}

/// Whether every item from operation `at` on says how many operations it
/// spans, and they are there.
spec fn spans_fit(ops: Seq<Op>, at: int) -> bool
    decreases ops.len() - at,
    when 0 <= at <= ops.len()
    via spans_fit_advances
{
    let first = first_item(ops, at);
    first < ops.len() ==> match item_span(ops, first) {
        Some(size) => spans_fit(ops, first + size),
        None => false,
    }
}

#[via_fn]
proof fn spans_fit_advances(ops: Seq<Op>, at: int) {
    lemma_first_item(ops, at);
}

/// What a task of the items is in the framed transaction, `by` operations
/// further on.
spec fn moved(task: TaskView, by: int) -> TaskView {
    TaskView { from: (task.from + by) as usize, next: (task.next + by) as usize, ..task }
}

/// Nothing but frame holds no item.
proof fn lemma_frame_has_no_item(ops: Seq<Op>, at: int, to: int)
    requires
        0 <= at <= to <= ops.len(),
        forall|i: int| at <= i < to ==> is_frame(#[trigger] ops[i].data@),
    ensures
        first_item(ops, at) == first_item(ops, to),
    decreases to - at,
{
    if at < to {
        lemma_frame_has_no_item(ops, at + 1, to);
    }
}

/// The operations of a framed transaction are the frame's and the items'.
proof fn lemma_framed(front: Seq<Op>, items: Seq<Op>, back: Seq<Op>, k: int)
    requires
        0 <= k < items.len(),
    ensures
        (front + items + back)[front.len() + k] == items[k],
{
}

/// The first item of a framed transaction is that of the items.
proof fn lemma_first_item_framed(front: Seq<Op>, items: Seq<Op>, back: Seq<Op>, at: int)
    requires
        all_frame(back),
        0 <= at <= items.len(),
    ensures
        ({
            let whole = front + items + back;
            let d = front.len();
            first_item(whole, d + at) == (if first_item(items, at) < items.len() {
                d + first_item(items, at)
            } else {
                whole.len() as int
            })
        }),
    decreases items.len() - at,
{
    let whole = front + items + back;
    let d = front.len();
    if at == items.len() {
        assert forall|i: int| d + at <= i < whole.len() implies is_frame(
            #[trigger] whole[i].data@,
        ) by {
            assert(whole[i] == back[i - d - at]);
        }
        lemma_frame_has_no_item(whole, d + at, whole.len() as int);
    } else {
        lemma_framed(front, items, back, at);
        if is_frame(items[at].data@) {
            lemma_first_item_framed(front, items, back, at + 1);
        }
    }
}

/// What the items behind an operation cancel is the same in the frame.
proof fn lemma_cancels_framed(
    front: Seq<Op>,
    items: Seq<Op>,
    back: Seq<Op>,
    at: int,
    blkno: u64,
)
    requires
        all_frame(back),
        0 <= at <= items.len(),
        spans_fit(items, at),
    ensures
        cancels_from(front + items + back, front.len() + at, blkno) == cancels_from(
            items,
            at,
            blkno,
        ),
    decreases items.len() - at,
{
    lemma_first_item(items, at);
    lemma_first_item_framed(front, items, back, at);
    let first = first_item(items, at);
    if first < items.len() {
        lemma_framed(front, items, back, first);
        let size = item_span(items, first)->0;
        lemma_cancels_framed(front, items, back, first + size, blkno);
    }
}

/// An item that is well-formed among the items is the same item in the
/// frame.
proof fn lemma_item_framed(
    sb: Superblock,
    front: Seq<Op>,
    items: Seq<Op>,
    back: Seq<Op>,
    k: int,
    order: ByteOrder,
)
    requires
        all_frame(back),
        (front + items + back).len() <= usize::MAX,
        0 <= k < items.len(),
        item_span(items, k) matches Some(size) && spans_fit(items, k + size),
    ensures
        ({
            let whole = front + items + back;
            let d = front.len() as int;
            &&& passed_over(items, k) matches Some(next) ==> passed_over(whole, d + k) == Some(
                d + next,
            )
            &&& (passed_over(items, k) is None && task_at(sb, items, k, order) is Ok) ==> {
                &&& passed_over(whole, d + k) is None
                &&& task_at(sb, whole, d + k, order) == Ok::<TaskView, Error>(
                    moved(task_at(sb, items, k, order)->Ok_0, d),
                )
            }
        }),
{
    reveal(task_at);
    reveal(passed_over);
    let whole = front + items + back;
    let d = front.len() as int;
    let size = item_span(items, k)->0;
    lemma_framed(front, items, back, k);
    assert(whole.subrange(d + k + 1, d + k + size) =~= items.subrange(k + 1, k + size));
    if size > 1 {
        lemma_framed(front, items, back, k + 1);
    }
    assert forall|blkno: u64| #[trigger]
        cancelled(items, k, blkno) == cancelled(whole, d + k, blkno) by {
        lemma_cancels_framed(front, items, back, k + size, blkno);
    }
    assert(buf_item_at(items, k) is Ok ==> buf_item_at(whole, d + k) == buf_item_at(items, k));
    assert(inode_item_at(items, k) is Ok ==> inode_item_at(whole, d + k) == inode_item_at(
        items,
        k,
    ));
}

/// Up to the next task every item is well-formed.
proof fn lemma_spans_fit_to_the_task(sb: Superblock, ops: Seq<Op>, at: int, order: ByteOrder)
    requires
        0 <= at <= ops.len() <= usize::MAX,
    ensures
        match task_from(sb, ops, at, order) {
            Ok(None) => spans_fit(ops, at),
            Ok(Some(task)) => spans_fit(ops, task.next as int) ==> spans_fit(ops, at),
            Err(_) => true,
        },
    decreases ops.len() - at,
{
    lemma_first_item(ops, at);
    let first = first_item(ops, at);
    if first < ops.len() {
        lemma_passed_over(ops, first);
        lemma_ready(sb, ops, first, order);
        if let Some(next) = passed_over(ops, first) {
            lemma_spans_fit_to_the_task(sb, ops, next, order);
        }
    }
}

/// The next task of the items is the next task in the frame.
proof fn lemma_task_from_framed(
    sb: Superblock,
    front: Seq<Op>,
    items: Seq<Op>,
    back: Seq<Op>,
    at: int,
    order: ByteOrder,
)
    requires
        all_frame(back),
        (front + items + back).len() <= usize::MAX,
        0 <= at <= items.len(),
        spans_fit(items, at),
        task_from(sb, items, at, order) is Ok,
    ensures
        task_from(sb, front + items + back, front.len() + at, order) == (match task_from(
            sb,
            items,
            at,
            order,
        ) {
            Ok(Some(task)) => Ok::<Option<TaskView>, Error>(
                Some(moved(task, front.len() as int)),
            ),
            _ => Ok::<Option<TaskView>, Error>(None),
        }),
    decreases items.len() - at,
{
    lemma_first_item(items, at);
    lemma_first_item_framed(front, items, back, at);
    let first = first_item(items, at);
    if first < items.len() {
        lemma_passed_over(items, first);
        lemma_item_framed(sb, front, items, back, first, order);
        if let Some(next) = passed_over(items, first) {
            lemma_task_from_framed(sb, front, items, back, next, order);
        }
    }
}

/// A task comes to the same in the frame.
proof fn lemma_outcome_framed(
    sb: Superblock,
    front: Seq<Op>,
    items: Seq<Op>,
    back: Seq<Op>,
    task: TaskView,
    buf: Seq<u8>,
    lsn: u64,
)
    requires
        (front + items + back).len() <= usize::MAX,
        task.from < task.next <= items.len(),
    ensures
        moved(task, front.len() as int).outcome(sb, front + items + back, buf, lsn) == task.outcome(
            sb,
            items,
            buf,
            lsn,
        ),
        moved(task, front.len() as int).runs() == task.runs(),
{
    let d = front.len() as int;
    assert((front + items + back).subrange(d + task.from + 1, d + task.next) =~= items.subrange(
        task.from + 1,
        task.next as int,
    ));
}

/// Items that are applied in full are applied alike in the frame.
proof fn lemma_applied_framed(
    image: Seq<u8>,
    sb: Superblock,
    front: Seq<Op>,
    items: Seq<Op>,
    back: Seq<Op>,
    lsn: u64,
    order: ByteOrder,
    at: int,
    written: int,
)
    requires
        sb.valid(),
        all_frame(back),
        (front + items + back).len() <= usize::MAX,
        0 <= at <= items.len(),
        applied(image, sb, items, lsn, order, at, written).1 is Ok,
    ensures
        spans_fit(items, at),
        applied(image, sb, front + items + back, lsn, order, front.len() + at, written) == applied(
            image,
            sb,
            items,
            lsn,
            order,
            at,
            written,
        ),
    decreases items.len() - at,
{
    let whole = front + items + back;
    let d = front.len() as int;
    law_transaction_goes_item_by_item(image, sb, items, lsn, order, at, written);
    law_transaction_goes_item_by_item(image, sb, whole, lsn, order, d + at, written);
    lemma_task_from(sb, items, at, order);
    lemma_spans_fit_to_the_task(sb, items, at, order);
    if let Ok(Some(task)) = task_from(sb, items, at, order) {
        let buf = image.subrange(task.offset as int, task.offset + task.len);
        lemma_outcome_framed(sb, front, items, back, task, buf, lsn);
        let next = task.next as int;
        match task.outcome(sb, items, buf, lsn) {
            Err(_) => {},
            Ok(None) => {
                lemma_applied_framed(
                    image,
                    sb,
                    front,
                    items,
                    back,
                    lsn,
                    order,
                    next,
                    written,
                );
            },
            Ok(Some(bytes)) => {
                let after = patched(image, task.offset as int, bytes);
                let runs = written + task.runs();
                lemma_applied_framed(after, sb, front, items, back, lsn, order, next, runs);
            },
        }
    }
    lemma_task_from_framed(sb, front, items, back, at, order);
}

/// The frame around a transaction's items carries none: applying START, the
/// transaction header, the items and COMMIT does what applying the items
/// does, with the same writes and the same count, for all items that are
/// applied in full.
pub proof fn law_frame_carries_no_item(
    image: Seq<u8>,
    sb: Superblock,
    front: Seq<Op>,
    items: Seq<Op>,
    back: Seq<Op>,
    lsn: u64,
    order: ByteOrder,
)
    requires
        sb.valid(),
        all_frame(front),
        all_frame(back),
        (front + items + back).len() <= usize::MAX,
        applied(image, sb, items, lsn, order, 0, 0).1 is Ok,
    ensures
        applied(image, sb, front + items + back, lsn, order, 0, 0) == applied(
            image,
            sb,
            items,
            lsn,
            order,
            0,
            0,
        ),
{
    let whole = front + items + back;
    let d = front.len() as int;
    lemma_applied_framed(image, sb, front, items, back, lsn, order, 0, 0);
    assert forall|i: int| 0 <= i < d implies is_frame(#[trigger] whole[i].data@) by {
        assert(whole[i] == front[i]);
    }
    lemma_frame_has_no_item(whole, 0, d);
    assert(task_from(sb, whole, 0, order) == task_from(sb, whole, d, order));
    law_transaction_goes_item_by_item(image, sb, whole, lsn, order, 0, 0);
    law_transaction_goes_item_by_item(image, sb, whole, lsn, order, d, 0);
}

} // verus!
