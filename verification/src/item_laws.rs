//! What a transaction's operations are read as, and what applying an item
//! comes to, in terms of the bytes themselves.

use vstd::prelude::*;
use crate::apply::{applied, available, law_transaction_goes_item_by_item};
use crate::apply_laws::{law_inode_item_keeps_to_its_slot, law_restamped_inode_verifies};
use crate::bytes::patched;
use crate::checksum::{law_only_the_field_is_zeroed, with_zeroed_crc};
use crate::crc_kind::kind;
use crate::dinode::disk_core;
use crate::endian::{be16_at, be64_at, le16_at, le32_at, le64_at};
use crate::error::{Error, LogFault, Unsupported};
use crate::kind_laws::verifies;
use crate::log::ByteOrder;
use crate::log_item::{
    are_maximal_runs, bit, buf_item_at, cancelled, data_bytes, first_item, first_misfit,
    inode_item_at, is_cancel, is_item, item_span, law_runs_are_the_maximal_runs, lemma_first_item,
    run_bytes, runs_of, BufItemView, InodeItemView,
};
use crate::log_write::Op;
use crate::superblock::Superblock;
use crate::task::{
    block_applied, core_to_apply, first_overrun, inode_applied, inode_restamped, lemma_task_from,
    passed_over, task_at, task_from, TaskView, WorkView,
};

verus! {

/// A bitmap counts its bits from the low bit of the first byte: bit `c` is
/// bit `c % 8` of byte `c / 8`.
pub proof fn law_bits_count_from_the_low_end(map: Seq<u8>, c: int)
    requires
        0 <= c < map.len() * 8,
    ensures
        ({
            let byte = map[c / 8];
            let low = if c % 8 == 0 {
                byte as int
            } else if c % 8 == 1 {
                byte as int / 2
            } else if c % 8 == 2 {
                byte as int / 4
            } else if c % 8 == 3 {
                byte as int / 8
            } else if c % 8 == 4 {
                byte as int / 16
            } else if c % 8 == 5 {
                byte as int / 32
            } else if c % 8 == 6 {
                byte as int / 64
            } else {
                byte as int / 128
            };
            bit(map, c) <==> low % 2 == 1
        }),
{
    let x = map[c / 8];
    assert({
        &&& (x & (1u8 << 0u8) != 0) == (x % 2 == 1)
        &&& (x & (1u8 << 1u8) != 0) == (x / 2 % 2 == 1)
        &&& (x & (1u8 << 2u8) != 0) == (x / 4 % 2 == 1)
        &&& (x & (1u8 << 3u8) != 0) == (x / 8 % 2 == 1)
        &&& (x & (1u8 << 4u8) != 0) == (x / 16 % 2 == 1)
        &&& (x & (1u8 << 5u8) != 0) == (x / 32 % 2 == 1)
        &&& (x & (1u8 << 6u8) != 0) == (x / 64 % 2 == 1)
        &&& (x & (1u8 << 7u8) != 0) == (x / 128 % 2 == 1)
    }) by (bit_vector);
}

/// The bytes that runs cover, and that operations carry, add up one by one.
pub proof fn law_byte_counts_add_up(
    runs: Seq<(u64, u64)>,
    run: (u64, u64),
    ops: Seq<Op>,
    op: Op,
)
    ensures
        run_bytes(Seq::empty()) == 0,
        run_bytes(runs.push(run)) == run_bytes(runs) + run.1,
        data_bytes(Seq::empty()) == 0,
        data_bytes(ops.push(op)) == data_bytes(ops) + op.data@.len(),
{
    assert(runs.push(run).drop_last() =~= runs);
    assert(ops.push(op).drop_last() =~= ops);
}

/// Runs whose data operations have their lengths cover as many bytes as the
/// operations carry.
proof fn lemma_fitting_runs_add_up(runs: Seq<(u64, u64)>, data: Seq<Op>)
    requires
        runs.len() == data.len(),
        forall|k: int| 0 <= k < runs.len() ==> (#[trigger] runs[k]).1 == data[k].data@.len(),
    ensures
        run_bytes(runs) == data_bytes(data),
    decreases runs.len(),
{
    if runs.len() > 0 {
        lemma_fitting_runs_add_up(runs.drop_last(), data.drop_last());
        assert(runs.last() == runs[runs.len() - 1]);
        assert(data.last() == data[data.len() - 1]);
    }
}

/// The first misfit is the first run whose data operation has another
/// length.
proof fn lemma_first_misfit(runs: Seq<(u64, u64)>, data: Seq<Op>, k: int)
    requires
        0 <= k <= runs.len(),
    ensures
        match first_misfit(runs, data, k) {
            Some(i) => {
                &&& k <= i < runs.len()
                &&& data[i].data@.len() != runs[i].1
                &&& forall|j: int| k <= j < i ==> (#[trigger] runs[j]).1 == data[j].data@.len()
            },
            None => forall|j: int|
                k <= j < runs.len() ==> (#[trigger] runs[j]).1 == data[j].data@.len(),
        },
    decreases runs.len() - k,
{
    if k < runs.len() && data[k].data@.len() == runs[k].1 {
        lemma_first_misfit(runs, data, k + 1);
    }
}

/// A buffer item is what its format operation says: the number of its
/// operations at byte 2, its address at 8, the words of its bitmap at 16,
/// and the bitmap from 20 on, all little-endian. It is accepted exactly if
/// all of that is there, the address is not negative, there is one data
/// operation behind it for each maximal run of set bits, and each has the
/// length of its run. Otherwise the refusal says what is wrong first.
#[verifier::rlimit(40)]
pub proof fn law_buffer_item_is_what_its_format_says(ops: Seq<Op>, at: int)
    requires
        0 <= at < ops.len() <= usize::MAX,
        ops[at].data@.len() <= usize::MAX,
    ensures
        ({
            let fmt = ops[at].data@;
            let size = le16_at(fmt, 2);
            let blkno = le64_at(fmt, 8);
            let words = le32_at(fmt, 16);
            let map = fmt.subrange(20, 20 + 4 * words);
            let runs = runs_of(map);
            let there = fmt.len() >= 20 && fmt.len() >= 20 + 4 * words;
            let agreed = there && blkno < 0x8000_0000_0000_0000 && runs.len() == size - 1 && at
                + size <= ops.len();
            let fits = forall|k: int|
                0 <= k < runs.len() ==> (#[trigger] runs[k]).1 == ops[at + 1 + k].data@.len();
            let r = buf_item_at(ops, at);
            &&& r is Ok <==> agreed && fits
            &&& r is Ok ==> r == Ok::<(BufItemView, usize), Error>(
                (BufItemView { blkno, runs }, size as usize),
            ) && are_maximal_runs(map, 0, runs)
            &&& fmt.len() < 20 ==> r == Err::<(BufItemView, usize), Error>(
                Error::CorruptLog(LogFault::BufferHeaderShort { len: fmt.len() as usize }),
            )
            &&& 20 <= fmt.len() < 20 + 4 * words ==> r == Err::<(BufItemView, usize), Error>(
                Error::CorruptLog(
                    LogFault::BufferMapShort {
                        words,
                        need: (20 + 4 * words) as u64,
                        len: fmt.len() as usize,
                    },
                ),
            )
            &&& there && blkno >= 0x8000_0000_0000_0000 ==> r == Err::<
                (BufItemView, usize),
                Error,
            >(Error::CorruptLog(LogFault::BufferAddress { blkno }))
            &&& there && blkno < 0x8000_0000_0000_0000 && runs.len() != size - 1 ==> r == Err::<
                (BufItemView, usize),
                Error,
            >(
                Error::CorruptLog(LogFault::BufferRunCount { size, runs: runs.len() as usize }),
            )
            &&& there && blkno < 0x8000_0000_0000_0000 && runs.len() == size - 1 && at + size
                > ops.len() ==> r == Err::<(BufItemView, usize), Error>(
                Error::CorruptLog(
                    LogFault::BufferTruncated { size, remain: (ops.len() - at) as usize },
                ),
            )
            &&& agreed && run_bytes(runs) != data_bytes(ops.subrange(at + 1, at + size)) ==> r
                == Err::<(BufItemView, usize), Error>(
                Error::CorruptLog(
                    LogFault::BufferByteCount {
                        declared: run_bytes(runs) as u64,
                        actual: data_bytes(ops.subrange(at + 1, at + size)) as u128,
                    },
                ),
            )
            &&& agreed && !fits && run_bytes(runs) == data_bytes(ops.subrange(at + 1, at + size))
                ==> exists|k: int|
                {
                    &&& 0 <= k < runs.len()
                    &&& (#[trigger] runs[k]).1 != ops[at + 1 + k].data@.len()
                    &&& forall|j: int|
                        0 <= j < k ==> (#[trigger] runs[j]).1 == ops[at + 1 + j].data@.len()
                    &&& r == Err::<(BufItemView, usize), Error>(
                        Error::CorruptLog(
                            LogFault::BufferRunLength {
                                index: k as usize,
                                len: ops[at + 1 + k].data@.len() as usize,
                                run: runs[k].1,
                            },
                        ),
                    )
                }
        }),
{
    let fmt = ops[at].data@;
    let size = le16_at(fmt, 2);
    let words = le32_at(fmt, 16);
    let map = fmt.subrange(20, 20 + 4 * words);
    let runs = runs_of(map);
    if fmt.len() >= 20 && fmt.len() >= 20 + 4 * words {
        law_runs_are_the_maximal_runs(map);
        if runs.len() == size - 1 && at + size <= ops.len() {
            let data = ops.subrange(at + 1, at + size);
            assert(forall|k: int| 0 <= k < runs.len() ==> data[k] == #[trigger] ops[at + 1 + k]);
            lemma_first_misfit(runs, data, 0);
            if first_misfit(runs, data, 0) is None {
                assert forall|k: int| 0 <= k < runs.len() implies (#[trigger] runs[k]).1 == ops[at
                    + 1 + k].data@.len() by {
                    assert(data[k] == ops[at + 1 + k]);
                }
                lemma_fitting_runs_add_up(runs, data);
            } else {
                let k = first_misfit(runs, data, 0)->0;
                assert(data[k] == ops[at + 1 + k]);
                assert(runs[k].1 != ops[at + 1 + k].data@.len());
                assert forall|j: int| 0 <= j < k implies (#[trigger] runs[j]).1 == ops[at + 1
                    + j].data@.len() by {
                    assert(data[j] == ops[at + 1 + j]);
                }
            }
        }
    }
}

/// An inode item is what its format operation says: the number of its
/// operations at byte 2, the parts it logs at 4, the inode's number at 16,
/// and the address, the length and the offset of its buffer at 40, 48 and
/// 52, all little-endian; the core is the operation behind it. It is
/// accepted exactly if all of that is there, the core is logged, and no
/// fork is.
pub proof fn law_inode_item_is_what_its_format_says(ops: Seq<Op>, at: int)
    requires
        0 <= at < ops.len() <= usize::MAX,
        ops[at].data@.len() <= usize::MAX,
    ensures
        ({
            let fmt = ops[at].data@;
            let size = le16_at(fmt, 2);
            let fields = le32_at(fmt, 4);
            let there = fmt.len() >= 56 && size >= 2 && at + size <= ops.len();
            let r = inode_item_at(ops, at);
            &&& r is Ok <==> there && fields & 1 != 0 && fields & 0x1e == 0
            &&& r is Ok ==> r == Ok::<(InodeItemView, usize), Error>(
                (
                    InodeItemView {
                        ino: le64_at(fmt, 16),
                        blkno: le64_at(fmt, 40),
                        len_bb: le32_at(fmt, 48),
                        boffset: le32_at(fmt, 52),
                        core: ops[at + 1].data@,
                    },
                    size as usize,
                ),
            )
            &&& fmt.len() < 56 ==> r == Err::<(InodeItemView, usize), Error>(
                Error::CorruptLog(LogFault::InodeHeaderShort { len: fmt.len() as usize }),
            )
            &&& fmt.len() >= 56 && size < 2 ==> r == Err::<(InodeItemView, usize), Error>(
                Error::CorruptLog(LogFault::InodeNoCore { size }),
            )
            &&& fmt.len() >= 56 && size >= 2 && at + size > ops.len() ==> r == Err::<
                (InodeItemView, usize),
                Error,
            >(
                Error::CorruptLog(
                    LogFault::InodeTruncated { size, remain: (ops.len() - at) as usize },
                ),
            )
            &&& there && fields & 1 == 0 ==> r == Err::<(InodeItemView, usize), Error>(
                Error::CorruptLog(LogFault::InodeCoreNotLogged { fields }),
            )
            &&& there && fields & 1 != 0 && fields & 0x1e != 0 ==> r == Err::<
                (InodeItemView, usize),
                Error,
            >(Error::UnsupportedFeature(Unsupported::ForkLogged { fork: fields & 0x1e }))
        }),
{
    assert(2u32 | 4u32 | 8u32 | 16u32 == 0x1eu32) by (bit_vector);
}

/// Whether an operation is neither START nor COMMIT nor a transaction
/// header: it carries something, and not 16 bytes that open with "TRAN",
/// little-endian.
pub open spec fn carries_an_item(data: Seq<u8>) -> bool {
    &&& data.len() >= 2
    &&& !(data.len() == 16 && data[0] == 0x4e && data[1] == 0x41 && data[2] == 0x52 && data[3]
        == 0x54)
}

/// Items are found one behind the other: the next one is the first
/// operation that carries an item, and the one behind it starts as many
/// operations further on as its format says at byte 2. A format of an
/// unknown type, one that is too short, or one that says more than there is
/// has none behind it.
pub proof fn law_items_follow_one_another(ops: Seq<Op>, at: int, k: int)
    requires
        0 <= at <= ops.len(),
    ensures
        ({
            let first = first_item(ops, at);
            &&& at <= first <= ops.len()
            &&& forall|i: int| at <= i < first ==> !carries_an_item(#[trigger] ops[i].data@)
            &&& first < ops.len() ==> carries_an_item(ops[first].data@)
            &&& first >= ops.len() ==> !is_item(ops, at, k)
            &&& first < ops.len() ==> {
                let fmt = ops[first].data@;
                let kind = le16_at(fmt, 0);
                let size = le16_at(fmt, 2);
                let spans = (kind == 0x123c && fmt.len() >= 20 || kind == 0x123b && fmt.len() >= 56)
                    && 1 <= size && first + size <= ops.len();
                &&& item_span(ops, first) == if spans {
                    Some(size as int)
                } else {
                    None
                }
                &&& is_item(ops, at, k) <==> k == first || spans && is_item(ops, first + size, k)
            }
        }),
{
    lemma_first_item(ops, at);
    let first = first_item(ops, at);
    assert forall|i: int| at <= i < first implies !carries_an_item(#[trigger] ops[i].data@) by {
        lemma_header_by_its_bytes(ops[i].data@);
    }
    if first < ops.len() {
        lemma_header_by_its_bytes(ops[first].data@);
    }
}

/// "TRAN" is four bytes, the last letter first.
proof fn lemma_header_by_its_bytes(data: Seq<u8>)
    ensures
        carries_an_item(data) <==> !crate::log_item::is_frame(data),
{
}

/// A cancel item is a buffer item that spans one operation and has bit 1 of
/// the flags at byte 4 set; it is for the block at its address. An item is
/// cancelled if and only if some item behind it is a cancel item for its
/// block.
#[verifier::rlimit(40)]
pub proof fn law_what_cancels_what(ops: Seq<Op>, at: int, blkno: u64)
    requires
        0 <= at < ops.len() <= usize::MAX,
        ops[at].data@.len() <= usize::MAX,
    ensures
        is_cancel(ops[at].data@, blkno) <==> {
            let fmt = ops[at].data@;
            &&& fmt.len() >= 20
            &&& fmt.len() >= 20 + 4 * le32_at(fmt, 16)
            &&& le16_at(fmt, 0) == 0x123c
            &&& le16_at(fmt, 2) == 1
            &&& le16_at(fmt, 4) & 2 != 0
            &&& le64_at(fmt, 8) == blkno
            &&& blkno < 0x8000_0000_0000_0000
            &&& forall|c: int| 0 <= c < 32 * le32_at(fmt, 16) ==> !bit(fmt.skip(20), c)
        },
        cancelled(ops, at, blkno) <==> exists|k: int|
            item_span(ops, at) is Some && #[trigger] is_item(ops, at + item_span(ops, at)->0, k)
                && is_cancel(ops[k].data@, blkno),
{
    let fmt = ops[at].data@;
    crate::log_item::law_cancelled_by_a_later_item(ops, at, blkno);
    if fmt.len() >= 20 && fmt.len() >= 20 + 4 * le32_at(fmt, 16) {
        let map = fmt.subrange(20, 20 + 4 * le32_at(fmt, 16));
        let runs = runs_of(map);
        law_runs_are_the_maximal_runs(map);
        assert forall|c: int| 0 <= c < map.len() * 8 implies bit(map, c) == #[trigger] bit(
            fmt.skip(20),
            c,
        ) by {
            assert(map[c / 8] == fmt.skip(20)[c / 8]);
        }
        if runs.len() > 0 {
            let run = runs[0];
            let c = run.0 as int / 128;
            assert(crate::log_item::is_maximal_run(map, c, (run.0 + run.1) / 128));
            assert(bit(map, c));
            assert(bit(fmt.skip(20), c));
        } else {
            assert forall|c: int| 0 <= c < 32 * le32_at(fmt, 16) implies !bit(fmt.skip(20), c) by {
                if bit(map, c) {
                    let k = choose|k: int|
                        0 <= k < runs.len() && (#[trigger] runs[k]).0 <= c * 128 < runs[k].0
                            + runs[k].1;
                }
            }
        }
    }
}

/// An item is about the bytes at 512 times its address: a buffer item about
/// one filesystem block, an inode item about as many bytes as 512 times its
/// buffer's length. An item of another type than the two is refused.
pub proof fn law_item_is_about_its_address(sb: Superblock, ops: Seq<Op>, at: int, order: ByteOrder)
    requires
        0 <= at < ops.len() <= usize::MAX,
    ensures
        ({
            let kind = le16_at(ops[at].data@, 0);
            let r = task_at(sb, ops, at, order);
            &&& kind == 0x123c ==> match buf_item_at(ops, at) {
                Err(e) => r == Err::<TaskView, Error>(e),
                Ok((item, size)) => if item.blkno * 512 >= 0x1_0000_0000_0000_0000 {
                    r == Err::<TaskView, Error>(
                        Error::CorruptLog(LogFault::AddressBeyondDevice { blkno: item.blkno }),
                    )
                } else {
                    &&& r matches Ok(task)
                    &&& task.from == at
                    &&& task.next == at + size
                    &&& task.offset == item.blkno * 512
                    &&& task.len == sb.blocksize
                    &&& task.work == WorkView::Block(item)
                    &&& task.runs() == item.runs.len()
                },
            }
            &&& kind == 0x123b ==> match inode_item_at(ops, at) {
                Err(e) => r == Err::<TaskView, Error>(e),
                Ok((item, size)) => match core_to_apply(sb, item, order) {
                    Err(e) => r == Err::<TaskView, Error>(e),
                    Ok(core) => if item.blkno * 512 >= 0x1_0000_0000_0000_0000 {
                        r == Err::<TaskView, Error>(
                            Error::CorruptLog(LogFault::AddressBeyondDevice { blkno: item.blkno }),
                        )
                    } else {
                        &&& r matches Ok(task)
                        &&& task.from == at
                        &&& task.next == at + size
                        &&& task.offset == item.blkno * 512
                        &&& task.len == (item.len_bb * 512) as usize
                        &&& task.work == WorkView::Inode(item, core)
                        &&& task.runs() == 1
                    },
                },
            }
            &&& kind != 0x123c && kind != 0x123b ==> r == Err::<TaskView, Error>(
                Error::UnsupportedFeature(Unsupported::UnknownItem { kind, at: at as usize }),
            )
        }),
{
    reveal(task_at);
}

/// Items are taken up in the order in which they stand. One that is a
/// cancel item, or that an item behind it cancels, is passed over; the first
/// that is not is the next to be applied, or refused.
#[verifier::rlimit(40)]
pub proof fn law_items_are_taken_in_order(sb: Superblock, ops: Seq<Op>, at: int, order: ByteOrder)
    requires
        0 <= at <= ops.len() <= usize::MAX,
    ensures
        ({
            let first = first_item(ops, at);
            let r = task_from(sb, ops, at, order);
            let kind = le16_at(ops[first].data@, 0);
            let buffer = buf_item_at(ops, first);
            let inode = inode_item_at(ops, first);
            let void = kind == 0x123c && buffer is Ok && (is_cancel(
                ops[first].data@,
                buffer->Ok_0.0.blkno,
            ) || cancelled(ops, first, buffer->Ok_0.0.blkno)) || kind == 0x123b && inode is Ok
                && cancelled(ops, first, inode->Ok_0.0.blkno);
            let next = first + le16_at(ops[first].data@, 2);
            &&& first >= ops.len() ==> r == Ok::<Option<TaskView>, Error>(None)
            &&& first < ops.len() && void ==> r == task_from(sb, ops, next, order)
            &&& first < ops.len() && !void ==> match task_at(sb, ops, first, order) {
                Err(e) => r == Err::<Option<TaskView>, Error>(e),
                Ok(task) => r == Ok::<Option<TaskView>, Error>(Some(task)),
            }
        }),
{
    reveal(passed_over);
    lemma_first_item(ops, at);
}

/// An item whose bytes are not all there is refused, with how many there
/// are, and changes nothing. One whose bytes are there is carried out on
/// them: what comes of it stands in their place, its runs are counted, and
/// the items behind it follow.
#[verifier::rlimit(40)]
pub proof fn law_item_is_carried_out_on_its_bytes(
    image: Seq<u8>,
    sb: Superblock,
    ops: Seq<Op>,
    lsn: u64,
    order: ByteOrder,
    at: int,
    written: int,
)
    requires
        sb.valid(),
        0 <= at <= ops.len() <= usize::MAX,
    ensures
        task_from(sb, ops, at, order) matches Ok(Some(task)) ==> {
            let got = if task.offset < image.len() {
                image.len() - task.offset
            } else {
                0
            };
            let from = task.offset as int;
            let buf = image.subrange(from, from + task.len);
            let r = applied(image, sb, ops, lsn, order, at, written);
            &&& got < task.len ==> r == (
                image,
                Err::<int, Error>(
                    Error::ShortRead { offset: task.offset, want: task.len, got: got as usize },
                ),
            )
            &&& got >= task.len ==> match task.outcome(sb, ops, buf, lsn) {
                Err(e) => r == (image, Err::<int, Error>(e)),
                Ok(None) => r == applied(image, sb, ops, lsn, order, task.next as int, written),
                Ok(Some(bytes)) => {
                    &&& bytes.len() == task.len
                    &&& r == applied(
                        image.take(from) + bytes + image.skip(from + task.len),
                        sb,
                        ops,
                        lsn,
                        order,
                        task.next as int,
                        written + task.runs(),
                    )
                },
            }
        },
        task_from(sb, ops, at, order) matches Ok(None) ==> applied(
            image,
            sb,
            ops,
            lsn,
            order,
            at,
            written,
        ) == (image, Ok::<int, Error>(written)),
        task_from(sb, ops, at, order) matches Err(e) ==> applied(
            image,
            sb,
            ops,
            lsn,
            order,
            at,
            written,
        ) == (image, Err::<int, Error>(e)),
{
    law_transaction_goes_item_by_item(image, sb, ops, lsn, order, at, written);
    lemma_task_from(sb, ops, at, order);
    if let Ok(Some(task)) = task_from(sb, ops, at, order) {
        let from = task.offset as int;
        assert(task.len > 0);
        if task.len <= available(image, task.offset) {
            let buf = image.subrange(from, from + task.len);
            if let Ok(Some(bytes)) = task.outcome(sb, ops, buf, lsn) {
                assert(patched(image, from, bytes) =~= image.take(from) + bytes + image.skip(
                    from + task.len,
                ));
            }
        }
    }
}

/// Carrying out a buffer item patches its runs in, from the operations
/// behind its format; carrying out an inode item puts its core into its
/// slot.
pub proof fn law_items_are_carried_out_by_their_type(
    task: TaskView,
    sb: Superblock,
    ops: Seq<Op>,
    buf: Seq<u8>,
    lsn: u64,
)
    ensures
        task.work matches WorkView::Block(item) ==> match block_applied(
            sb,
            item,
            ops.subrange(task.from + 1, task.next as int),
            buf,
            lsn,
        ) {
            Ok(after) => task.outcome(sb, ops, buf, lsn) == Ok::<Option<Seq<u8>>, Error>(
                Some(after),
            ),
            Err(e) => task.outcome(sb, ops, buf, lsn) == Err::<Option<Seq<u8>>, Error>(e),
        },
        task.work matches WorkView::Inode(item, core) ==> task.outcome(sb, ops, buf, lsn)
            == inode_applied(sb, item, core, buf, lsn),
{
}

/// A run that reaches past the end of its block is refused, the first one
/// first; otherwise a block of a known kind is not refused.
pub proof fn law_runs_keep_to_the_block(
    sb: Superblock,
    item: BufItemView,
    data: Seq<Op>,
    buf: Seq<u8>,
    lsn: u64,
)
    requires
        kind(buf, sb) is Some,
    ensures
        ({
            let r = block_applied(sb, item, data, buf, lsn);
            let within = forall|k: int|
                0 <= k < item.runs.len() ==> (#[trigger] item.runs[k]).0 + item.runs[k].1
                    <= buf.len();
            &&& r is Ok <==> within
            &&& !within ==> exists|k: int|
                {
                    &&& 0 <= k < item.runs.len()
                    &&& (#[trigger] item.runs[k]).0 + item.runs[k].1 > buf.len()
                    &&& forall|j: int|
                        0 <= j < k ==> (#[trigger] item.runs[j]).0 + item.runs[j].1 <= buf.len()
                    &&& r == Err::<Seq<u8>, Error>(
                        Error::CorruptLog(
                            LogFault::RunBeyondBlock {
                                start: item.runs[k].0,
                                end: (item.runs[k].0 + item.runs[k].1) as u64,
                                len: buf.len() as usize,
                            },
                        ),
                    )
                }
        }),
{
    lemma_first_overrun(item.runs, buf.len(), 0);
    if let Some(k) = first_overrun(item.runs, buf.len(), 0) {
        assert(item.runs[k].0 + item.runs[k].1 > buf.len());
    }
}

/// The first overrun is the first run that reaches past the end.
proof fn lemma_first_overrun(runs: Seq<(u64, u64)>, len: nat, k: int)
    requires
        0 <= k <= runs.len(),
    ensures
        match first_overrun(runs, len, k) {
            Some(i) => {
                &&& k <= i < runs.len()
                &&& runs[i].0 + runs[i].1 > len
                &&& forall|j: int| k <= j < i ==> (#[trigger] runs[j]).0 + runs[j].1 <= len
            },
            None => forall|j: int|
                k <= j < runs.len() ==> (#[trigger] runs[j]).0 + runs[j].1 <= len,
        },
    decreases runs.len() - k,
{
    if k < runs.len() && runs[k].0 + runs[k].1 <= len {
        lemma_first_overrun(runs, len, k + 1);
    }
}

/// An inode item's core is put into its slot unless the slot holds another
/// inode, which is refused, or the same inode in a later state. Later is
/// meant in the order of the log: in a later cycle, or further on in the
/// same one; a sequence number of all zeros or all ones is none. What is
/// written is the core, the rest of the inode as it was, the transaction's
/// sequence number, and the checksum of the whole inode; the inodes around
/// it stay as they are.
#[verifier::rlimit(40)]
pub proof fn law_inode_is_updated_unless_later(
    sb: Superblock,
    item: InodeItemView,
    core: Seq<u8>,
    buf: Seq<u8>,
    stamped: (u32, u32),
    lsn: (u32, u32),
)
    requires
        176 <= core.len() <= sb.inodesize,
        item.boffset + sb.inodesize <= buf.len(),
        be64_at(buf, item.boffset + 112) == stamped.0 * 0x1_0000_0000 + stamped.1,
    ensures
        ({
            let boff = item.boffset as int;
            let size = sb.inodesize as int;
            let number = (lsn.0 * 0x1_0000_0000 + lsn.1) as u64;
            let allocated = buf[boff] == 0x49 && buf[boff + 1] == 0x4e;
            let here = be64_at(buf, boff + 152);
            let numbered = stamped != (0u32, 0u32) && stamped != (u32::MAX, u32::MAX);
            let later = stamped.0 > lsn.0 || stamped.0 == lsn.0 && stamped.1 > lsn.1;
            let outcome = inode_applied(sb, item, core, buf, number);
            &&& outcome is Err <==> allocated && here != item.ino
            &&& outcome is Err ==> outcome == Err::<Option<Seq<u8>>, Error>(
                Error::CorruptLog(
                    LogFault::SlotTaken {
                        ino: item.ino,
                        here,
                        boff: item.boffset,
                        blkno: item.blkno,
                    },
                ),
            )
            &&& outcome == Ok::<Option<Seq<u8>>, Error>(None) <==> allocated && here == item.ino
                && numbered && later
            &&& outcome matches Ok(Some(after)) ==> {
                &&& after.len() == buf.len()
                &&& be64_at(after, boff + 112) == number
                &&& verifies(after.subrange(boff, boff + size), 100, size)
                &&& forall|i: int|
                    0 <= i < buf.len() && !(boff + 112 <= i < boff + 120) && !(boff + 100 <= i
                        < boff + 104) ==> #[trigger] after[i] == (if boff <= i < boff
                        + core.len() {
                        core[i - boff]
                    } else {
                        buf[i]
                    })
            }
        }),
{
    let boff = item.boffset as int;
    let size = sb.inodesize as int;
    let number = (lsn.0 * 0x1_0000_0000 + lsn.1) as u64;
    let slot = buf.subrange(boff, boff + size);
    law_inode_item_keeps_to_its_slot(sb, item, core, buf, number);
    lemma_slot_is_of_the_buffer(buf, boff, size);
    lemma_later_is_newer(be64_at(buf, boff + 112), stamped, number, lsn);
    if let Ok(Some(after)) = inode_applied(sb, item, core, buf, number) {
        lemma_slot_is_restamped(buf, after, boff, size, core, number);
    }
}

/// The fields of a slot are those of the buffer, further on.
proof fn lemma_slot_is_of_the_buffer(buf: Seq<u8>, boff: int, size: int)
    requires
        0 <= boff,
        160 <= size,
        boff + size <= buf.len(),
    ensures
        ({
            let slot = buf.subrange(boff, boff + size);
            &&& be64_at(slot, 112) == be64_at(buf, boff + 112)
            &&& be64_at(slot, 152) == be64_at(buf, boff + 152)
            &&& be16_at(slot, 0) == 0x494e <==> buf[boff] == 0x49 && buf[boff + 1] == 0x4e
        }),
{
}

/// Comparing sequence numbers compares cycles, and then blocks.
proof fn lemma_later_is_newer(a: u64, stamped: (u32, u32), b: u64, lsn: (u32, u32))
    requires
        a == stamped.0 * 0x1_0000_0000 + stamped.1,
        b == lsn.0 * 0x1_0000_0000 + lsn.1,
    ensures
        crate::task::is_newer(a, b) <==> stamped != (0u32, 0u32) && stamped != (u32::MAX, u32::MAX)
            && (stamped.0 > lsn.0 || stamped.0 == lsn.0 && stamped.1 > lsn.1),
{
}

/// What a buffer holds once its slot is restamped.
#[verifier::rlimit(40)]
proof fn lemma_slot_is_restamped(
    buf: Seq<u8>,
    after: Seq<u8>,
    boff: int,
    size: int,
    core: Seq<u8>,
    number: u64,
)
    requires
        0 <= boff,
        176 <= core.len() <= size,
        boff + size <= buf.len(),
        after.len() == buf.len(),
        after.subrange(boff, boff + size) == inode_restamped(
            buf.subrange(boff, boff + size),
            core,
            number,
        ),
        forall|i: int|
            0 <= i < buf.len() && !(boff <= i < boff + size) ==> #[trigger] after[i] == buf[i],
    ensures
        be64_at(after, boff + 112) == number,
        verifies(after.subrange(boff, boff + size), 100, size),
        forall|i: int|
            0 <= i < buf.len() && !(boff + 112 <= i < boff + 120) && !(boff + 100 <= i < boff + 104)
                ==> #[trigger] after[i] == (if boff <= i < boff + core.len() {
                core[i - boff]
            } else {
                buf[i]
            }),
{
    let slot = buf.subrange(boff, boff + size);
    let new = inode_restamped(slot, core, number);
    law_restamped_inode_verifies(slot, core, number);
    assert forall|i: int| 0 <= i < size implies after[boff + i] == #[trigger] new[i] by {
        assert(after.subrange(boff, boff + size)[i] == new[i]);
    }
    lemma_slot_is_of_the_buffer(after, boff, size);
    let whole = Seq::new(
        size as nat,
        |i: int|
            if 100 <= i < 104 {
                0u8
            } else {
                new[i]
            },
    );
    law_only_the_field_is_zeroed(new, 100);
    assert(with_zeroed_crc(new, 100) =~= whole);
    assert forall|i: int|
        0 <= i < buf.len() && !(boff + 112 <= i < boff + 120) && !(boff + 100 <= i < boff
            + 104) implies #[trigger] after[i] == (if boff <= i < boff + core.len() {
        core[i - boff]
    } else {
        buf[i]
    }) by {
        if boff <= i < boff + size {
            assert(after[boff + (i - boff)] == new[i - boff]);
            assert(slot[i - boff] == buf[i]);
        }
    }
}

/// An inode item fits a geometry exactly if its buffer is no shorter than an
/// inode and no longer than a cluster, its offset is that of a slot within
/// the buffer, and its core is a version-3 core that fits an inode. What is
/// applied is the on-disk form of the core. Otherwise the refusal says what
/// is wrong first.
#[verifier::rlimit(40)]
pub proof fn law_inode_item_fits_the_geometry(sb: Superblock, item: InodeItemView, order: ByteOrder)
    requires
        sb.valid(),
    ensures
        ({
            let cluster = item.len_bb * 512;
            let sized = sb.inodesize <= cluster && cluster <= sb.cluster_bytes;
            let placed = item.boffset as int % sb.inodesize as int == 0 && item.boffset
                + sb.inodesize <= cluster;
            let r = core_to_apply(sb, item, order);
            &&& r is Ok <==> sized && placed && item.core.len() >= 176 && item.core[4] == 3
                && sb.inodesize >= 176
            &&& r is Ok ==> disk_core(item.core, order) == Ok::<Seq<u8>, &'static str>(r->Ok_0)
            &&& !sized ==> r == Err::<Seq<u8>, Error>(
                Error::CorruptLog(
                    LogFault::InodeBufferLength {
                        ino: item.ino,
                        cluster: cluster as u64,
                        inodesize: sb.inodesize,
                        max: sb.cluster_bytes,
                    },
                ),
            )
            &&& sized && !placed ==> r == Err::<Seq<u8>, Error>(
                Error::CorruptLog(
                    LogFault::InodeOffset {
                        ino: item.ino,
                        boff: item.boffset,
                        cluster: cluster as u64,
                        inodesize: sb.inodesize,
                    },
                ),
            )
            &&& sized && placed && item.core.len() < 176 ==> r == Err::<Seq<u8>, Error>(
                Error::CorruptLog(
                    LogFault::CoreShort { ino: item.ino, len: item.core.len() as usize },
                ),
            )
            &&& sized && placed && item.core.len() >= 176 && item.core[4] != 3 ==> r == Err::<
                Seq<u8>,
                Error,
            >(
                Error::UnsupportedFeature(
                    Unsupported::CoreVersion { ino: item.ino, version: item.core[4] },
                ),
            )
            &&& sized && placed && item.core.len() >= 176 && item.core[4] == 3 && sb.inodesize
                < 176 ==> r == Err::<Seq<u8>, Error>(
                Error::CorruptLog(
                    LogFault::CoreTooLarge { len: 176, inodesize: sb.inodesize },
                ),
            )
        }),
{
}

} // verus!
