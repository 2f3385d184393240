//! What a reader of the log finds in what was written to it.

use vstd::prelude::*;
use crate::bytes::{lemma_patched, zeros};
use crate::endian::{
    be32_at, be32_bytes, be64_at, be64_bytes, le16_at, le16_bytes, le32_at, le32_bytes, le64_at,
    le64_bytes, lemma_be32_reads_back, lemma_be64_reads_back, lemma_le16_reads_back,
    lemma_le32_reads_back, lemma_le64_reads_back,
};
use crate::error::Error;
use crate::format::log_items::{
    ILF_BLKNO, ILF_BOFFSET, ILF_DSIZE, ILF_FIELDS, ILF_INO, ILF_LEN, ILF_SIZE, ILF_TYPE,
    INODE_LOG_FORMAT_SIZE, REC_CRC, REC_CYCLE_DATA, REC_FURTHER_CYCLE_DATA, REC_SIZE,
    TRANS_HEADER_SIZE, XFS_LI_INODE, XFS_TRANS_HEADER_MAGIC, XLOG_HEADER_MAGIC, XLOG_VERSION_2,
};
use crate::log::{lsn_of, record_checksum_of, ByteOrder, Head};
use crate::log_write::{
    blank_header, buffer_containing, can_append, checkpoint_at, checkpoint_of, core_checkpoint,
    core_logged, core_operations, displaced, further_header, further_headers, header_blocks,
    headers_for, inode_format_bytes, lemma_payload_of_values, op_bytes, op_values, padded, payload_bytes,
    placement_at, record_blocks, record_bytes, rounded_up, stamped, trans_header_bytes,
    transaction_id_of, under_stamp, Checkpoint, CheckpointView, Filesystem, InodeBuffer, Op,
    Placement,
};
use crate::superblock::Superblock;

verus! {

/// Where in a record the byte at `i` of its payload is kept, if the stamp
/// displaced it: in the header, or in the further header block that answers
/// for its payload block.
pub open spec fn kept_at(i: int) -> int {
    let block = i / 512;
    if block < 64 {
        REC_CYCLE_DATA + block * 4 + i % 512
    } else {
        block / 64 * 512 + REC_FURTHER_CYCLE_DATA + block % 64 * 4 + i % 512
    }
}

/// A payload as a reader recovers it from a record of `n` header blocks:
/// the words under the cycle stamp come from the header blocks.
pub open spec fn unstamped(record: Seq<u8>, n: nat) -> Seq<u8> {
    Seq::new(
        (record.len() - 512 * n) as nat,
        |i: int|
            if under_stamp(i) {
                record[kept_at(i)]
            } else {
                record[512 * n + i]
            },
    )
}

/// An operation as a reader finds it: transaction id, flags and data.
pub struct ReadOp {
    pub tid: u32,
    pub flags: u8,
    pub data: Seq<u8>,
}

/// The first `n` operations of a payload.
pub open spec fn ops_read(payload: Seq<u8>, n: nat) -> Seq<ReadOp>
    decreases n,
{
    if n == 0 {
        Seq::empty()
    } else {
        let len = be32_at(payload, 4);
        seq![
            ReadOp {
                tid: be32_at(payload, 0),
                flags: payload[9],
                data: payload.subrange(12, 12 + len),
            },
        ] + ops_read(payload.subrange(12 + len, payload.len() as int), (n - 1) as nat)
    }
}

/// Operations as they were written.
pub open spec fn ops_written(tid: u32, ops: Seq<Op>) -> Seq<ReadOp> {
    Seq::new(ops.len(), |i: int| ReadOp { tid, flags: ops[i].flags, data: ops[i].data@ })
}

/// The fields of a header block stand where they belong.
#[verifier::rlimit(40)]
pub(crate) proof fn lemma_header_fields(
    placement: Placement,
    num_logops: u32,
    payload: Seq<u8>,
    order: ByteOrder,
)
    ensures
        ({
            let h = blank_header(placement, num_logops, payload, order);
            &&& h.len() == 512
            &&& h.subrange(0, 4) == be32_bytes(XLOG_HEADER_MAGIC)
            &&& h.subrange(4, 8) == be32_bytes(placement.cycle)
            &&& h.subrange(8, 12) == be32_bytes(XLOG_VERSION_2)
            &&& h.subrange(12, 16) == be32_bytes((payload.len() % 0x1_0000_0000) as u32)
            &&& h.subrange(16, 24) == be64_bytes(lsn_of(placement.cycle, placement.block))
            &&& h.subrange(24, 32) == be64_bytes(placement.tail_lsn)
            &&& h.subrange(36, 40) == be32_bytes(placement.prev_block)
            &&& h.subrange(40, 44) == be32_bytes(num_logops)
            &&& h.subrange(44, 300) == displaced(padded(payload), 0)
            &&& h.subrange(300, 304) == be32_bytes(order.code())
            &&& h.subrange(304, 320) == placement.uuid@
            &&& h.subrange(320, 324) == be32_bytes(placement.iclog_size)
            &&& h.subrange(324, 512) == zeros(188)
        }),
{
    let h = blank_header(placement, num_logops, payload, order);
    assert(placement.uuid@.len() == 16);
    assert(h.subrange(0, 4) =~= be32_bytes(XLOG_HEADER_MAGIC));
    assert(h.subrange(4, 8) =~= be32_bytes(placement.cycle));
    assert(h.subrange(8, 12) =~= be32_bytes(XLOG_VERSION_2));
    assert(h.subrange(12, 16) =~= be32_bytes((payload.len() % 0x1_0000_0000) as u32));
    assert(h.subrange(16, 24) =~= be64_bytes(lsn_of(placement.cycle, placement.block)));
    assert(h.subrange(24, 32) =~= be64_bytes(placement.tail_lsn));
    assert(h.subrange(36, 40) =~= be32_bytes(placement.prev_block));
    assert(h.subrange(40, 44) =~= be32_bytes(num_logops));
    assert(h.subrange(44, 300) =~= displaced(padded(payload), 0));
    assert(h.subrange(300, 304) =~= be32_bytes(order.code()));
    assert(h.subrange(304, 320) =~= placement.uuid@);
    assert(h.subrange(320, 324) =~= be32_bytes(placement.iclog_size));
    assert(h.subrange(324, 512) =~= zeros(188));
}

/// A record's header says what the record was given: where it is, what came
/// before it, how long it is, how many operations it holds, whose it is and
/// in which order its contents are.
#[verifier::rlimit(40)]
pub proof fn law_record_header_reads_back(
    placement: Placement,
    num_logops: u32,
    payload: Seq<u8>,
    order: ByteOrder,
)
    ensures
        ({
            let r = record_bytes(placement, num_logops, payload, order);
            &&& r.len() == 512 * header_blocks(placement.iclog_size, payload.len()) + rounded_up(payload.len())
            &&& be32_at(r, 0) == XLOG_HEADER_MAGIC
            &&& be32_at(r, 4) == placement.cycle
            &&& be32_at(r, 8) == XLOG_VERSION_2
            &&& be32_at(r, 12) == payload.len() % 0x1_0000_0000
            &&& be64_at(r, 16) == lsn_of(placement.cycle, placement.block)
            &&& be64_at(r, 24) == placement.tail_lsn
            &&& be32_at(r, 36) == placement.prev_block
            &&& be32_at(r, 40) == num_logops
            &&& be32_at(r, 300) == order.code()
            &&& r.subrange(304, 320) == placement.uuid@
            &&& be32_at(r, 320) == placement.iclog_size
        }),
{
    reveal(record_bytes);
    let h = blank_header(placement, num_logops, payload, order);
    let r = record_bytes(placement, num_logops, payload, order);
    lemma_header_fields(placement, num_logops, payload, order);
    assert(r.subrange(0, 32) =~= h.subrange(0, 32));
    assert(r.subrange(36, 512) =~= h.subrange(36, 512));
    assert forall|i: int| 0 <= i < 32 || 36 <= i < 512 implies r[i] == h[i] by {}
    lemma_be32_reads_back(h, 0, XLOG_HEADER_MAGIC);
    lemma_be32_reads_back(h, 4, placement.cycle);
    lemma_be32_reads_back(h, 8, XLOG_VERSION_2);
    lemma_be32_reads_back(h, 12, (payload.len() % 0x1_0000_0000) as u32);
    lemma_be64_reads_back(h, 16, lsn_of(placement.cycle, placement.block));
    lemma_be64_reads_back(h, 24, placement.tail_lsn);
    lemma_be32_reads_back(h, 36, placement.prev_block);
    lemma_be32_reads_back(h, 40, num_logops);
    lemma_be32_reads_back(h, 300, order.code());
    lemma_be32_reads_back(h, 320, placement.iclog_size);
    assert(r.subrange(304, 320) =~= h.subrange(304, 320));
}

/// A record's stored checksum is the checksum of the record as it stands:
/// its header structure and its stamped payload.
pub proof fn law_record_checksum_verifies(
    placement: Placement,
    num_logops: u32,
    payload: Seq<u8>,
    order: ByteOrder,
)
    ensures
        ({
            let r = record_bytes(placement, num_logops, payload, order);
            let start = 512 * header_blocks(placement.iclog_size, payload.len()) as int;
            le32_at(r, REC_CRC as int) == record_checksum_of(
                r.subrange(0, 512),
                r.subrange(start, start + payload.len()),
            )
        }),
{
    reveal(record_bytes);
    let h = blank_header(placement, num_logops, payload, order);
    let data = stamped(padded(payload), placement.cycle);
    let r = record_bytes(placement, num_logops, payload, order);
    let start = 512 * header_blocks(placement.iclog_size, payload.len()) as int;
    let crc = record_checksum_of(h, data.subrange(0, payload.len() as int));
    lemma_header_fields(placement, num_logops, payload, order);
    lemma_patched(h, 32, le32_bytes(crc));
    assert(r.subrange(32, 36) =~= le32_bytes(crc));
    lemma_le32_reads_back(r, 32, crc);
    assert(r.subrange(start, start + payload.len()) =~= data.subrange(0, payload.len() as int));
    let covered = r.subrange(0, 512).subrange(0, 328);
    assert(crate::checksum::with_zeroed_crc(covered, 32) =~= crate::checksum::with_zeroed_crc(
        h.subrange(0, 328),
        32,
    ));
}

/// Every payload block of a record leads with the cycle number, however
/// many there are, and so does every header block behind the first.
pub proof fn law_every_block_leads_with_the_cycle(
    placement: Placement,
    num_logops: u32,
    payload: Seq<u8>,
    order: ByteOrder,
    k: int,
)
    requires
        1 <= k < record_blocks(placement.iclog_size, payload.len()),
    ensures
        ({
            let r = record_bytes(placement, num_logops, payload, order);
            be32_at(r, 512 * k) == placement.cycle
        }),
{
    let r = record_bytes(placement, num_logops, payload, order);
    let n = header_blocks(placement.iclog_size, payload.len()) as int;
    let cycle = placement.cycle;
    lemma_record_parts(placement, num_logops, payload, order);
    let word = r.subrange(512 * k, 512 * k + 4);
    assert forall|w: int| 0 <= w < 4 implies word[w] == be32_bytes(cycle)[w] by {
        if k < n {
            let at = 512 * (k - 1) + w;
            assert(r[512 + at] == further_headers(padded(payload), cycle, n as nat)[at]);
            assert(at % 512 == w);
        } else {
            let at = 512 * (k - n) + w;
            assert(r[512 * n + at] == stamped(padded(payload), cycle)[at]);
            assert(at % 512 == w);
        }
    }
    assert(word =~= be32_bytes(cycle));
    lemma_be32_reads_back(r, 512 * k, cycle);
}

/// What stands where in a record: the first header block, the further ones,
/// and the stamped payload.
pub(crate) proof fn lemma_record_parts(
    placement: Placement,
    num_logops: u32,
    payload: Seq<u8>,
    order: ByteOrder,
)
    ensures
        ({
            let r = record_bytes(placement, num_logops, payload, order);
            let h = blank_header(placement, num_logops, payload, order);
            let n = header_blocks(placement.iclog_size, payload.len());
            let further = further_headers(padded(payload), placement.cycle, n);
            let data = stamped(padded(payload), placement.cycle);
            &&& padded(payload).len() == rounded_up(payload.len())
            &&& r.len() == 512 * n + rounded_up(payload.len())
            &&& forall|i: int| 36 <= i < 512 ==> #[trigger] r[i] == h[i]
            &&& forall|i: int| 0 <= i < 512 * (n - 1) ==> #[trigger] further[i] == r[512 + i]
            &&& forall|i: int| 0 <= i < data.len() ==> #[trigger] data[i] == r[512 * n + i]
        }),
{
    reveal(record_bytes);
    lemma_header_fields(placement, num_logops, payload, order);
}

/// A further header block keeps the byte that the stamp displaced.
proof fn lemma_further_keeps(data: Seq<u8>, cycle: u32, n: nat, i: int)
    requires
        0 <= i < data.len(),
        under_stamp(i),
        64 <= i / 512,
        i / 512 / 64 < n,
    ensures
        512 <= kept_at(i) < 512 * n,
        further_headers(data, cycle, n)[kept_at(i) - 512] == data[i],
{
    let block = i / 512;
    let g = block / 64;
    let j = block % 64 * 4 + i % 512;
    assert(0 <= j < 256);
    assert(j / 4 == block % 64 && j % 4 == i % 512);
    assert(g * 64 + j / 4 == block);
    assert(displaced(data, g)[j] == data[i]);
    assert(further_header(data, cycle, g)[4 + j] == data[i]);
    let at = (g - 1) * 512 + 4 + j;
    assert(kept_at(i) == 512 + at);
    assert(at / 512 == g - 1 && at % 512 == 4 + j);
}

/// A displaced byte stands in the first header block where it is kept.
pub(crate) proof fn lemma_kept_in_the_header(
    placement: Placement,
    num_logops: u32,
    payload: Seq<u8>,
    order: ByteOrder,
    i: int,
)
    requires
        0 <= i < padded(payload).len(),
        under_stamp(i),
        i / 512 < 64,
    ensures
        record_bytes(placement, num_logops, payload, order)[kept_at(i)] == padded(payload)[i],
{
    let h = blank_header(placement, num_logops, payload, order);
    let whole = padded(payload);
    lemma_record_parts(placement, num_logops, payload, order);
    lemma_header_fields(placement, num_logops, payload, order);
    let j = i / 512 * 4 + i % 512;
    assert(0 <= j < 256);
    assert(h[44 + j] == h.subrange(44, 300)[j]);
    assert(j / 4 == i / 512 && j % 4 == i % 512);
    assert(displaced(whole, 0)[j] == whole[i]);
}

/// Every payload block has a header block that answers for it.
proof fn lemma_answered_for(iclog_size: u32, len: nat, i: int)
    requires
        0 <= i < rounded_up(len),
    ensures
        i / 512 / 64 < header_blocks(iclog_size, len),
{
    assert(i / 512 / 64 == i / 32768);
}

/// A displaced byte stands in the further header block where it is kept.
pub(crate) proof fn lemma_kept_further(
    placement: Placement,
    num_logops: u32,
    payload: Seq<u8>,
    order: ByteOrder,
    i: int,
)
    requires
        0 <= i < padded(payload).len(),
        under_stamp(i),
        64 <= i / 512,
    ensures
        record_bytes(placement, num_logops, payload, order)[kept_at(i)] == padded(payload)[i],
{
    let whole = padded(payload);
    let n = header_blocks(placement.iclog_size, payload.len());
    let further = further_headers(whole, placement.cycle, n);
    lemma_record_parts(placement, num_logops, payload, order);
    lemma_answered_for(placement.iclog_size, payload.len(), i);
    lemma_further_keeps(whole, placement.cycle, n, i);
    assert(further[kept_at(i) - 512] == whole[i]);
}

/// A reader that undoes the cycle stamp recovers the payload, with the
/// padding behind it, however long it is.
pub proof fn law_record_gives_its_payload_back(
    placement: Placement,
    num_logops: u32,
    payload: Seq<u8>,
    order: ByteOrder,
)
    ensures
        unstamped(
            record_bytes(placement, num_logops, payload, order),
            header_blocks(placement.iclog_size, payload.len()),
        ) == padded(payload),
{
    let whole = padded(payload);
    let n = header_blocks(placement.iclog_size, payload.len());
    let r = record_bytes(placement, num_logops, payload, order);
    let back = unstamped(r, n);
    law_record_header_reads_back(placement, num_logops, payload, order);
    assert(back.len() == whole.len());
    assert forall|i: int| 0 <= i < whole.len() implies back[i] == whole[i] by {
        if under_stamp(i) {
            if i / 512 < 64 {
                lemma_kept_in_the_header(placement, num_logops, payload, order, i);
            } else {
                lemma_kept_further(placement, num_logops, payload, order, i);
            }
        } else {
            lemma_payload_follows(placement, num_logops, payload, order, i);
        }
    }
    assert(back =~= whole);
}

/// A byte that the stamp leaves alone stands behind the header blocks.
proof fn lemma_payload_follows(
    placement: Placement,
    num_logops: u32,
    payload: Seq<u8>,
    order: ByteOrder,
    i: int,
)
    requires
        0 <= i < padded(payload).len(),
        !under_stamp(i),
    ensures
        record_bytes(placement, num_logops, payload, order)[512 * header_blocks(placement.iclog_size, payload.len()) + i]
            == padded(payload)[i],
{
    lemma_record_parts(placement, num_logops, payload, order);
    let data = stamped(padded(payload), placement.cycle);
    assert(data[i] == padded(payload)[i]);
}

/// A payload is its first operation followed by the others.
proof fn lemma_payload_from_the_front(tid: u32, ops: Seq<Op>)
    requires
        ops.len() > 0,
    ensures
        payload_bytes(tid, ops) == op_bytes(tid, ops[0]) + payload_bytes(tid, ops.drop_first()),
    decreases ops.len(),
{
    let first = op_bytes(tid, ops[0]);
    if ops.len() == 1 {
        assert(ops.drop_last().len() == 0);
        assert(payload_bytes(tid, ops.drop_last()) =~= Seq::<u8>::empty());
        assert(payload_bytes(tid, ops.drop_first()) =~= Seq::<u8>::empty());
        assert(Seq::<u8>::empty() + first =~= first + Seq::<u8>::empty());
    } else {
        let front = ops.drop_last();
        let back = ops.drop_first();
        lemma_payload_from_the_front(tid, front);
        assert(front.drop_first() =~= back.drop_last());
        assert(front[0] == ops[0]);
        assert(back.last() == ops.last());
        let middle = payload_bytes(tid, back.drop_last());
        let last = op_bytes(tid, ops.last());
        assert((first + middle) + last =~= first + (middle + last));
    }
}

/// The first operation of a payload reads back, whatever stands behind it.
proof fn lemma_first_operation(tid: u32, op: Op, rest: Seq<u8>)
    requires
        op.data@.len() < 0x1_0000_0000,
    ensures
        ({
            let p = op_bytes(tid, op) + rest;
            let len = op.data@.len() as int;
            &&& be32_at(p, 0) == tid
            &&& be32_at(p, 4) == len
            &&& p[9] == op.flags
            &&& p.subrange(12, 12 + len) == op.data@
            &&& p.subrange(12 + len, p.len() as int) == rest
        }),
{
    let p = op_bytes(tid, op) + rest;
    let len = op.data@.len() as int;
    assert(p.subrange(0, 4) =~= be32_bytes(tid));
    assert(p.subrange(4, 8) =~= be32_bytes(len as u32));
    lemma_be32_reads_back(p, 0, tid);
    lemma_be32_reads_back(p, 4, len as u32);
    assert(p.subrange(12, 12 + len) =~= op.data@);
    assert(p.subrange(12 + len, p.len() as int) =~= rest);
}

/// Operations read back from a payload as they were written, whatever
/// stands behind them, so long as their lengths fit the length field.
pub proof fn law_operations_read_back(tid: u32, ops: Seq<Op>, rest: Seq<u8>)
    requires
        forall|i: int| 0 <= i < ops.len() ==> (#[trigger] ops[i]).data@.len() < 0x1_0000_0000,
    ensures
        ops_read(payload_bytes(tid, ops) + rest, ops.len()) == ops_written(tid, ops),
    decreases ops.len(),
{
    if ops.len() == 0 {
        assert(ops_written(tid, ops) =~= Seq::empty());
    } else {
        let tail = ops.drop_first();
        let behind = payload_bytes(tid, tail) + rest;
        lemma_payload_from_the_front(tid, ops);
        assert(forall|i: int| 0 <= i < tail.len() ==> #[trigger] tail[i] == ops[i + 1]);
        law_operations_read_back(tid, tail, rest);
        lemma_first_operation(tid, ops[0], behind);
        let first = ReadOp { tid, flags: ops[0].flags, data: ops[0].data@ };
        assert(payload_bytes(tid, ops) + rest =~= op_bytes(tid, ops[0]) + behind);
        assert(ops_read(payload_bytes(tid, ops) + rest, ops.len()) == seq![first] + ops_read(
            behind,
            tail.len(),
        ));
        assert(seq![first] + ops_written(tid, tail) =~= ops_written(tid, ops));
    }
}

/// An operation is part of its payload, so no longer than it.
proof fn lemma_operation_within_payload(tid: u32, ops: Seq<Op>, k: int)
    requires
        0 <= k < ops.len(),
    ensures
        ops[k].data@.len() <= payload_bytes(tid, ops).len(),
    decreases ops.len(),
{
    if k < ops.len() - 1 {
        lemma_operation_within_payload(tid, ops.drop_last(), k);
    }
}

/// Every operation takes up its header at least.
proof fn lemma_payload_at_least_headers(tid: u32, ops: Seq<Op>)
    ensures
        payload_bytes(tid, ops).len() >= 12 * ops.len(),
    decreases ops.len(),
{
    if ops.len() > 0 {
        lemma_payload_at_least_headers(tid, ops.drop_last());
    }
}

/// Up to the end of its last block, a payload needs the same header blocks.
proof fn lemma_same_headers(len: nat, more: nat)
    requires
        len <= more <= rounded_up(len),
    ensures
        headers_for(more) == headers_for(len),
{
    let n = (len + 32767) as nat / 32768;
    let blocks = (len + 511) as nat / 512;
    assert(32768 * n - 32768 < len <= 32768 * n);
    assert(blocks <= 64 * n);
    assert(more <= 32768 * n);
    assert((more + 32767) / 32768 == n);
}

/// Padding a payload does not change how many header blocks its record has.
proof fn lemma_padding_needs_no_header(iclog_size: u32, len: nat)
    ensures
        rounded_up(rounded_up(len)) == rounded_up(len),
        header_blocks(iclog_size, rounded_up(len)) == header_blocks(iclog_size, len),
{
    assert(len <= rounded_up(len));
    lemma_same_headers(len, rounded_up(len));
    if len < iclog_size <= rounded_up(len) {
        lemma_same_headers(len, iclog_size as nat);
    }
}

/// A payload that was padded before it was encoded comes back as it was
/// padded.
proof fn lemma_padded_payload_comes_back(
    placement: Placement,
    num_logops: u32,
    payload: Seq<u8>,
    order: ByteOrder,
)
    ensures
        unstamped(
            record_bytes(placement, num_logops, padded(payload), order),
            header_blocks(placement.iclog_size, payload.len()),
        ) == padded(payload),
{
    let whole = padded(payload);
    assert(whole.len() == rounded_up(payload.len()));
    lemma_padding_needs_no_header(placement.iclog_size, payload.len());
    assert(padded(whole) =~= whole);
    law_record_gives_its_payload_back(placement, num_logops, whole, order);
}

/// The operations in a record read back from it.
proof fn lemma_record_operations(
    placement: Placement,
    num_logops: u32,
    tid: u32,
    ops: Seq<Op>,
    order: ByteOrder,
)
    requires
        payload_bytes(tid, ops).len() < 0x1_0000_0000,
    ensures
        ops_read(
            unstamped(
                record_bytes(placement, num_logops, padded(payload_bytes(tid, ops)), order),
                header_blocks(placement.iclog_size, payload_bytes(tid, ops).len()),
            ),
            ops.len(),
        ) == ops_written(tid, ops),
{
    let p = payload_bytes(tid, ops);
    lemma_padded_payload_comes_back(placement, num_logops, p, order);
    assert forall|i: int| 0 <= i < ops.len() implies (#[trigger] ops[i]).data@.len()
        < 0x1_0000_0000 by {
        lemma_operation_within_payload(tid, ops, i);
    }
    law_operations_read_back(tid, ops, zeros((rounded_up(p.len()) - p.len()) as nat));
}

/// What an accepted checkpoint's record is, and how large.
proof fn lemma_checkpoint_record(
    sb: Superblock,
    head: Head,
    tid: u32,
    ops: Seq<Op>,
    order: ByteOrder,
    c: CheckpointView,
)
    requires
        can_append(sb, head),
        checkpoint_at(sb, head, tid, ops, order) == Ok::<CheckpointView, Error>(c),
    ensures
        ops.len() < 0x1_0000_0000,
        c.bytes == record_bytes(
            placement_at(sb, head),
            ops.len() as u32,
            padded(payload_bytes(tid, ops)),
            order,
        ),
        c.lsn == lsn_of(head.cycle, head.block),
        payload_bytes(tid, ops).len() + 512 <= head.iclog_size,
        record_blocks(head.iclog_size, payload_bytes(tid, ops).len()) <= head.free_blocks,
{
    reveal(checkpoint_of);
    lemma_payload_at_least_headers(tid, ops);
}

/// A record that was accepted is as large as its blocks, and no larger than
/// the space it is for; its payload and one header block are no larger than
/// the buffer, so the buffer alone says how many header blocks there are.
proof fn lemma_record_size(len: nat, free_blocks: u32, iclog_size: u32)
    requires
        len + 512 <= iclog_size,
        record_blocks(iclog_size, len) <= free_blocks,
    ensures
        512 * header_blocks(iclog_size, len) + rounded_up(len) == 512 * record_blocks(
            iclog_size,
            len,
        ),
        512 * record_blocks(iclog_size, len) <= free_blocks * 512,
        header_blocks(iclog_size, len) == header_blocks(iclog_size, 0),
        512 + rounded_up(len) <= rounded_up(iclog_size as nat),
{
}

/// The header of a record whose payload is already padded.
proof fn lemma_checkpoint_header(
    placement: Placement,
    num_logops: u32,
    payload: Seq<u8>,
    order: ByteOrder,
)
    requires
        payload.len() + 512 < 0x1_0000_0000,
    ensures
        ({
            let r = record_bytes(placement, num_logops, padded(payload), order);
            let start = 512 * header_blocks(placement.iclog_size, payload.len()) as int;
            &&& r.len() == start + rounded_up(payload.len())
            &&& be32_at(r, 12) == rounded_up(payload.len())
            &&& be64_at(r, 16) == lsn_of(placement.cycle, placement.block)
            &&& be64_at(r, 24) == placement.tail_lsn
            &&& be32_at(r, 40) == num_logops
            &&& be32_at(r, 320) == placement.iclog_size
            &&& le32_at(r, REC_CRC as int) == record_checksum_of(
                r.subrange(0, 512),
                r.subrange(start, r.len() as int),
            )
        }),
{
    let n = rounded_up(payload.len());
    assert(padded(payload).len() == n);
    lemma_padding_needs_no_header(placement.iclog_size, payload.len());
    assert(n % 0x1_0000_0000 == n) by {
        let blocks = (payload.len() + 511) / 512;
        assert(n == 512 * blocks);
    }
    law_record_header_reads_back(placement, num_logops, padded(payload), order);
    law_record_checksum_verifies(placement, num_logops, padded(payload), order);
}

/// A checkpoint that was accepted reads back whole: undoing the cycle stamp
/// and reading as many operations as the header counts gives the
/// operations that were written; how many header blocks there are follows
/// from the buffer size that the header states. Its checksum verifies, it is
/// within what the log has room for, its payload is within what a buffer
/// holds, and its sequence number is that of the head.
#[verifier::rlimit(40)]
pub proof fn law_checkpoint_reads_back(
    sb: Superblock,
    head: Head,
    tid: u32,
    ops: Seq<Op>,
    order: ByteOrder,
    c: CheckpointView,
)
    requires
        can_append(sb, head),
        checkpoint_at(sb, head, tid, ops, order) == Ok::<CheckpointView, Error>(c),
    ensures
        c.lsn == lsn_of(head.cycle, head.block),
        c.bytes.len() == 512 * record_blocks(head.iclog_size, payload_bytes(tid, ops).len()),
        c.bytes.len() <= head.free_blocks * 512,
        be64_at(c.bytes, 16) == c.lsn,
        be64_at(c.bytes, 24) == c.lsn,
        be32_at(c.bytes, 40) == ops.len(),
        ({
            let len = be32_at(c.bytes, 12);
            let n = header_blocks(be32_at(c.bytes, REC_SIZE as int), 0);
            &&& c.bytes.len() == 512 * n + len
            &&& 512 + len <= rounded_up(head.iclog_size as nat)
            &&& le32_at(c.bytes, REC_CRC as int) == record_checksum_of(
                c.bytes.subrange(0, 512),
                c.bytes.subrange(512 * n as int, c.bytes.len() as int),
            )
            &&& ops_read(unstamped(c.bytes, n), ops.len()) == ops_written(tid, ops)
        }),
{
    lemma_checkpoint_record(sb, head, tid, ops, order, c);
    lemma_record_size(payload_bytes(tid, ops).len(), head.free_blocks, head.iclog_size);
    lemma_padding_needs_no_header(head.iclog_size, payload_bytes(tid, ops).len());
    lemma_checkpoint_header(
        placement_at(sb, head),
        ops.len() as u32,
        payload_bytes(tid, ops),
        order,
    );
    lemma_record_operations(placement_at(sb, head), ops.len() as u32, tid, ops, order);
}

/// An inode's buffer and its offset in the buffer add back up to the
/// inode's address, and the inode starts within the buffer, when clusters
/// are whole basic blocks.
pub proof fn law_buffer_adds_up_to_the_inode(at: u64, cluster_bytes: u32)
    requires
        cluster_bytes > 0,
        cluster_bytes % 512 == 0,
    ensures
        ({
            let b = buffer_containing(at, cluster_bytes);
            &&& b.blkno * 512 + b.boffset == at
            &&& b.boffset < cluster_bytes
            &&& b.len * 512 == cluster_bytes
        }),
{
    let c = cluster_bytes as u64;
    let start = at - at % c;
    assert(0 <= at % c < c && at % c <= at) by (nonlinear_arith)
        requires
            c > 0,
    ;
    let q = at / c;
    assert(start == c * q) by (nonlinear_arith)
        requires
            start == at - at % c,
            q == at / c,
            c > 0,
    ;
    let blocks = c / 512;
    assert(c == blocks * 512);
    assert(c * q == (blocks * q) * 512) by (nonlinear_arith)
        requires
            c == blocks * 512,
    ;
    assert(start % 512 == 0);
}

/// Checkpoints of one cycle that start at different blocks have different
/// transaction ids, on any log of fewer than 2^31 blocks.
pub proof fn law_transaction_ids_differ(a: Head, b: Head)
    requires
        a.cycle == b.cycle,
        a.block != b.block,
        a.block < 0x8000_0000,
        b.block < 0x8000_0000,
    ensures
        transaction_id_of(a) != transaction_id_of(b),
{
    let turned = (a.cycle << 16) | (a.cycle >> 16);
    let x = a.block;
    let y = b.block;
    assert(x != y && x < 0x8000_0000 && y < 0x8000_0000 ==> (0x8000_0000u32 | (turned ^ x)
        & 0x7fff_ffff) != (0x8000_0000u32 | (turned ^ y) & 0x7fff_ffff)) by (bit_vector);
}

/// A transaction header says what it was given.
pub proof fn law_transaction_header_reads_back(tid: u32, kind: u32, item_ops: u32)
    ensures
        ({
            let h = trans_header_bytes(tid, kind, item_ops);
            &&& h.len() == TRANS_HEADER_SIZE
            &&& le32_at(h, 0) == XFS_TRANS_HEADER_MAGIC
            &&& le32_at(h, 4) == kind
            &&& le32_at(h, 8) == tid
            &&& le32_at(h, 12) == item_ops
        }),
{
    let h = trans_header_bytes(tid, kind, item_ops);
    assert(h.subrange(0, 4) =~= le32_bytes(XFS_TRANS_HEADER_MAGIC));
    assert(h.subrange(4, 8) =~= le32_bytes(kind));
    assert(h.subrange(8, 12) =~= le32_bytes(tid));
    assert(h.subrange(12, 16) =~= le32_bytes(item_ops));
    lemma_le32_reads_back(h, 0, XFS_TRANS_HEADER_MAGIC);
    lemma_le32_reads_back(h, 4, kind);
    lemma_le32_reads_back(h, 8, tid);
    lemma_le32_reads_back(h, 12, item_ops);
}

/// An inode format says what it was given: which inode, which parts, how
/// many operations, how long a fork, and where the inode's cluster is.
pub proof fn law_inode_format_reads_back(
    ino: u64,
    fields: u32,
    buffer: InodeBuffer,
    size: u16,
    dsize: u16,
)
    ensures
        ({
            let f = inode_format_bytes(ino, fields, buffer, size, dsize);
            &&& f.len() == INODE_LOG_FORMAT_SIZE
            &&& le16_at(f, ILF_TYPE as int) == XFS_LI_INODE
            &&& le16_at(f, ILF_SIZE as int) == size
            &&& le32_at(f, ILF_FIELDS as int) == fields
            &&& le16_at(f, ILF_DSIZE as int) == dsize
            &&& le64_at(f, ILF_INO as int) == ino
            &&& le64_at(f, ILF_BLKNO as int) == buffer.blkno
            &&& le32_at(f, ILF_LEN as int) == buffer.len
            &&& le32_at(f, ILF_BOFFSET as int) == buffer.boffset
        }),
{
    let f = inode_format_bytes(ino, fields, buffer, size, dsize);
    assert(f.subrange(0, 2) =~= le16_bytes(XFS_LI_INODE));
    assert(f.subrange(2, 4) =~= le16_bytes(size));
    assert(f.subrange(4, 8) =~= le32_bytes(fields));
    assert(f.subrange(10, 12) =~= le16_bytes(dsize));
    assert(f.subrange(16, 24) =~= le64_bytes(ino));
    assert(f.subrange(40, 48) =~= le64_bytes(buffer.blkno));
    assert(f.subrange(48, 52) =~= le32_bytes(buffer.len));
    assert(f.subrange(52, 56) =~= le32_bytes(buffer.boffset));
    lemma_le16_reads_back(f, 0, XFS_LI_INODE);
    lemma_le16_reads_back(f, 2, size);
    lemma_le32_reads_back(f, 4, fields);
    lemma_le16_reads_back(f, 10, dsize);
    lemma_le64_reads_back(f, 16, ino);
    lemma_le64_reads_back(f, 40, buffer.blkno);
    lemma_le32_reads_back(f, 48, buffer.len);
    lemma_le32_reads_back(f, 52, buffer.boffset);
}

/// A mount writes at most one checkpoint, and a refusal of any kind does
/// not spend it: once a core was logged every other one is refused, and
/// after one that was refused, for want of room in the log too, the next is
/// answered as if it were the first.
pub proof fn law_one_checkpoint_per_mount(
    mounts: (Filesystem, Filesystem, Filesystem),
    first: (u64, Seq<u8>, Result<u64, Error>, Result<Head, Error>, Result<Checkpoint, Error>),
    second: (u64, Seq<u8>, Result<u64, Error>, Result<Head, Error>, Result<Checkpoint, Error>),
    order: ByteOrder,
)
    requires
        core_logged(mounts.0, mounts.1, first.0, first.1, first.2, first.3, order, first.4),
        core_logged(mounts.1, mounts.2, second.0, second.1, second.2, second.3, order, second.4),
    ensures
        first.4 is Ok ==> second.4 is Err && mounts.2 == mounts.1,
        first.4 is Err ==> core_logged(
            mounts.0,
            mounts.2,
            second.0,
            second.1,
            second.2,
            second.3,
            order,
            second.4,
        ),
{
}

/// The checkpoint that logs a core is the checkpoint of the five operations
/// of the change, so it reads back as they do.
pub proof fn law_core_checkpoint_is_of_its_operations(
    sb: Superblock,
    head: Head,
    ino: u64,
    at: u64,
    core: Seq<u8>,
    order: ByteOrder,
    ops: Seq<Op>,
)
    requires
        op_values(ops) == core_operations(
            transaction_id_of(head),
            ino,
            buffer_containing(at, sb.cluster_bytes),
            core,
        ),
    ensures
        core_checkpoint(sb, head, ino, at, core, order) == checkpoint_at(
            sb,
            head,
            transaction_id_of(head),
            ops,
            order,
        ),
{
    lemma_payload_of_values(transaction_id_of(head), ops);
    assert(op_values(ops).len() == 5);
}

} // verus!
