//! What a record, a checkpoint and its operations are, byte by byte.

use vstd::prelude::*;
use crate::bytes::zeros;
use crate::checksum::{crc32c_of, law_only_the_field_is_zeroed, with_zeroed_crc};
use crate::dinode::logged_core;
use crate::endian::{be32_at, be32_bytes, be64_at, le16_at, le32_at, le64_at, lemma_be32_reads_back};
use crate::error::{Error, Unsupported};
use crate::log::{lsn_of, ByteOrder, Head};
use crate::log_laws::{
    law_every_block_leads_with_the_cycle, law_inode_format_reads_back,
    law_record_checksum_verifies, law_record_header_reads_back, law_transaction_header_reads_back,
    lemma_header_fields, lemma_kept_further, lemma_kept_in_the_header, lemma_record_parts,
};
use crate::log_write::{
    asks_head, asks_offset, blank_header, buffer_containing, can_append, checkpoint_at,
    checkpoint_of, core_logged, core_operations, core_outcome, further_headers, inode_format_bytes,
    op_bytes, padded, payload_bytes, record_bytes, stamped, trans_header_bytes, transaction_id_of,
    Checkpoint, CheckpointView, Filesystem, InodeBuffer, Op, Placement,
};
use crate::superblock::Superblock;

verus! {

/// How many header blocks a record has: one for each 32 KiB of the buffers
/// that it is read into, or of the payload if that is longer, and one at
/// least.
pub open spec fn headers_of(iclog_size: int, len: int) -> int {
    let most = if iclog_size < len {
        len
    } else {
        iclog_size
    };
    if most <= 32768 {
        1
    } else {
        (most + 32767) / 32768
    }
}

/// The byte at `i` of a payload that is padded with zeros.
pub open spec fn padded_byte(payload: Seq<u8>, i: int) -> u8 {
    if i < payload.len() {
        payload[i]
    } else {
        0
    }
}

/// A record's header block opens with its magic and says, big-endian, which
/// cycle, which version, how long, which sequence number, which tail, which
/// record before, how many operations, which byte order, which filesystem,
/// and which buffer size.
#[verifier::rlimit(40)]
pub proof fn law_record_header_is_laid_out(
    placement: Placement,
    num_logops: u32,
    payload: Seq<u8>,
    order: ByteOrder,
)
    ensures
        ({
            let r = record_bytes(placement, num_logops, payload, order);
            &&& r.len() == 512 * headers_of(placement.iclog_size as int, payload.len() as int) + (
            payload.len() + 511) / 512 * 512
            &&& r[0] == 0xfe && r[1] == 0xed && r[2] == 0xba && r[3] == 0xbe
            &&& be32_at(r, 4) == placement.cycle
            &&& be32_at(r, 8) == 2
            &&& be32_at(r, 12) == payload.len() % 0x1_0000_0000
            &&& be32_at(r, 16) == placement.cycle
            &&& be32_at(r, 20) == placement.block
            &&& be64_at(r, 24) == placement.tail_lsn
            &&& be32_at(r, 36) == placement.prev_block
            &&& be32_at(r, 40) == num_logops
            &&& be32_at(r, 300) == match order {
                ByteOrder::Little => 1u32,
                ByteOrder::Big => 2,
            }
            &&& r.subrange(304, 320) == placement.uuid@
            &&& be32_at(r, 320) == placement.iclog_size
        }),
{
    law_record_header_reads_back(placement, num_logops, payload, order);
    let r = record_bytes(placement, num_logops, payload, order);
    lemma_two_words(r, 16, placement.cycle, placement.block);
    lemma_magic_by_its_bytes(r);
}

/// A sequence number is a cycle and a block, one word each.
proof fn lemma_two_words(r: Seq<u8>, at: int, cycle: u32, block: u32)
    requires
        be64_at(r, at) == lsn_of(cycle, block),
    ensures
        be32_at(r, at) == cycle,
        be32_at(r, at + 4) == block,
{
}

/// A record's magic, byte by byte.
proof fn lemma_magic_by_its_bytes(r: Seq<u8>)
    requires
        be32_at(r, 0) == 0xfeed_babeu32,
    ensures
        r[0] == 0xfe && r[1] == 0xed && r[2] == 0xba && r[3] == 0xbe,
{
}

/// Behind the header structure the header block is blank.
pub proof fn law_header_block_is_blank_behind_the_structure(
    placement: Placement,
    num_logops: u32,
    payload: Seq<u8>,
    order: ByteOrder,
    i: int,
)
    requires
        324 <= i < 512,
    ensures
        record_bytes(placement, num_logops, payload, order)[i] == 0,
{
    lemma_record_parts(placement, num_logops, payload, order);
    lemma_header_fields(placement, num_logops, payload, order);
    let h = blank_header(placement, num_logops, payload, order);
    let r = record_bytes(placement, num_logops, payload, order);
    assert(h[i] == h.subrange(324, 512)[i - 324]);
    assert(r[i] == h[i]);
}

/// A record's checksum, little-endian at byte 32, is the CRC32C of the 328
/// bytes of its header structure, with the checksum taken to be zero,
/// followed by its payload as it stands in the record.
#[verifier::rlimit(40)]
pub proof fn law_record_checksum_covers_header_and_payload(
    placement: Placement,
    num_logops: u32,
    payload: Seq<u8>,
    order: ByteOrder,
)
    ensures
        ({
            let r = record_bytes(placement, num_logops, payload, order);
            let start = 512 * headers_of(placement.iclog_size as int, payload.len() as int);
            le32_at(r, 32) == crc32c_of(
                Seq::new(
                    328 + payload.len(),
                    |i: int|
                        if 32 <= i < 36 {
                            0u8
                        } else if i < 328 {
                            r[i]
                        } else {
                            r[start + (i - 328)]
                        },
                ),
            )
        }),
{
    let r = record_bytes(placement, num_logops, payload, order);
    let start = 512 * headers_of(placement.iclog_size as int, payload.len() as int);
    let covered = Seq::new(
        328 + payload.len(),
        |i: int|
            if 32 <= i < 36 {
                0u8
            } else if i < 328 {
                r[i]
            } else {
                r[start + (i - 328)]
            },
    );
    law_record_checksum_verifies(placement, num_logops, payload, order);
    law_record_header_reads_back(placement, num_logops, payload, order);
    let header = r.subrange(0, 512).subrange(0, 328);
    let data = r.subrange(start, start + payload.len());
    law_only_the_field_is_zeroed(header, 32);
    assert(with_zeroed_crc(header, 32) + data =~= covered);
}

/// Every byte of the payload, and of the zeros that pad it to whole blocks,
/// stands in the record: behind the header blocks in its place, or, if it
/// is one of the first four of its block, where the words that the cycle
/// displaced are kept. That is at byte 44 of the first header block for the
/// first 64 blocks, and at byte 4 of the further ones for 64 each. In the
/// payload's place every block opens with the cycle, and so does every
/// header block but the first.
#[verifier::rlimit(40)]
pub proof fn law_record_keeps_every_byte(
    placement: Placement,
    num_logops: u32,
    payload: Seq<u8>,
    order: ByteOrder,
    i: int,
)
    requires
        0 <= i < (payload.len() + 511) / 512 * 512,
    ensures
        ({
            let r = record_bytes(placement, num_logops, payload, order);
            let n = headers_of(placement.iclog_size as int, payload.len() as int);
            let block = i / 512;
            let word = i % 512;
            &&& word >= 4 ==> r[512 * n + i] == padded_byte(payload, i)
            &&& word < 4 && block < 64 ==> r[44 + 4 * block + word] == padded_byte(payload, i)
            &&& word < 4 && block >= 64 ==> r[512 * (block / 64) + 4 + 4 * (block % 64) + word]
                == padded_byte(payload, i)
            &&& be32_at(r, 512 * (n + block)) == placement.cycle
        }),
{
    let r = record_bytes(placement, num_logops, payload, order);
    let n = headers_of(placement.iclog_size as int, payload.len() as int);
    let whole = padded(payload);
    let block = i / 512;
    lemma_record_parts(placement, num_logops, payload, order);
    assert(whole[i] == padded_byte(payload, i));
    law_every_block_leads_with_the_cycle(placement, num_logops, payload, order, n + block);
    if i % 512 < 4 {
        if block < 64 {
            lemma_kept_in_the_header(placement, num_logops, payload, order, i);
        } else {
            lemma_kept_further(placement, num_logops, payload, order, i);
        }
    } else {
        let data = stamped(whole, placement.cycle);
        assert(data[i] == whole[i]);
        assert(r[512 * n + i] == data[i]);
    }
}

/// The room for displaced words that no block fills is blank, and so is
/// what stands behind it in the further header blocks.
#[verifier::rlimit(40)]
pub proof fn law_unused_room_for_words_is_blank(
    placement: Placement,
    num_logops: u32,
    payload: Seq<u8>,
    order: ByteOrder,
    g: int,
    i: int,
)
    requires
        0 <= g < headers_of(placement.iclog_size as int, payload.len() as int),
        0 <= i,
    ensures
        ({
            let r = record_bytes(placement, num_logops, payload, order);
            let blocks = (payload.len() + 511) / 512;
            &&& g == 0 && i < 256 && i / 4 >= blocks ==> r[44 + i] == 0
            &&& g > 0 && i < 256 && 64 * g + i / 4 >= blocks ==> r[512 * g + 4 + i] == 0
            &&& g > 0 && 260 <= i < 512 ==> r[512 * g + i] == 0
            &&& g > 0 ==> be32_at(r, 512 * g) == placement.cycle
        }),
{
    let r = record_bytes(placement, num_logops, payload, order);
    let n = headers_of(placement.iclog_size as int, payload.len() as int);
    let whole = padded(payload);
    let h = blank_header(placement, num_logops, payload, order);
    lemma_record_parts(placement, num_logops, payload, order);
    lemma_header_fields(placement, num_logops, payload, order);
    if g == 0 {
        if i < 256 {
            assert(h[44 + i] == h.subrange(44, 300)[i]);
            assert(r[44 + i] == h[44 + i]);
        }
    } else {
        law_every_block_leads_with_the_cycle(placement, num_logops, payload, order, g);
        let further = further_headers(whole, placement.cycle, n as nat);
        if i < 256 {
            let at = 512 * (g - 1) + 4 + i;
            assert(at / 512 == g - 1 && at % 512 == 4 + i);
            assert(further[at] == r[512 + at]);
        } else if 260 <= i < 512 {
            let at = 512 * (g - 1) + i;
            assert(at / 512 == g - 1 && at % 512 == i);
            assert(further[at] == r[512 + at]);
        }
    }
}

/// A payload is its operations one behind the other, and each of them is
/// twelve bytes and its data: the transaction's id and the length of the
/// data, big-endian, the client, the flags, and two bytes that are zero.
pub proof fn law_payload_is_operations_in_a_row(tid: u32, a: Seq<Op>, b: Seq<Op>, op: Op)
    ensures
        payload_bytes(tid, a + b) == payload_bytes(tid, a) + payload_bytes(tid, b),
        payload_bytes(tid, Seq::empty()) == Seq::<u8>::empty(),
        ({
            let p = payload_bytes(tid, seq![op]);
            &&& p.len() == 12 + op.data@.len()
            &&& be32_at(p, 0) == tid
            &&& be32_at(p, 4) == op.data@.len() % 0x1_0000_0000
            &&& p[8] == 0x69
            &&& p[9] == op.flags
            &&& p[10] == 0 && p[11] == 0
            &&& p.skip(12) == op.data@
        }),
    decreases b.len(),
{
    let one = seq![op];
    assert(one.drop_last() =~= Seq::<Op>::empty());
    assert(payload_bytes(tid, one.drop_last()) =~= Seq::<u8>::empty());
    let p = payload_bytes(tid, one);
    assert(p =~= op_bytes(tid, op));
    assert(p.subrange(0, 4) =~= be32_bytes(tid));
    let len = (op.data@.len() % 0x1_0000_0000) as u32;
    assert(p.subrange(4, 8) =~= be32_bytes(len));
    lemma_be32_reads_back(p, 0, tid);
    lemma_be32_reads_back(p, 4, len);
    assert(p.skip(12) =~= op.data@);
    if b.len() == 0 {
        assert(a + b =~= a);
        assert(payload_bytes(tid, a) + payload_bytes(tid, b) =~= payload_bytes(tid, a));
    } else {
        assert((a + b).drop_last() =~= a + b.drop_last());
        assert((a + b).last() == b.last());
        law_payload_is_operations_in_a_row(tid, a, b.drop_last(), op);
        let last = op_bytes(tid, b.last());
        assert((payload_bytes(tid, a) + payload_bytes(tid, b.drop_last())) + last
            =~= payload_bytes(tid, a) + (payload_bytes(tid, b.drop_last()) + last));
    }
}

/// A transaction header is 16 bytes: "TRAN", the kind, the transaction's
/// id, and the number of operations of its items, each little-endian.
pub proof fn law_transaction_header_is_four_words(tid: u32, kind: u32, item_ops: u32)
    ensures
        ({
            let h = trans_header_bytes(tid, kind, item_ops);
            &&& h.len() == 16
            &&& h[0] == 0x4e && h[1] == 0x41 && h[2] == 0x52 && h[3] == 0x54
            &&& le32_at(h, 4) == kind
            &&& le32_at(h, 8) == tid
            &&& le32_at(h, 12) == item_ops
        }),
{
    law_transaction_header_reads_back(tid, kind, item_ops);
}

/// An inode format is 56 bytes: the type, the number of operations, the
/// parts, the length of the data fork, the inode's number, and its buffer's
/// address, length and offset, each little-endian.
pub proof fn law_inode_format_is_laid_out(
    ino: u64,
    fields: u32,
    buffer: InodeBuffer,
    size: u16,
    dsize: u16,
)
    ensures
        ({
            let f = inode_format_bytes(ino, fields, buffer, size, dsize);
            &&& f.len() == 56
            &&& le16_at(f, 0) == 0x123b
            &&& le16_at(f, 2) == size
            &&& le32_at(f, 4) == fields
            &&& le16_at(f, 10) == dsize
            &&& le64_at(f, 16) == ino
            &&& le64_at(f, 40) == buffer.blkno
            &&& le32_at(f, 48) == buffer.len
            &&& le32_at(f, 52) == buffer.boffset
        }),
{
    law_inode_format_reads_back(ino, fields, buffer, size, dsize);
}

/// What an inode format does not say is zero: the length of the attribute
/// fork, and what nothing is known of.
#[verifier::rlimit(40)]
pub proof fn law_inode_format_is_blank_in_between(
    ino: u64,
    fields: u32,
    buffer: InodeBuffer,
    size: u16,
    dsize: u16,
)
    ensures
        ({
            let f = inode_format_bytes(ino, fields, buffer, size, dsize);
            &&& f.subrange(8, 10) == zeros(2)
            &&& f.subrange(12, 16) == zeros(4)
            &&& f.subrange(24, 40) == zeros(16)
            &&& forall|n: nat, i: int| 0 <= i < n ==> #[trigger] zeros(n)[i] == 0u8
        }),
{
    let f = inode_format_bytes(ino, fields, buffer, size, dsize);
    assert(f.subrange(8, 10) =~= zeros(2));
    assert(f.subrange(12, 16) =~= zeros(4));
    assert(f.subrange(24, 40) =~= zeros(16));
}

/// An inode's buffer is the cluster-sized stretch of the device, counted
/// from its start, that the inode is in: it starts a whole number of
/// clusters in, and the offset is how far into it the inode is.
pub proof fn law_buffer_is_the_aligned_cluster(at: u64, cluster_bytes: u32, clusters: nat, into: nat)
    requires
        cluster_bytes > 0,
        into < cluster_bytes,
        at == clusters * cluster_bytes + into,
    ensures
        buffer_containing(at, cluster_bytes).blkno == clusters * cluster_bytes / 512,
        buffer_containing(at, cluster_bytes).len == cluster_bytes as int / 512,
        buffer_containing(at, cluster_bytes).boffset == into,
{
    vstd::arithmetic::div_mod::lemma_fundamental_div_mod_converse(
        at as int,
        cluster_bytes as int,
        clusters as int,
        into as int,
    );
    let start = at - into;
    assert(at % (cluster_bytes as u64) == into);
    assert(start == clusters * cluster_bytes);
}

/// A transaction's id has its top bit set, and below it the block where the
/// record starts, combined bit by bit with the cycle turned by half a word.
pub proof fn law_transaction_id_is_of_the_place(head: Head)
    ensures
        ({
            let turned = (head.cycle as int % 0x1_0000 * 0x1_0000 + head.cycle as int / 0x1_0000)
                as u32;
            &&& transaction_id_of(head) >= 0x8000_0000
            &&& transaction_id_of(head) as int - 0x8000_0000 == (turned ^ head.block) as int
                % 0x8000_0000
        }),
{
    let c = head.cycle;
    let b = head.block;
    let t = (c << 16) | (c >> 16);
    assert(t == c % 0x1_0000 * 0x1_0000 + c / 0x1_0000)
        by (bit_vector)
        requires
            t == (c << 16) | (c >> 16),
    ;
    let id = 0x8000_0000u32 | (t ^ b) & 0x7fff_ffff;
    assert(id >= 0x8000_0000 && id - 0x8000_0000 == (t ^ b) % 0x8000_0000) by (bit_vector)
        requires
            id == 0x8000_0000u32 | (t ^ b) & 0x7fff_ffff,
    ;
}

/// A checkpoint is accepted exactly if its payload and a header block fit a
/// buffer, and its record fits what is left of the log before it wraps.
/// Then it goes to the head of the log, with the sequence number of the
/// head for its own and for the tail, and its record is of the payload
/// padded to whole blocks.
#[verifier::rlimit(40)]
pub proof fn law_checkpoint_goes_to_the_head(
    sb: Superblock,
    head: Head,
    tid: u32,
    ops: Seq<Op>,
    order: ByteOrder,
)
    requires
        can_append(sb, head),
    ensures
        ({
            let p = payload_bytes(tid, ops);
            let blocks = headers_of(head.iclog_size as int, p.len() as int) + (p.len() + 511) / 512;
            let number = (head.cycle * 0x1_0000_0000 + head.block) as u64;
            let r = checkpoint_at(sb, head, tid, ops, order);
            &&& p.len() + 512 > head.iclog_size ==> r == Err::<CheckpointView, Error>(
                Error::UnsupportedFeature(
                    Unsupported::RecordTooLarge {
                        len: p.len() as usize,
                        max: (head.iclog_size - 512) as usize,
                    },
                ),
            )
            &&& p.len() + 512 <= head.iclog_size && blocks > head.free_blocks ==> r == Err::<
                CheckpointView,
                Error,
            >(
                Error::UnsupportedFeature(
                    Unsupported::RecordPastWrap {
                        blocks: blocks as usize,
                        free: head.free_blocks,
                    },
                ),
            )
            &&& p.len() + 512 <= head.iclog_size && blocks <= head.free_blocks ==> {
                &&& r matches Ok(c)
                &&& c.at == sb.fsblock_offset_of(sb.logstart) + 512 * head.block
                &&& c.lsn == number
                &&& c.bytes == record_bytes(
                    Placement {
                        block: head.block,
                        cycle: head.cycle,
                        prev_block: head.prev_block,
                        tail_lsn: number,
                        uuid: sb.uuid,
                        iclog_size: head.iclog_size,
                    },
                    (ops.len() % 0x1_0000_0000) as u32,
                    Seq::new(
                        ((p.len() + 511) / 512 * 512) as nat,
                        |i: int| padded_byte(p, i),
                    ),
                    order,
                )
            }
        }),
{
    reveal(checkpoint_of);
    let p = payload_bytes(tid, ops);
    let whole = Seq::new(((p.len() + 511) / 512 * 512) as nat, |i: int| padded_byte(p, i));
    assert(padded(p) =~= whole);
}

/// Logging a core is refused for a read-only mount first, then for a core
/// that has no logged form, an inode that is not found, a checkpoint that
/// was written before, a log whose end is not found, and a record that does
/// not fit. Otherwise the checkpoint is of five operations, under the id of
/// the place: START, a transaction header that counts two, the format that
/// names the inode and its cluster, the core as the log stores it, and
/// COMMIT.
pub proof fn law_core_is_logged_or_refused_in_order(
    fs: Filesystem,
    ino: u64,
    disk_core: Seq<u8>,
    at: Result<u64, Error>,
    head: Result<Head, Error>,
    order: ByteOrder,
    ops: Seq<Op>,
)
    ensures
        ({
            let r = core_outcome(fs, ino, disk_core, at, head, order);
            let core = logged_core(disk_core, order);
            &&& !fs.writable ==> r == Err::<CheckpointView, Error>(Error::ReadOnly)
            &&& fs.writable && core is Err ==> r == Err::<CheckpointView, Error>(
                Error::UnsupportedFeature(
                    Unsupported::CoreNotLoggable { ino, why: core->Err_0 },
                ),
            )
            &&& fs.writable && core is Ok && at is Err ==> r == Err::<CheckpointView, Error>(
                at->Err_0,
            )
            &&& fs.writable && core is Ok && at is Ok && fs.checkpoint_written ==> r == Err::<
                CheckpointView,
                Error,
            >(Error::UnsupportedFeature(Unsupported::SecondCheckpoint))
            &&& fs.writable && core is Ok && at is Ok && !fs.checkpoint_written && head is Err ==> r
                == Err::<CheckpointView, Error>(head->Err_0)
            &&& {
                let tid = transaction_id_of(head->Ok_0);
                let buffer = buffer_containing(at->Ok_0, fs.sb.cluster_bytes);
                &&& fs.writable && core is Ok && at is Ok && !fs.checkpoint_written && head is Ok
                &&& ops.len() == 5
                &&& ops[0].flags == 1 && ops[0].data@ == Seq::<u8>::empty()
                &&& ops[1].flags == 0 && ops[1].data@ == trans_header_bytes(tid, 0x28, 2)
                &&& ops[2].flags == 0 && ops[2].data@ == inode_format_bytes(ino, 1, buffer, 2, 0)
                &&& ops[3].flags == 0 && ops[3].data@ == core->Ok_0
                &&& ops[4].flags == 2 && ops[4].data@ == Seq::<u8>::empty()
            } ==> r == checkpoint_at(
                fs.sb,
                head->Ok_0,
                transaction_id_of(head->Ok_0),
                ops,
                order,
            )
        }),
{
    let r = core_outcome(fs, ino, disk_core, at, head, order);
    let core = logged_core(disk_core, order);
    if fs.writable && core is Ok && at is Ok && !fs.checkpoint_written && head is Ok {
        let tid = transaction_id_of(head->Ok_0);
        let buffer = buffer_containing(at->Ok_0, fs.sb.cluster_bytes);
        if ops.len() == 5 && ops[0].flags == 1 && ops[0].data@ == Seq::<u8>::empty()
            && ops[1].flags == 0 && ops[1].data@ == trans_header_bytes(tid, 0x28, 2)
            && ops[2].flags == 0 && ops[2].data@ == inode_format_bytes(ino, 1, buffer, 2, 0)
            && ops[3].flags == 0 && ops[3].data@ == core->Ok_0 && ops[4].flags == 2
            && ops[4].data@ == Seq::<u8>::empty() {
            assert(crate::log_write::op_values(ops) =~= core_operations(
                tid,
                ino,
                buffer,
                core->Ok_0,
            ));
            crate::log_laws::law_core_checkpoint_is_of_its_operations(
                fs.sb,
                head->Ok_0,
                ino,
                at->Ok_0,
                core->Ok_0,
                order,
                ops,
            );
        }
    }
}

/// A core that is logged gives the checkpoint and spends the mount's one
/// checkpoint, and nothing else of the mount changes. One that is refused
/// gives the refusal and leaves the mount as it was. Where the inode is, is
/// asked only of a mount that may be written and for a core that can be
/// logged; where the log ends, only once the inode is found and the
/// checkpoint is not spent.
pub proof fn law_logging_spends_the_checkpoint_or_nothing(
    before: Filesystem,
    after: Filesystem,
    ino: u64,
    disk_core: Seq<u8>,
    at: Result<u64, Error>,
    head: Result<Head, Error>,
    order: ByteOrder,
    r: Result<Checkpoint, Error>,
)
    ensures
        core_logged(before, after, ino, disk_core, at, head, order, r) <==> {
            &&& match core_outcome(before, ino, disk_core, at, head, order) {
                Ok(c) => r is Ok && r->Ok_0.at == c.at && r->Ok_0.bytes@ == c.bytes && r->Ok_0.lsn
                    == c.lsn,
                Err(e) => r == Err::<Checkpoint, Error>(e),
            }
            &&& after.sb == before.sb
            &&& after.writable == before.writable
            &&& after.checkpoint_written == (before.checkpoint_written || r is Ok)
        },
        asks_offset(before, disk_core, order) <==> before.writable && logged_core(
            disk_core,
            order,
        ) is Ok,
        asks_head(before, disk_core, at, order) <==> before.writable && logged_core(
            disk_core,
            order,
        ) is Ok && at is Ok && !before.checkpoint_written,
{
    if let Ok(c) = core_outcome(before, ino, disk_core, at, head, order) {
        if let Ok(v) = r {
            if v.at == c.at && v.bytes@ == c.bytes && v.lsn == c.lsn {
                assert(v@ =~= c);
            }
        }
    }
}

} // verus!
