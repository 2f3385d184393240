//! Building log records.
//!
//! A record's payload is a sequence of operations, each with a 12-byte
//! header. A transaction opens with an empty operation flagged
//! `XLOG_START_TRANS`, carries a transaction header and then one or more
//! items, and closes with an empty operation flagged `XLOG_COMMIT_TRANS`.
//! An inode-core change is:
//!
//! ```text
//! op  len   what
//!  0    0   START
//!  1   16   transaction header
//!  2   56   inode format: which inode, which fields
//!  3  176   the inode core, as the log stores it
//!  4    0   COMMIT
//! ```
//!
//! The cycle stamp is applied last: the first four bytes of each 512-byte
//! block of the payload are replaced by the cycle number, and the displaced
//! word is kept in the header. One header block has room for the words of
//! 64 payload blocks. Where records are read into larger buffers than that,
//! further header blocks stand between the first and the payload, as many as
//! a whole buffer needs, whether or not the payload fills them. The checksum
//! covers the header structure and the stamped form of the payload.

use vstd::prelude::*;
use crate::bytes::{append as append_bytes, patched, put, zeroed, zeros};
use crate::dinode::{disk_core, disk_dinode_in, log_dinode_in, logged_core};
use crate::endian::{
    be32_bytes, be64_bytes, le16_bytes, le32_bytes, le64_bytes, to_be32, to_be64, to_le16, to_le32,
    to_le64,
};
use crate::error::{Error, Unsupported};
use crate::format::log_items::{
    BBSIZE, INODE_LOG_FORMAT_SIZE, REC_CRC, TRANS_HEADER_SIZE, XFS_ILOG_CORE, XFS_LI_INODE,
    XFS_TRANSACTION, XFS_TRANS_CHECKPOINT, XFS_TRANS_HEADER_MAGIC, XLOG_COMMIT_TRANS,
    XLOG_CYCLE_DATA_ENTRIES, XLOG_HEADER_CYCLE_SIZE, XLOG_HEADER_MAGIC, XLOG_START_TRANS,
    XLOG_VERSION_2,
};
use crate::log::{lsn, lsn_of, record_checksum, record_checksum_of, ByteOrder, Head};
use crate::superblock::Superblock;

verus! {

/// One operation: its flags and its payload.
pub struct Op {
    pub flags: u8,
    pub data: Vec<u8>,
}

/// The bytes of a transaction header.
pub open spec fn trans_header_bytes(tid: u32, kind: u32, item_ops: u32) -> Seq<u8> {
    le32_bytes(XFS_TRANS_HEADER_MAGIC) + le32_bytes(kind) + le32_bytes(tid) + le32_bytes(item_ops)
}

/// The transaction header that opens every transaction's items.
///
/// `item_ops` counts **operations belonging to items**, not items, and not
/// the START and COMMIT that bracket them. For a lone inode-core change it
/// is 2.
pub fn trans_header(tid: u32, kind: u32, item_ops: u32) -> (r: Vec<u8>)
    ensures
        r@ == trans_header_bytes(tid, kind, item_ops),
        r@.len() == TRANS_HEADER_SIZE,
{
    let mut v: Vec<u8> = Vec::new();
    append_bytes(&mut v, &to_le32(XFS_TRANS_HEADER_MAGIC));
    append_bytes(&mut v, &to_le32(kind));
    append_bytes(&mut v, &to_le32(tid));
    append_bytes(&mut v, &to_le32(item_ops));
    assert(v@ =~= trans_header_bytes(tid, kind, item_ops));
    v
}

/// Where an inode's cluster buffer is, which is how a logged inode is
/// addressed: by the cluster that holds it and its offset inside.
#[derive(Debug, Clone, Copy, PartialEq, Eq)]
pub struct InodeBuffer {
    /// Basic-block address of the cluster.
    pub blkno: u64,
    /// Length of the cluster, in basic blocks.
    pub len: u32,
    /// The inode's byte offset within the cluster.
    pub boffset: u32,
}

/// The cluster holding the inode at device offset `at`.
pub open spec fn buffer_containing(at: u64, cluster_bytes: u32) -> InodeBuffer {
    InodeBuffer {
        blkno: ((at - at % (cluster_bytes as u64)) / 512) as u64,
        len: cluster_bytes / 512,
        boffset: (at % (cluster_bytes as u64)) as u32,
    }
}

impl InodeBuffer {
    /// Locate the cluster holding the inode at device offset `at`.
    ///
    /// The alignment is absolute: the inode's offset on the device
    /// truncated to a whole cluster, not relative to its allocation group.
    pub fn containing(at: u64, cluster_bytes: u32) -> (r: Self)
        requires
            cluster_bytes > 0,
        ensures
            r == buffer_containing(at, cluster_bytes),
    {
        let cluster: u64 = cluster_bytes as u64;
        proof {
            assert(at % cluster <= at && at % cluster < cluster) by (nonlinear_arith)
                requires
                    cluster > 0,
            ;
        }
        let start: u64 = at - at % cluster;
        InodeBuffer {
            blkno: start / BBSIZE as u64,
            len: cluster_bytes / BBSIZE as u32,
            boffset: (at - start) as u32,
        }
    }
}

/// The bytes of an inode format that spans `size` operations and announces
/// `dsize` bytes of data fork.
pub open spec fn inode_format_bytes(
    ino: u64,
    fields: u32,
    buffer: InodeBuffer,
    size: u16,
    dsize: u16,
) -> Seq<u8> {
    le16_bytes(XFS_LI_INODE) + le16_bytes(size) + le32_bytes(fields) + zeros(2) + le16_bytes(dsize)
        + zeros(4) + le64_bytes(ino) + zeros(16) + le64_bytes(buffer.blkno) + le32_bytes(buffer.len)
        + le32_bytes(buffer.boffset)
}

/// Encode an inode format.
fn encode_inode_format(
    ino: u64,
    fields: u32,
    buffer: &InodeBuffer,
    size: u16,
    dsize: u16,
) -> (r: Vec<u8>)
    ensures
        r@ == inode_format_bytes(ino, fields, *buffer, size, dsize),
        r@.len() == INODE_LOG_FORMAT_SIZE,
{
    let mut v: Vec<u8> = Vec::new();
    append_bytes(&mut v, &to_le16(XFS_LI_INODE));
    append_bytes(&mut v, &to_le16(size));
    append_bytes(&mut v, &to_le32(fields));
    append_bytes(&mut v, &zeroed(2));
    append_bytes(&mut v, &to_le16(dsize));
    append_bytes(&mut v, &zeroed(4));
    append_bytes(&mut v, &to_le64(ino));
    append_bytes(&mut v, &zeroed(16));
    append_bytes(&mut v, &to_le64(buffer.blkno));
    append_bytes(&mut v, &to_le32(buffer.len));
    append_bytes(&mut v, &to_le32(buffer.boffset));
    assert(v@ =~= inode_format_bytes(ino, fields, *buffer, size, dsize));
    v
}

/// Which inode is being logged, which parts of it, and where its cluster
/// buffer lives.
///
/// The buffer is not decoration. With those three fields zero the record
/// is found, is trusted, and fails in recovery reading block zero.
pub fn inode_log_format(ino: u64, fields: u32, buffer: &InodeBuffer) -> (r: Vec<u8>)
    ensures
        r@ == inode_format_bytes(ino, fields, *buffer, 2, 0),
        r@.len() == INODE_LOG_FORMAT_SIZE,
{
    // The item spans two operations: this format, then the core.
    encode_inode_format(ino, fields, buffer, 2, 0)
}

/// The inode format of an item that logs a data fork too.
///
/// `dsize` is the fork's own length, not its operation's: the operation is
/// padded to four bytes and this field is not.
pub fn inode_log_format_with_fork(
    ino: u64,
    fields: u32,
    buffer: &InodeBuffer,
    dsize: u16,
) -> (r: Vec<u8>)
    ensures
        r@ == inode_format_bytes(ino, fields, *buffer, 3, dsize),
        r@.len() == INODE_LOG_FORMAT_SIZE,
{
    // Three operations: this format, the core, then the fork.
    encode_inode_format(ino, fields, buffer, 3, dsize)
}

/// One operation in a record: transaction id, length, client, flags, two
/// reserved bytes, and the data. A length that does not fit 32 bits is cut.
pub open spec fn framed(tid: u32, flags: u8, data: Seq<u8>) -> Seq<u8> {
    be32_bytes(tid) + be32_bytes((data.len() % 0x1_0000_0000) as u32) + seq![
        XFS_TRANSACTION,
        flags,
        0u8,
        0u8,
    ] + data
}

/// One operation in a record.
pub open spec fn op_bytes(tid: u32, op: Op) -> Seq<u8> {
    framed(tid, op.flags, op.data@)
}

/// A record's payload: its operations one after the other.
pub open spec fn payload_bytes(tid: u32, ops: Seq<Op>) -> Seq<u8>
    decreases ops.len(),
{
    if ops.len() == 0 {
        Seq::empty()
    } else {
        payload_bytes(tid, ops.drop_last()) + op_bytes(tid, ops.last())
    }
}

/// Assemble a record's payload from its operations.
///
/// Every operation carries the same transaction id; that is what ties them
/// together across a record boundary.
pub fn payload(tid: u32, ops: &[Op]) -> (r: Vec<u8>)
    ensures
        r@ == payload_bytes(tid, ops@),
{
    let mut out: Vec<u8> = Vec::new();
    let mut i: usize = 0;
    assert(ops@.take(0).len() == 0);
    assert(out@ =~= payload_bytes(tid, ops@.take(0)));
    while i < ops.len()
        invariant
            i <= ops@.len(),
            out@ == payload_bytes(tid, ops@.take(i as int)),
        decreases ops@.len() - i,
    {
        let ghost before = out@;
        let op = &ops[i];
        append_bytes(&mut out, &to_be32(tid));
        append_bytes(&mut out, &to_be32((op.data.len() as u64 % 0x1_0000_0000) as u32));
        append_bytes(&mut out, &[XFS_TRANSACTION, op.flags, 0, 0]);
        append_bytes(&mut out, &op.data);
        proof {
            let more = ops@.take(i + 1);
            assert(more.drop_last() =~= ops@.take(i as int));
            assert(more.last() == ops@[i as int]);
            assert(out@ =~= before + op_bytes(tid, ops@[i as int]));
        }
        i += 1;
    }
    assert(ops@.take(i as int) =~= ops@);
    out
}

/// Where a record is going, and what the log looked like before it.
pub struct Placement {
    /// Basic block within the log at which the record starts.
    pub block: u32,
    /// Cycle this record belongs to.
    pub cycle: u32,
    /// Start block of the previous record, or `u32::MAX` for none.
    pub prev_block: u32,
    /// Oldest record still needed, as a log sequence number.
    pub tail_lsn: u64,
    /// The filesystem's UUID, which every record carries.
    pub uuid: [u8; 16],
    /// Size of the buffers that records are read into.
    pub iclog_size: u32,
}

/// `n` bytes rounded up to whole basic blocks.
pub open spec fn rounded_up(n: nat) -> nat {
    ((n + 511) / 512 * 512) as nat
}

/// A payload padded with zeros to whole basic blocks.
pub open spec fn padded(payload: Seq<u8>) -> Seq<u8> {
    payload + zeros((rounded_up(payload.len()) - payload.len()) as nat)
}

/// Whether the byte at `i` of a payload is covered by the cycle stamp: it
/// is one of the first four of its block.
pub open spec fn under_stamp(i: int) -> bool {
    i % 512 < 4
}

/// A padded payload with the cycle stamped over the first word of each
/// block.
pub open spec fn stamped(data: Seq<u8>, cycle: u32) -> Seq<u8> {
    Seq::new(
        data.len(),
        |i: int|
            if under_stamp(i) {
                be32_bytes(cycle)[i % 512]
            } else {
                data[i]
            },
    )
}

/// How many header blocks the displaced words of `len` bytes need, one at
/// least.
pub open spec fn headers_for(len: nat) -> nat {
    if len <= XLOG_HEADER_CYCLE_SIZE {
        1
    } else {
        (len + 32767) as nat / 32768
    }
}

/// How many header blocks a record with a payload of `len` bytes has: as
/// many as a whole buffer needs, or the payload if it is longer.
pub open spec fn header_blocks(iclog_size: u32, len: nat) -> nat {
    if len < iclog_size {
        headers_for(iclog_size as nat)
    } else {
        headers_for(len)
    }
}

/// The words that the cycle stamp displaces from the 64 payload blocks that
/// header block `g` answers for, as the header block keeps them.
pub open spec fn displaced(data: Seq<u8>, g: int) -> Seq<u8> {
    Seq::new(
        256,
        |i: int|
            if (g * 64 + i / 4) * 512 < data.len() {
                data[(g * 64 + i / 4) * 512 + i % 4]
            } else {
                0u8
            },
    )
}

/// Header block `g` of a record, behind the first: the cycle number and the
/// displaced words.
pub open spec fn further_header(data: Seq<u8>, cycle: u32, g: int) -> Seq<u8> {
    be32_bytes(cycle) + displaced(data, g) + zeros(252)
}

/// The header blocks of a record behind the first, `n` header blocks in
/// all.
pub open spec fn further_headers(data: Seq<u8>, cycle: u32, n: nat) -> Seq<u8> {
    Seq::new(
        (512 * (n - 1)) as nat,
        |i: int| further_header(data, cycle, 1 + i / 512)[i % 512],
    )
}

/// A record's header block with the checksum still blank.
pub open spec fn blank_header(
    placement: Placement,
    num_logops: u32,
    payload: Seq<u8>,
    order: ByteOrder,
) -> Seq<u8> {
    be32_bytes(XLOG_HEADER_MAGIC) + be32_bytes(placement.cycle) + be32_bytes(XLOG_VERSION_2)
        + be32_bytes((payload.len() % 0x1_0000_0000) as u32) + be64_bytes(
        lsn_of(placement.cycle, placement.block),
    ) + be64_bytes(placement.tail_lsn) + zeros(4) + be32_bytes(placement.prev_block) + be32_bytes(
        num_logops,
    ) + displaced(padded(payload), 0) + be32_bytes(order.code()) + placement.uuid@ + be32_bytes(
        placement.iclog_size,
    ) + zeros(188)
}

/// One complete record: the header block with its checksum, the further
/// header blocks, and then the stamped payload.
#[verifier::opaque]
pub open spec fn record_bytes(
    placement: Placement,
    num_logops: u32,
    payload: Seq<u8>,
    order: ByteOrder,
) -> Seq<u8> {
    let header = blank_header(placement, num_logops, payload, order);
    let data = stamped(padded(payload), placement.cycle);
    let crc = record_checksum_of(header, data.subrange(0, payload.len() as int));
    patched(header, REC_CRC as int, le32_bytes(crc)) + further_headers(
        padded(payload),
        placement.cycle,
        header_blocks(placement.iclog_size, payload.len()),
    ) + data
}

/// How many header blocks a record with a payload of `len` bytes has.
fn count_header_blocks(iclog_size: u32, len: usize) -> (r: usize)
    ensures
        r == header_blocks(iclog_size, len as nat),
        1 <= r <= 1 + usize::MAX / 32768,
{
    let most: usize = if len < iclog_size as usize {
        iclog_size as usize
    } else {
        len
    };
    if most <= XLOG_HEADER_CYCLE_SIZE {
        return 1;
    }
    (most - 1) / XLOG_HEADER_CYCLE_SIZE + 1
}

/// Keep the words that the cycle stamp displaces from the payload blocks
/// that header block `g` answers for.
fn displaced_words(data: &Vec<u8>, g: usize) -> (r: Vec<u8>)
    requires
        data@.len() % 512 == 0,
        g <= usize::MAX / 32768,
    ensures
        r@ == displaced(data@, g as int),
{
    let mut words: Vec<u8> = Vec::new();
    let blocks: usize = data.len() / BBSIZE;
    let mut i: usize = 0;
    while i < 4 * XLOG_CYCLE_DATA_ENTRIES
        invariant
            i <= 256,
            data@.len() % 512 == 0,
            blocks == data@.len() / 512,
            g <= usize::MAX / 32768,
            words@ == displaced(data@, g as int).take(i as int),
        decreases 256 - i,
    {
        let block: usize = g * XLOG_CYCLE_DATA_ENTRIES + i / 4;
        if block < blocks {
            words.push(data[block * BBSIZE + i % 4]);
        } else {
            words.push(0);
        }
        i += 1;
        assert(words@ =~= displaced(data@, g as int).take(i as int));
    }
    assert(words@ =~= displaced(data@, g as int));
    words
}

/// Encode the header blocks behind the first, `n` header blocks in all.
fn encode_further_headers(data: &Vec<u8>, cycle: u32, n: usize) -> (r: Vec<u8>)
    requires
        data@.len() % 512 == 0,
        1 <= n <= 1 + usize::MAX / 32768,
    ensures
        r@ == further_headers(data@, cycle, n as nat),
{
    let mut out: Vec<u8> = Vec::new();
    let mut g: usize = 1;
    assert(out@ =~= further_headers(data@, cycle, 1));
    while g < n
        invariant
            1 <= g <= n <= 1 + usize::MAX / 32768,
            data@.len() % 512 == 0,
            out@ == further_headers(data@, cycle, g as nat),
        decreases n - g,
    {
        let ghost before = out@;
        append_bytes(&mut out, &to_be32(cycle));
        append_bytes(&mut out, &displaced_words(data, g));
        append_bytes(&mut out, &zeroed(252));
        proof {
            let block = further_header(data@, cycle, g as int);
            assert(out@ =~= before + block);
            lemma_further_header_joins(data@, cycle, g as nat);
        }
        g += 1;
    }
    out
}

/// The further header blocks grow by one block at a time.
pub(crate) proof fn lemma_further_header_joins(data: Seq<u8>, cycle: u32, g: nat)
    requires
        1 <= g,
    ensures
        further_headers(data, cycle, g) + further_header(data, cycle, g as int) == further_headers(
            data,
            cycle,
            g + 1,
        ),
{
    let before = further_headers(data, cycle, g);
    let block = further_header(data, cycle, g as int);
    let after = further_headers(data, cycle, g + 1);
    assert(block.len() == 512);
    assert forall|i: int| 0 <= i < after.len() implies (before + block)[i] == after[i] by {
        if i >= before.len() {
            assert(1 + i / 512 == g && i % 512 == i - before.len());
        }
    }
    assert(before + block =~= after);
}

/// Stamp the cycle over the first word of each block.
fn stamp(data: &mut Vec<u8>, cycle: u32)
    requires
        old(data)@.len() % 512 == 0,
    ensures
        final(data)@ == stamped(old(data)@, cycle),
{
    let ghost orig = data@;
    let word = to_be32(cycle);
    let blocks: usize = data.len() / BBSIZE;
    let mut k: usize = 0;
    while k < blocks
        invariant
            k <= blocks,
            blocks == orig.len() / 512,
            data@.len() == orig.len(),
            orig.len() % 512 == 0,
            word@ == be32_bytes(cycle),
            forall|i: int|
                0 <= i < data@.len() ==> data@[i] == (if i < k * 512 {
                    stamped(orig, cycle)[i]
                } else {
                    orig[i]
                }),
        decreases blocks - k,
    {
        assert(data@.len() == data.len());
        put(data, k * BBSIZE, &word);
        k += 1;
    }
    assert(data@ =~= stamped(orig, cycle));
}

/// Encode a record's header block, with the checksum still blank.
fn encode_blank_header(
    placement: &Placement,
    num_logops: u32,
    payload: &[u8],
    data: &Vec<u8>,
    order: ByteOrder,
) -> (r: Vec<u8>)
    requires
        data@ == padded(payload@),
        data@.len() % 512 == 0,
    ensures
        r@ == blank_header(*placement, num_logops, payload@, order),
        r@.len() == 512,
{
    let mut header: Vec<u8> = Vec::new();
    append_bytes(&mut header, &to_be32(XLOG_HEADER_MAGIC));
    append_bytes(&mut header, &to_be32(placement.cycle));
    append_bytes(&mut header, &to_be32(XLOG_VERSION_2));
    append_bytes(&mut header, &to_be32((payload.len() as u64 % 0x1_0000_0000) as u32));
    append_bytes(&mut header, &to_be64(lsn(placement.cycle, placement.block)));
    append_bytes(&mut header, &to_be64(placement.tail_lsn));
    append_bytes(&mut header, &zeroed(4));
    append_bytes(&mut header, &to_be32(placement.prev_block));
    append_bytes(&mut header, &to_be32(num_logops));
    append_bytes(&mut header, &displaced_words(data, 0));
    append_bytes(&mut header, &to_be32(order.format_code()));
    append_bytes(&mut header, &placement.uuid);
    append_bytes(&mut header, &to_be32(placement.iclog_size));
    append_bytes(&mut header, &zeroed(188));
    assert(header@ =~= blank_header(*placement, num_logops, payload@, order));
    header
}

/// Encode one complete record as a machine of this byte order does: header
/// blocks, then the stamped payload, padded to whole basic blocks.
///
/// The checksum is computed last, over the header structure and the
/// stamped payload, because that is what is verified on replay.
pub fn encode_record_in(
    placement: &Placement,
    num_logops: u32,
    payload: &[u8],
    order: ByteOrder,
) -> (r: Vec<u8>)
    requires
        payload.len() <= usize::MAX - 511,
    ensures
        r@ == record_bytes(*placement, num_logops, payload@, order),
        r@.len() == 512 * record_blocks(placement.iclog_size, payload@.len()),
{
    let len: usize = payload.len();
    let whole: usize = (len + 511) / BBSIZE * BBSIZE;
    let mut data = vstd::slice::slice_to_vec(payload);
    append_bytes(&mut data, &zeroed(whole - len));
    assert(data@ =~= padded(payload@));

    let mut header = encode_blank_header(placement, num_logops, payload, &data, order);
    let blocks = count_header_blocks(placement.iclog_size, len);
    let further = encode_further_headers(&data, placement.cycle, blocks);
    proof {
        reveal(record_bytes);
    }
    stamp(&mut data, placement.cycle);
    let crc = record_checksum(&header, vstd::slice::slice_subrange(&data, 0, len));
    put(&mut header, REC_CRC, &to_le32(crc));
    append_bytes(&mut header, &further);
    append_bytes(&mut header, &data);
    header
}

/// Encode one complete record as this machine does.
///
/// Which of the two byte orders the header announces depends on the
/// machine; the record is the one of that order.
pub fn encode_record(placement: &Placement, num_logops: u32, payload: &[u8]) -> (r: Vec<u8>)
    requires
        payload.len() <= usize::MAX - 511,
    ensures
        r@ == record_bytes(*placement, num_logops, payload@, ByteOrder::of_machine()),
        r@.len() == 512 * record_blocks(placement.iclog_size, payload@.len()),
{
    encode_record_in(placement, num_logops, payload, ByteOrder::native())
}

/// Convert an inode's on-disk bytes into the form this machine's log
/// stores.
///
/// A version-2 inode logs a 96-byte core rather than 176, so the length is
/// taken from the inode's version. **Only the core is converted**: a fork
/// logged alongside it stays big-endian.
pub fn log_dinode_from_disk(raw: &[u8]) -> (r: Result<Vec<u8>, &'static str>)
    ensures
        match r {
            Ok(v) => logged_core(raw@, ByteOrder::of_machine()) == Ok::<Seq<u8>, &'static str>(v@),
            Err(e) => logged_core(raw@, ByteOrder::of_machine()) == Err::<Seq<u8>, &'static str>(e),
        },
{
    log_dinode_in(raw, ByteOrder::native())
}

/// Turn a core that this machine's log holds back into on-disk bytes.
///
/// Two fields come back wrong on purpose and the caller must fix both: the
/// checksum, which covers the whole inode and is blank in the log, and the
/// sequence number, which must not be recovered from the log at all.
pub fn log_dinode_to_disk(log: &[u8]) -> (r: Result<Vec<u8>, &'static str>)
    ensures
        match r {
            Ok(v) => disk_core(log@, ByteOrder::of_machine()) == Ok::<Seq<u8>, &'static str>(v@),
            Err(e) => disk_core(log@, ByteOrder::of_machine()) == Err::<Seq<u8>, &'static str>(e),
        },
{
    disk_dinode_in(log, ByteOrder::native())
}

/// A checkpoint ready to be written.
pub struct Checkpoint {
    /// Device offset at which its record goes.
    pub at: u64,
    /// The record.
    pub bytes: Vec<u8>,
    /// The sequence number the record was given.
    pub lsn: u64,
}

/// A checkpoint ready to be written, as values.
#[verifier::ext_equal]
pub struct CheckpointView {
    pub at: u64,
    pub bytes: Seq<u8>,
    pub lsn: u64,
}

impl View for Checkpoint {
    type V = CheckpointView;

    open spec fn view(&self) -> CheckpointView {
        CheckpointView { at: self.at, bytes: self.bytes@, lsn: self.lsn }
    }
}

/// Basic blocks in a record with a payload of `len` bytes.
pub open spec fn record_blocks(iclog_size: u32, len: nat) -> nat {
    header_blocks(iclog_size, len) + (len + 511) / 512
}

/// Where a record written at the head goes, and what came before it. The
/// record is its own tail, since it is the only one outstanding.
pub open spec fn placement_at(sb: Superblock, head: Head) -> Placement {
    Placement {
        block: head.block,
        cycle: head.cycle,
        prev_block: head.prev_block,
        tail_lsn: lsn_of(head.cycle, head.block),
        uuid: sb.uuid,
        iclog_size: head.iclog_size,
    }
}

/// The device offset of the head.
pub open spec fn head_offset(sb: Superblock, head: Head) -> int {
    sb.fsblock_offset_of(sb.logstart) + head.block * 512
}

/// One checkpoint with this payload of so many operations, written into the
/// log at `head` by a machine of this byte order, or why it cannot be.
#[verifier::opaque]
pub open spec fn checkpoint_of(
    sb: Superblock,
    head: Head,
    payload: Seq<u8>,
    count: nat,
    order: ByteOrder,
) -> Result<CheckpointView, Error> {
    let max = (head.iclog_size - 512) as usize;
    let blocks = record_blocks(head.iclog_size, payload.len());
    if payload.len() > max {
        Err(
            Error::UnsupportedFeature(
                Unsupported::RecordTooLarge { len: payload.len() as usize, max },
            ),
        )
    } else if blocks > head.free_blocks {
        Err(
            Error::UnsupportedFeature(
                Unsupported::RecordPastWrap { blocks: blocks as usize, free: head.free_blocks },
            ),
        )
    } else {
        Ok(
            CheckpointView {
                at: head_offset(sb, head) as u64,
                bytes: record_bytes(
                    placement_at(sb, head),
                    (count % 0x1_0000_0000) as u32,
                    padded(payload),
                    order,
                ),
                lsn: lsn_of(head.cycle, head.block),
            },
        )
    }
}

/// One checkpoint of some operations, or why it cannot be written.
pub open spec fn checkpoint_at(
    sb: Superblock,
    head: Head,
    tid: u32,
    ops: Seq<Op>,
    order: ByteOrder,
) -> Result<CheckpointView, Error> {
    checkpoint_of(sb, head, payload_bytes(tid, ops), ops.len(), order)
}

/// What can be written at a head: the head has room for a header block, and
/// its device offset is a device offset.
pub open spec fn can_append(sb: Superblock, head: Head) -> bool {
    &&& sb.valid()
    &&& head.iclog_size >= 512
    &&& head_offset(sb, head) <= u64::MAX
}

/// Prepare one checkpoint for the log at `head`, as a machine of this byte
/// order does.
///
/// It does not wrap: a record that will not fit between `head.block` and
/// the end of the ring is refused rather than split. It does not move the
/// tail either: the tail is the record's own sequence number, which is
/// right while this is the only outstanding checkpoint.
pub fn append_at_in(
    sb: &Superblock,
    head: &Head,
    tid: u32,
    ops: &[Op],
    order: ByteOrder,
) -> (r: Result<Checkpoint, Error>)
    requires
        can_append(*sb, *head),
    ensures
        match r {
            Ok(c) => checkpoint_at(*sb, *head, tid, ops@, order) == Ok::<CheckpointView, Error>(c@),
            Err(e) => checkpoint_at(*sb, *head, tid, ops@, order) == Err::<CheckpointView, Error>(
                e,
            ),
        },
{
    proof {
        reveal(checkpoint_of);
    }
    let mut data = payload(tid, ops);
    let len: usize = data.len();

    // A record is read back into a buffer of `iclog_size` bytes, so a
    // payload larger than a buffer less its header block cannot be read
    // back however well it is written.
    let max: usize = head.iclog_size as usize - BBSIZE;
    if len > max {
        return Err(Error::UnsupportedFeature(Unsupported::RecordTooLarge { len, max }));
    }
    let blocks: usize = count_header_blocks(head.iclog_size, len) + (len + 511) / BBSIZE;
    if blocks > head.free_blocks as usize {
        return Err(
            Error::UnsupportedFeature(
                Unsupported::RecordPastWrap { blocks, free: head.free_blocks },
            ),
        );
    }
    // The header's length is that of the operations rounded up to a whole
    // basic block. The trailing zeros read back as nothing, because the
    // header also says how many operations there are.
    let whole: usize = (len + 511) / BBSIZE * BBSIZE;
    append_bytes(&mut data, &zeroed(whole - len));
    assert(data@ =~= padded(payload_bytes(tid, ops@)));

    let number = lsn(head.cycle, head.block);
    let placement = Placement {
        block: head.block,
        cycle: head.cycle,
        prev_block: head.prev_block,
        tail_lsn: number,
        uuid: sb.uuid,
        iclog_size: head.iclog_size,
    };
    let count: u32 = (ops.len() as u64 % 0x1_0000_0000) as u32;
    let bytes = encode_record_in(&placement, count, &data, order);
    let at: u64 = sb.fsblock_offset(sb.logstart) + head.block as u64 * BBSIZE as u64;
    Ok(Checkpoint { at, bytes, lsn: number })
}

/// Prepare one checkpoint for the log at `head`, as this machine does.
///
/// The caller writes `bytes` at `at` and flushes the device.
pub fn append_at(sb: &Superblock, head: &Head, tid: u32, ops: &[Op]) -> (r: Result<
    Checkpoint,
    Error,
>)
    requires
        can_append(*sb, *head),
    ensures
        match r {
            Ok(c) => checkpoint_at(*sb, *head, tid, ops@, ByteOrder::of_machine()) == Ok::<
                CheckpointView,
                Error,
            >(c@),
            Err(e) => checkpoint_at(*sb, *head, tid, ops@, ByteOrder::of_machine()) == Err::<
                CheckpointView,
                Error,
            >(e),
        },
{
    append_at_in(sb, head, tid, ops, ByteOrder::native())
}

/// The transaction id of a checkpoint written at `head`.
pub open spec fn transaction_id_of(head: Head) -> u32 {
    0x8000_0000 | (((head.cycle << 16) | (head.cycle >> 16)) ^ head.block) & 0x7fff_ffff
}

/// A transaction id for a checkpoint written at `head`.
///
/// The id only has to tie a checkpoint's operations to each other and
/// differ from its neighbours', so it is derived from the position. The
/// high bit is set so it can never come out zero, which means no
/// transaction at all.
pub fn transaction_id(head: &Head) -> (r: u32)
    ensures
        r == transaction_id_of(*head),
        r != 0,
{
    let turned: u32 = (head.cycle << 16) | (head.cycle >> 16);
    let block: u32 = head.block;
    proof {
        assert(0x8000_0000u32 | (turned ^ block) & 0x7fff_ffff != 0) by (bit_vector);
    }
    0x8000_0000 | (turned ^ block) & 0x7fff_ffff
}

/// Prepare the checkpoint that `build` makes for the log at `head`.
///
/// `build` receives the transaction id, because the id has to be woven into
/// every operation and is derived from where the record lands.
pub fn append<F>(sb: &Superblock, head: &Head, build: F) -> (r: Result<
    Checkpoint,
    Error,
>) where F: FnOnce(u32) -> Vec<Op>
    requires
        can_append(*sb, *head),
        call_requires(build, (transaction_id_of(*head),)),
    ensures
        exists|ops: Vec<Op>|
            call_ensures(build, (transaction_id_of(*head),), ops) && match r {
                Ok(c) => #[trigger] checkpoint_at(
                    *sb,
                    *head,
                    transaction_id_of(*head),
                    ops@,
                    ByteOrder::of_machine(),
                ) == Ok::<CheckpointView, Error>(c@),
                Err(e) => checkpoint_at(
                    *sb,
                    *head,
                    transaction_id_of(*head),
                    ops@,
                    ByteOrder::of_machine(),
                ) == Err::<CheckpointView, Error>(e),
            },
{
    let tid = transaction_id(head);
    let order = ByteOrder::native();
    let ops = build(tid);
    let r = append_at_in(sb, head, tid, &ops, order);
    assert(call_ensures(build, (tid,), ops) && match r {
        Ok(c) => checkpoint_at(*sb, *head, tid, ops@, order) == Ok::<CheckpointView, Error>(c@),
        Err(e) => checkpoint_at(*sb, *head, tid, ops@, order) == Err::<CheckpointView, Error>(e),
    });
    r
}

/// An inode core that is about to be logged.
pub struct CoreChange {
    pub ino: u64,
    /// The cluster that holds the inode.
    pub buffer: InodeBuffer,
    /// The core, as the log stores it.
    pub core: Vec<u8>,
}

/// Operations as values: flags and data.
pub open spec fn op_values(ops: Seq<Op>) -> Seq<(u8, Seq<u8>)> {
    Seq::new(ops.len(), |i: int| (ops[i].flags, ops[i].data@))
}

/// A record's payload, by the values of its operations.
pub open spec fn values_payload(tid: u32, values: Seq<(u8, Seq<u8>)>) -> Seq<u8>
    decreases values.len(),
{
    if values.len() == 0 {
        Seq::empty()
    } else {
        values_payload(tid, values.drop_last()) + framed(tid, values.last().0, values.last().1)
    }
}

/// A payload depends on the values of its operations alone.
pub(crate) proof fn lemma_payload_of_values(tid: u32, ops: Seq<Op>)
    ensures
        payload_bytes(tid, ops) == values_payload(tid, op_values(ops)),
    decreases ops.len(),
{
    if ops.len() > 0 {
        lemma_payload_of_values(tid, ops.drop_last());
        assert(op_values(ops).drop_last() =~= op_values(ops.drop_last()));
    }
}

/// The operations of a transaction that changes one inode's core.
pub open spec fn core_operations(
    tid: u32,
    ino: u64,
    buffer: InodeBuffer,
    core: Seq<u8>,
) -> Seq<(u8, Seq<u8>)> {
    seq![
        (XLOG_START_TRANS, Seq::empty()),
        (0u8, trans_header_bytes(tid, XFS_TRANS_CHECKPOINT, 2)),
        (0u8, inode_format_bytes(ino, XFS_ILOG_CORE, buffer, 2, 0)),
        (0u8, core),
        (XLOG_COMMIT_TRANS, Seq::empty()),
    ]
}

impl CoreChange {
    /// The operations that log this change under a transaction id.
    pub fn operations(self, tid: u32) -> (r: Vec<Op>)
        ensures
            op_values(r@) == core_operations(tid, self.ino, self.buffer, self.core@),
    {
        let r = vec![
            Op { flags: XLOG_START_TRANS, data: Vec::new() },
            Op { flags: 0, data: trans_header(tid, XFS_TRANS_CHECKPOINT, 2) },
            Op { flags: 0, data: inode_log_format(self.ino, XFS_ILOG_CORE, &self.buffer) },
            Op { flags: 0, data: self.core },
            Op { flags: XLOG_COMMIT_TRANS, data: Vec::new() },
        ];
        assert(op_values(r@) =~= core_operations(tid, self.ino, self.buffer, self.core@));
        r
    }
}

/// A mounted filesystem, as far as writing its log depends on it.
pub struct Filesystem {
    pub sb: Superblock,
    /// Whether it was mounted to be written.
    pub writable: bool,
    /// Whether this mount's one checkpoint is spent.
    pub checkpoint_written: bool,
}

/// The checkpoint that logs an inode's core at `head`, or why it cannot be
/// written there. `at` is the inode's device offset and `core` its core as
/// the log stores it.
pub open spec fn core_checkpoint(
    sb: Superblock,
    head: Head,
    ino: u64,
    at: u64,
    core: Seq<u8>,
    order: ByteOrder,
) -> Result<CheckpointView, Error> {
    let tid = transaction_id_of(head);
    let buffer = buffer_containing(at, sb.cluster_bytes);
    checkpoint_of(
        sb,
        head,
        values_payload(tid, core_operations(tid, ino, buffer, core)),
        5,
        order,
    )
}

/// Whether logging a core gets as far as asking where the inode is.
pub open spec fn asks_offset(fs: Filesystem, disk_core: Seq<u8>, order: ByteOrder) -> bool {
    fs.writable && logged_core(disk_core, order) is Ok
}

/// Whether logging a core gets as far as asking where the log ends.
pub open spec fn asks_head(
    fs: Filesystem,
    disk_core: Seq<u8>,
    at: Result<u64, Error>,
    order: ByteOrder,
) -> bool {
    asks_offset(fs, disk_core, order) && at is Ok && !fs.checkpoint_written
}

/// What logging a core comes to, or why it is refused. `at` is the inode's
/// device offset and `head` the end of the log, or why there is none.
pub open spec fn core_outcome(
    fs: Filesystem,
    ino: u64,
    disk_core: Seq<u8>,
    at: Result<u64, Error>,
    head: Result<Head, Error>,
    order: ByteOrder,
) -> Result<CheckpointView, Error> {
    if !fs.writable {
        Err(Error::ReadOnly)
    } else {
        match logged_core(disk_core, order) {
            Err(why) => Err(Error::UnsupportedFeature(Unsupported::CoreNotLoggable { ino, why })),
            Ok(core) => match at {
                Err(e) => Err(e),
                Ok(at) => if fs.checkpoint_written {
                    Err(Error::UnsupportedFeature(Unsupported::SecondCheckpoint))
                } else {
                    match head {
                        Err(e) => Err(e),
                        Ok(head) => core_checkpoint(fs.sb, head, ino, at, core, order),
                    }
                },
            },
        }
    }
}

/// Whether logging a core did what it should: the checkpoint to write, with
/// the mount's one checkpoint spent on it, or a refusal that leaves the
/// mount as it was.
pub open spec fn core_logged(
    before: Filesystem,
    after: Filesystem,
    ino: u64,
    disk_core: Seq<u8>,
    at: Result<u64, Error>,
    head: Result<Head, Error>,
    order: ByteOrder,
    r: Result<Checkpoint, Error>,
) -> bool {
    let outcome = core_outcome(before, ino, disk_core, at, head, order);
    match r {
        Err(e) => {
            &&& outcome == Err::<CheckpointView, Error>(e)
            &&& after == before
        },
        Ok(c) => {
            &&& outcome == Ok::<CheckpointView, Error>(c@)
            &&& after == (Filesystem { checkpoint_written: true, ..before })
        },
    }
}

impl Filesystem {
    /// The core of `ino` as a log of this byte order stores it, if this
    /// mount may log it.
    fn loggable(&self, ino: u64, disk_core: &[u8], order: ByteOrder) -> (r: Result<Vec<u8>, Error>)
        ensures
            match r {
                Ok(core) => self.writable && logged_core(disk_core@, order) == Ok::<
                    Seq<u8>,
                    &'static str,
                >(core@),
                Err(e) => {
                    &&& !asks_offset(*self, disk_core@, order)
                    &&& forall|at: Result<u64, Error>, head: Result<Head, Error>| #[trigger]
                        core_outcome(*self, ino, disk_core@, at, head, order) == Err::<
                            CheckpointView,
                            Error,
                        >(e)
                },
            },
    {
        if !self.writable {
            return Err(Error::ReadOnly);
        }
        match log_dinode_in(disk_core, order) {
            Ok(core) => Ok(core),
            Err(why) => Err(
                Error::UnsupportedFeature(Unsupported::CoreNotLoggable { ino, why }),
            ),
        }
    }

    /// Prepare the checkpoint that logs a core, and claim this mount's one
    /// checkpoint for it.
    ///
    /// A journalled operation touches nothing but the log, so a second one
    /// would be built from a disk that does not reflect the first. The
    /// budget is for checkpoints that are written, so it is claimed only
    /// once this one is accepted: a refusal must not spend it.
    fn commit_core(&mut self, ino: u64, at: u64, head: &Head, core: Vec<u8>, order: ByteOrder) -> (r:
        Result<Checkpoint, Error>)
        requires
            can_append(old(self).sb, *head),
        ensures
            match r {
                Ok(c) => {
                    &&& core_checkpoint(old(self).sb, *head, ino, at, core@, order) == Ok::<
                        CheckpointView,
                        Error,
                    >(c@)
                    &&& *final(self) == (Filesystem { checkpoint_written: true, ..*old(self) })
                },
                Err(e) => {
                    &&& core_checkpoint(old(self).sb, *head, ino, at, core@, order) == Err::<
                        CheckpointView,
                        Error,
                    >(e)
                    &&& *final(self) == *old(self)
                },
            },
    {
        let buffer = InodeBuffer::containing(at, self.sb.inode_cluster_bytes());
        let tid = transaction_id(head);
        let change = CoreChange { ino, buffer, core };
        let ops = change.operations(tid);
        proof {
            lemma_payload_of_values(tid, ops@);
            assert(op_values(ops@).len() == 5);
        }
        match append_at_in(&self.sb, head, tid, &ops, order) {
            Ok(checkpoint) => {
                self.checkpoint_written = true;
                Ok(checkpoint)
            },
            Err(e) => Err(e),
        }
    }

    /// Log a new core for `ino`, as a machine of this byte order does.
    /// `at` is the inode's device offset and `head` the end of the log, or
    /// why there is none.
    pub fn log_inode_core_in(
        &mut self,
        ino: u64,
        disk_core: &[u8],
        at: Result<u64, Error>,
        head: Result<Head, Error>,
        order: ByteOrder,
    ) -> (r: Result<Checkpoint, Error>)
        requires
            old(self).sb.valid(),
            head matches Ok(head) ==> can_append(old(self).sb, head),
        ensures
            core_logged(*old(self), *final(self), ino, disk_core@, at, head, order, r),
    {
        let core = match self.loggable(ino, disk_core, order) {
            Ok(core) => core,
            Err(e) => {
                return Err(e);
            },
        };
        let offset: u64 = match at {
            Ok(offset) => offset,
            Err(e) => {
                return Err(e);
            },
        };
        if self.checkpoint_written {
            return Err(Error::UnsupportedFeature(Unsupported::SecondCheckpoint));
        }
        match head {
            Ok(head) => self.commit_core(ino, offset, &head, core, order),
            Err(e) => Err(e),
        }
    }

    /// Log a new core for `ino` without writing it to the inode itself.
    ///
    /// `disk_core` is the core in its on-disk form. `inode_offset` locates
    /// an inode on the device and `find_head` the end of the log; each is
    /// asked only once nothing before it refuses. What comes back is to be
    /// written. The inode on disk is left alone: the record is the durable
    /// statement of the change, and whatever mounts the filesystem next
    /// applies it.
    pub fn log_inode_core<O, H>(
        &mut self,
        ino: u64,
        disk_core: &[u8],
        inode_offset: O,
        find_head: H,
    ) -> (r: Result<Checkpoint, Error>) where
        O: FnOnce(u64) -> Result<u64, Error>,
        H: FnOnce() -> Result<Head, Error>,

        requires
            old(self).sb.valid(),
            call_requires(inode_offset, (ino,)),
            call_requires(find_head, ()),
            forall|head: Head| #[trigger]
                call_ensures(find_head, (), Ok::<Head, Error>(head)) ==> can_append(
                    old(self).sb,
                    head,
                ),
        ensures
            exists|at: Result<u64, Error>, head: Result<Head, Error>|
                {
                    &&& #[trigger] core_logged(
                        *old(self),
                        *final(self),
                        ino,
                        disk_core@,
                        at,
                        head,
                        ByteOrder::of_machine(),
                        r,
                    )
                    &&& asks_offset(*old(self), disk_core@, ByteOrder::of_machine()) ==> call_ensures(
                        inode_offset,
                        (ino,),
                        at,
                    )
                    &&& asks_head(*old(self), disk_core@, at, ByteOrder::of_machine()) ==> call_ensures(
                        find_head,
                        (),
                        head,
                    )
                },
    {
        let order = ByteOrder::native();
        let ghost before = *self;
        let ghost nothing: Result<Head, Error> = Err(Error::ReadOnly);
        let core = match self.loggable(ino, disk_core, order) {
            Ok(core) => core,
            Err(e) => {
                assert(core_logged(
                    before,
                    *self,
                    ino,
                    disk_core@,
                    Err(Error::ReadOnly),
                    nothing,
                    order,
                    Err(e),
                ));
                return Err(e);
            },
        };
        let at = inode_offset(ino);
        let ghost found = at;
        let offset: u64 = match at {
            Ok(offset) => offset,
            Err(e) => {
                assert(core_logged(
                    before,
                    *self,
                    ino,
                    disk_core@,
                    found,
                    nothing,
                    order,
                    Err(e),
                ));
                return Err(e);
            },
        };
        if self.checkpoint_written {
            let ghost e = Error::UnsupportedFeature(Unsupported::SecondCheckpoint);
            assert(core_logged(
                before,
                *self,
                ino,
                disk_core@,
                found,
                nothing,
                order,
                Err(e),
            ));
            return Err(Error::UnsupportedFeature(Unsupported::SecondCheckpoint));
        }
        let end = find_head();
        let ghost head = end;
        let r = match end {
            Ok(head) => self.commit_core(ino, offset, &head, core, order),
            Err(e) => Err(e),
        };
        assert(core_logged(before, *self, ino, disk_core@, found, head, order, r));
        r
    }
}

} // verus!
