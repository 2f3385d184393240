//! Where the log stands, and what its records look like from outside.

use vstd::endian::{endianness, Endian};
use vstd::prelude::*;
use crate::bytes::put;
use crate::checksum::{crc32c_of, crc32c_of_two, with_zeroed_crc};
use crate::format::log_items::{REC_CRC, XLOG_FMT_LINUX_BE, XLOG_FMT_LINUX_LE, XLOG_REC_HEADER_SIZE};

verus! {

/// The order in which a machine stores the bytes of an integer.
#[derive(Debug, Clone, Copy, PartialEq, Eq)]
pub enum ByteOrder {
    Little,
    Big,
}

/// Reads two bytes as this machine stores a `u16`, with
/// `u16::from_ne_bytes`. The first byte is taken as the low one on a
/// little-endian machine and as the high one on a big-endian machine;
/// nothing is claimed of which of the two this machine is.
#[verifier::external_body]
fn native_u16(bytes: [u8; 2]) -> (r: u16)
    ensures
        r == (match endianness() {
            Endian::Little => bytes@[0] + bytes@[1] * 0x100,
            Endian::Big => bytes@[0] * 0x100 + bytes@[1],
        }),
{
    u16::from_ne_bytes(bytes)
}

impl ByteOrder {
    /// The order of the machine this runs on, whichever that is.
    pub open spec fn of_machine() -> ByteOrder {
        match endianness() {
            Endian::Little => ByteOrder::Little,
            Endian::Big => ByteOrder::Big,
        }
    }

    /// The order of the machine this runs on.
    pub fn native() -> (r: ByteOrder)
        ensures
            r == ByteOrder::of_machine(),
    {
        if native_u16([1, 0]) == 1 {
            ByteOrder::Little
        } else {
            ByteOrder::Big
        }
    }

    /// The format code that a record written in this order carries.
    pub open spec fn code(self) -> u32 {
        match self {
            ByteOrder::Little => XLOG_FMT_LINUX_LE,
            ByteOrder::Big => XLOG_FMT_LINUX_BE,
        }
    }

    /// The format code that a record written in this order carries, by
    /// which a reader on the other order can tell that it may not replay
    /// the record.
    pub fn format_code(self) -> (r: u32)
        ensures
            r == self.code(),
    {
        match self {
            ByteOrder::Little => XLOG_FMT_LINUX_LE,
            ByteOrder::Big => XLOG_FMT_LINUX_BE,
        }
    }
}

/// The end of the log: where the next record goes.
#[derive(Debug, Clone, Copy, PartialEq, Eq)]
pub struct Head {
    /// Basic block within the log at which the next record starts.
    pub block: u32,
    /// Cycle the next record belongs to.
    pub cycle: u32,
    /// Start block of the last record, or `u32::MAX` for none.
    pub prev_block: u32,
    /// Basic blocks left before the log wraps.
    pub free_blocks: u32,
    /// Size of the buffers that records are read into.
    pub iclog_size: u32,
}

/// A log sequence number: comparing two orders by cycle, then by block.
pub open spec fn lsn_of(cycle: u32, block: u32) -> u64 {
    (cycle * 0x1_0000_0000 + block) as u64
}

/// The log sequence number of `block` in `cycle`.
pub fn lsn(cycle: u32, block: u32) -> (r: u64)
    ensures
        r == lsn_of(cycle, block),
{
    cycle as u64 * 0x1_0000_0000 + block as u64
}

/// The checksum of a record: over the header structure, not the block it
/// sits in, with the checksum field taken to be zero, and then over the
/// stamped payload.
pub open spec fn record_checksum_of(header: Seq<u8>, data: Seq<u8>) -> u32 {
    crc32c_of(
        with_zeroed_crc(header.subrange(0, XLOG_REC_HEADER_SIZE as int), REC_CRC as int) + data,
    )
}

/// The checksum of a record with this header and this stamped payload.
pub fn record_checksum(header: &[u8], data: &[u8]) -> (r: u32)
    requires
        XLOG_REC_HEADER_SIZE <= header.len(),
    ensures
        r == record_checksum_of(header@, data@),
{
    let mut covered = vstd::slice::slice_to_vec(
        vstd::slice::slice_subrange(header, 0, XLOG_REC_HEADER_SIZE),
    );
    let zero = [0u8; 4];
    put(&mut covered, REC_CRC, &zero);
    assert(zero@ =~= crate::bytes::zeros(4));
    crc32c_of_two(&covered, data)
}

/// Sequence numbers order records around the ring: by cycle first, and
/// within a cycle by block.
pub proof fn law_sequence_numbers_order_records(c1: u32, b1: u32, c2: u32, b2: u32)
    ensures
        lsn_of(c1, b1) < lsn_of(c2, b2) <==> c1 < c2 || (c1 == c2 && b1 < b2),
        lsn_of(c1, b1) == lsn_of(c2, b2) <==> c1 == c2 && b1 == b2,
{
}

/// A sequence number is a cycle above and a block below.
pub proof fn law_sequence_number_is_cycle_and_block(cycle: u32, block: u32)
    ensures
        lsn_of(cycle, block) as int / 0x1_0000_0000 == cycle,
        lsn_of(cycle, block) as int % 0x1_0000_0000 == block,
{
}

/// A record says by which order of bytes it is to be read, and the two say
/// so differently; a machine writes in its own.
pub proof fn law_orders_are_told_apart(order: ByteOrder)
    ensures
        order.code() == 1 <==> order == ByteOrder::Little,
        order.code() == 2 <==> order == ByteOrder::Big,
        ByteOrder::of_machine() == ByteOrder::Little <==> endianness() == Endian::Little,
{
}

/// The checksum of a record is the CRC32C of the 328 bytes of its header
/// structure, with the four bytes at 32 taken to be zero, followed by all of
/// its data.
pub proof fn law_record_checksum_is_of_all_of_it(header: Seq<u8>, data: Seq<u8>)
    requires
        header.len() >= 328,
    ensures
        record_checksum_of(header, data) == crc32c_of(
            Seq::new(
                328 + data.len(),
                |i: int|
                    if 32 <= i < 36 {
                        0u8
                    } else if i < 328 {
                        header[i]
                    } else {
                        data[i - 328]
                    },
            ),
        ),
{
    let all = Seq::new(
        328 + data.len(),
        |i: int|
            if 32 <= i < 36 {
                0u8
            } else if i < 328 {
                header[i]
            } else {
                data[i - 328]
            },
    );
    assert(with_zeroed_crc(header.subrange(0, 328), 32) + data =~= all);
}

} // verus!
