//! Data fork extent records.

use vstd::prelude::*;
use crate::endian::{be64, be64_at};

verus! {

/// Bytes in a packed extent record.
pub const EXTENT_RECORD_SIZE: usize = 16;

/// One contiguous run of a file.
#[derive(Debug, Clone, Copy, PartialEq, Eq)]
pub struct Extent {
    /// First block of the run within the file.
    pub startoff: u64,
    /// First block of the run on the filesystem.
    pub startblock: u64,
    /// Blocks in the run.
    pub blockcount: u64,
    /// Whether the run is allocated but not yet written.
    pub unwritten: bool,
}

/// The 128-bit big-endian record at `off`: one flag bit, 54 bits of
/// `startoff`, 52 of `startblock` and 21 of `blockcount`, from the top.
pub open spec fn record_value(b: Seq<u8>, off: int) -> int {
    be64_at(b, off) * 0x1_0000_0000_0000_0000 + be64_at(b, off + 8)
}

/// The extent packed in the record at `off`.
pub open spec fn extent_at(b: Seq<u8>, off: int) -> Extent {
    let v = record_value(b, off);
    Extent {
        startoff: (v / 0x200_0000_0000_0000_0000 % 0x40_0000_0000_0000) as u64,
        startblock: (v / 0x20_0000 % 0x10_0000_0000_0000) as u64,
        blockcount: (v % 0x20_0000) as u64,
        unwritten: v / 0x8000_0000_0000_0000_0000_0000_0000_0000 == 1,
    }
}

/// The first `count` records of `b`.
pub open spec fn extents_at(b: Seq<u8>, count: nat) -> Seq<Extent> {
    Seq::new(count, |i: int| extent_at(b, i * 16))
}

/// Decode the extent record at `off`.
pub fn parse_record(b: &[u8], off: usize) -> (r: Extent)
    requires
        off + 16 <= b.len(),
    ensures
        r == extent_at(b@, off as int),
{
    let v: u128 = be64(b, off) as u128 * 0x1_0000_0000_0000_0000 + be64(b, off + 8) as u128;
    Extent {
        startoff: (v / 0x200_0000_0000_0000_0000 % 0x40_0000_0000_0000) as u64,
        startblock: (v / 0x20_0000 % 0x10_0000_0000_0000) as u64,
        blockcount: (v % 0x20_0000) as u64,
        unwritten: v / 0x8000_0000_0000_0000_0000_0000_0000_0000 == 1,
    }
}

/// Decode the first `count` extent records of `b`.
pub fn parse_list(b: &[u8], count: u16) -> (r: Vec<Extent>)
    requires
        count * 16 <= b.len(),
    ensures
        r@ == extents_at(b@, count as nat),
{
    let mut r: Vec<Extent> = Vec::new();
    let mut i: u16 = 0;
    while i < count
        invariant
            i <= count,
            count * 16 <= b.len(),
            r@ == extents_at(b@, i as nat),
        decreases count - i,
    {
        let e = parse_record(b, i as usize * EXTENT_RECORD_SIZE);
        r.push(e);
        i += 1;
        assert(r@ =~= extents_at(b@, i as nat));
    }
    r
}

/// An extent put back into a 128-bit number: the flag on top, then 54 bits
/// of the place in the file, 52 of the place on the filesystem, and 21 of
/// the length.
pub open spec fn packed(e: Extent) -> int {
    (if e.unwritten {
        0x8000_0000_0000_0000_0000_0000_0000_0000int
    } else {
        0
    }) + e.startoff * 0x200_0000_0000_0000_0000 + e.startblock * 0x20_0000 + e.blockcount
}

/// The number that 16 bytes are, the first one weighing most.
pub open spec fn big_endian_16(b: Seq<u8>) -> int {
    (be64_at(b, 0) * 0x1_0000_0000_0000_0000) + be64_at(b, 8)
}

/// Packing an extent again gives the record it came from, so no bit of the
/// record is lost or read twice, and every field keeps to its width.
#[verifier::rlimit(40)]
pub proof fn law_extent_packs_into_its_record(b: Seq<u8>, off: int)
    requires
        0 <= off,
        off + 16 <= b.len(),
    ensures
        ({
            let e = extent_at(b, off);
            &&& packed(e) == big_endian_16(b.subrange(off, off + 16))
            &&& e.startoff < 0x40_0000_0000_0000
            &&& e.startblock < 0x10_0000_0000_0000
            &&& e.blockcount < 0x20_0000
        }),
{
    let s = b.subrange(off, off + 16);
    lemma_same_bytes_same_field_at(b, off, s, 0);
    lemma_same_bytes_same_field_at(b, off + 8, s, 8);
    let v = record_value(b, off);
    assert(v == big_endian_16(s));
    assert(0 <= v < 0x1_0000_0000_0000_0000_0000_0000_0000_0000int);
    let e = extent_at(b, off);
    let high = v / 0x20_0000;
    let top = high / 0x10_0000_0000_0000;
    assert(v / 0x200_0000_0000_0000_0000 == top);
    assert(v / 0x8000_0000_0000_0000_0000_0000_0000_0000 == top / 0x40_0000_0000_0000);
    assert(top / 0x40_0000_0000_0000 == 0 || top / 0x40_0000_0000_0000 == 1);
}

/// A field is its bytes, wherever they stand.
proof fn lemma_same_bytes_same_field_at(a: Seq<u8>, i: int, b: Seq<u8>, j: int)
    requires
        0 <= i,
        i + 8 <= a.len(),
        0 <= j,
        j + 8 <= b.len(),
        forall|k: int| 0 <= k < 8 ==> #[trigger] a[i + k] == b[j + k],
    ensures
        be64_at(a, i) == be64_at(b, j),
{
    assert(a[i + 0] == b[j + 0] && a[i + 1] == b[j + 1] && a[i + 2] == b[j + 2] && a[i + 3] == b[j
        + 3]);
    assert(a[i + 4] == b[j + 4] && a[i + 5] == b[j + 5] && a[i + 6] == b[j + 6] && a[i + 7] == b[j
        + 7]);
}

/// A list of records yields one extent for each, in order: the `k`th is
/// what the `k`th 16 bytes are, and packs back into them. So extents of
/// records that ascend in the file ascend as well.
#[verifier::rlimit(40)]
pub proof fn law_list_yields_every_record_in_order(b: Seq<u8>, count: nat, k: int)
    requires
        count * 16 <= b.len(),
        0 <= k < count,
    ensures
        extents_at(b, count).len() == count,
        packed(extents_at(b, count)[k]) == big_endian_16(b.subrange(16 * k, 16 * k + 16)),
        extents_at(b, count)[k].startoff < 0x40_0000_0000_0000,
        extents_at(b, count)[k].startblock < 0x10_0000_0000_0000,
        extents_at(b, count)[k].blockcount < 0x20_0000,
        forall|j: int|
            0 <= j < k && big_endian_16(b.subrange(16 * j, 16 * j + 16)) % 0x8000_0000_0000_0000_0000_0000_0000_0000int
                / 0x200_0000_0000_0000_0000 < big_endian_16(b.subrange(16 * k, 16 * k + 16))
                % 0x8000_0000_0000_0000_0000_0000_0000_0000int / 0x200_0000_0000_0000_0000
                ==> (#[trigger] extents_at(b, count)[j]).startoff < extents_at(b, count)[k].startoff,
{
    assert forall|j: int| 0 <= j < count implies packed(#[trigger] extents_at(b, count)[j])
        == big_endian_16(b.subrange(16 * j, 16 * j + 16)) && extents_at(b, count)[j].startoff
        < 0x40_0000_0000_0000 && extents_at(b, count)[j].startblock < 0x10_0000_0000_0000
        && extents_at(b, count)[j].blockcount < 0x20_0000 by {
        law_extent_packs_into_its_record(b, 16 * j);
        assert(extents_at(b, count)[j] == extent_at(b, j * 16));
    }
    assert forall|j: int| 0 <= j < count implies (#[trigger] extents_at(b, count)[j]).startoff
        == big_endian_16(b.subrange(16 * j, 16 * j + 16)) % 0x8000_0000_0000_0000_0000_0000_0000_0000int
        / 0x200_0000_0000_0000_0000 by {
        let e = extents_at(b, count)[j];
        assert(packed(e) == big_endian_16(b.subrange(16 * j, 16 * j + 16)));
        lemma_place_in_the_file(e);
    }
    assert(extents_at(b, count)[k].startoff < 0x40_0000_0000_0000);
}

/// The place in the file stands behind the flag.
proof fn lemma_place_in_the_file(e: Extent)
    requires
        e.startoff < 0x40_0000_0000_0000,
        e.startblock < 0x10_0000_0000_0000,
        e.blockcount < 0x20_0000,
    ensures
        packed(e) % 0x8000_0000_0000_0000_0000_0000_0000_0000int / 0x200_0000_0000_0000_0000
            == e.startoff,
{
    let low = e.startblock * 0x20_0000 + e.blockcount;
    assert(0 <= low < 0x200_0000_0000_0000_0000);
    let rest = e.startoff * 0x200_0000_0000_0000_0000 + low;
    assert(0 <= rest < 0x8000_0000_0000_0000_0000_0000_0000_0000int);
    assert(packed(e) % 0x8000_0000_0000_0000_0000_0000_0000_0000int == rest);
}

} // verus!
