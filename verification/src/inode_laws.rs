//! What the two forms of an inode core say of each other, field by field.

use vstd::prelude::*;
use crate::dinode::{
    common_fields, count_fields, covers, disk_core, has_no_order, law_fields_are_laid_out,
    lemma_mirrored_elsewhere, lemma_mirrored_in_field, logged_core, reordered, table_for,
    time_fields, v2_fields, v3_fields,
};
use crate::endian::{be16_at, be32_at, be64_at, le16_at, le32_at, le64_at};
use crate::log::ByteOrder;

verus! {

/// The 16-bit field at `at`, in a byte order.
#[verifier::opaque]
pub open spec fn field16(b: Seq<u8>, at: int, order: ByteOrder) -> u16 {
    match order {
        ByteOrder::Little => le16_at(b, at),
        ByteOrder::Big => be16_at(b, at),
    }
}

/// The 32-bit field at `at`, in a byte order.
#[verifier::opaque]
pub open spec fn field32(b: Seq<u8>, at: int, order: ByteOrder) -> u32 {
    match order {
        ByteOrder::Little => le32_at(b, at),
        ByteOrder::Big => be32_at(b, at),
    }
}

/// The 64-bit field at `at`, in a byte order.
#[verifier::opaque]
pub open spec fn field64(b: Seq<u8>, at: int, order: ByteOrder) -> u64 {
    match order {
        ByteOrder::Little => le64_at(b, at),
        ByteOrder::Big => be64_at(b, at),
    }
}

/// Whether two inode cores, each in its own byte order, agree on the fields
/// that every inode has below offset 96 and no feature moves: the magic,
/// the mode, an unused word, the owner and the group, the link count, the
/// two halves of the project id, the size, the block count, the extent size
/// hint, the two words of data migration, the flags and the generation; and
/// on the version, the format, the fork offset and the attribute format,
/// which are a byte each.
pub open spec fn same_common_fields(
    a: Seq<u8>,
    in_a: ByteOrder,
    b: Seq<u8>,
    in_b: ByteOrder,
) -> bool {
    &&& field16(a, 0, in_a) == field16(b, 0, in_b)
    &&& field16(a, 2, in_a) == field16(b, 2, in_b)
    &&& a[4] == b[4]
    &&& a[5] == b[5]
    &&& field16(a, 6, in_a) == field16(b, 6, in_b)
    &&& field32(a, 8, in_a) == field32(b, 8, in_b)
    &&& field32(a, 12, in_a) == field32(b, 12, in_b)
    &&& field32(a, 16, in_a) == field32(b, 16, in_b)
    &&& field16(a, 20, in_a) == field16(b, 20, in_b)
    &&& field16(a, 22, in_a) == field16(b, 22, in_b)
    &&& field64(a, 56, in_a) == field64(b, 56, in_b)
    &&& field64(a, 64, in_a) == field64(b, 64, in_b)
    &&& field32(a, 72, in_a) == field32(b, 72, in_b)
    &&& a[82] == b[82]
    &&& a[83] == b[83]
    &&& field32(a, 84, in_a) == field32(b, 84, in_b)
    &&& field16(a, 88, in_a) == field16(b, 88, in_b)
    &&& field16(a, 90, in_a) == field16(b, 90, in_b)
    &&& field32(a, 92, in_a) == field32(b, 92, in_b)
}

/// Whether two cores agree on the timestamp at `at`, which is a count of 64
/// bits or two halves of 32.
pub open spec fn same_timestamp(
    a: Seq<u8>,
    in_a: ByteOrder,
    b: Seq<u8>,
    in_b: ByteOrder,
    bigtime: bool,
    at: int,
) -> bool {
    if bigtime {
        field64(a, at, in_a) == field64(b, at, in_b)
    } else {
        &&& field32(a, at, in_a) == field32(b, at, in_b)
        &&& field32(a, at + 4, in_a) == field32(b, at + 4, in_b)
    }
}

/// Whether two cores agree on the extent counters and the padding beside
/// them: a 64-bit counter at 24 and a 32-bit one at 76 if they are wide, and
/// otherwise a 32-bit one at 76 and a 16-bit one at 80.
pub open spec fn same_counters(
    a: Seq<u8>,
    in_a: ByteOrder,
    b: Seq<u8>,
    in_b: ByteOrder,
    nrext64: bool,
) -> bool {
    &&& field32(a, 76, in_a) == field32(b, 76, in_b)
    &&& if nrext64 {
        &&& field64(a, 24, in_a) == field64(b, 24, in_b)
        &&& a[80] == b[80] && a[81] == b[81]
    } else {
        &&& field16(a, 80, in_a) == field16(b, 80, in_b)
        &&& forall|i: int| 24 <= i < 32 ==> #[trigger] a[i] == b[i]
    }
}

/// Whether two cores agree on the fields that only a version-3 inode has
/// and no feature moves, but for the checksum: the next unlinked inode, the
/// change count, the sequence number, the second flag word, the copy on
/// write hint, the inode's own number, the padding and the UUID.
pub open spec fn same_v3_fields(a: Seq<u8>, in_a: ByteOrder, b: Seq<u8>, in_b: ByteOrder) -> bool {
    &&& field32(a, 96, in_a) == field32(b, 96, in_b)
    &&& field64(a, 104, in_a) == field64(b, 104, in_b)
    &&& field64(a, 112, in_a) == field64(b, 112, in_b)
    &&& field64(a, 120, in_a) == field64(b, 120, in_b)
    &&& field32(a, 128, in_a) == field32(b, 128, in_b)
    &&& field64(a, 152, in_a) == field64(b, 152, in_b)
    &&& forall|i: int| 132 <= i < 144 ==> #[trigger] a[i] == b[i]
    &&& forall|i: int| 160 <= i < 176 ==> #[trigger] a[i] == b[i]
}

/// Whether the bytes of a field stand in `out` as they do in `b`, or the
/// other way round if the order is little-endian.
spec fn field_moved(b: Seq<u8>, out: Seq<u8>, order: ByteOrder, f: (usize, usize)) -> bool {
    forall|j: int|
        0 <= j < f.1 ==> #[trigger] out[f.0 + j] == match order {
            ByteOrder::Little => b[f.0 + f.1 - 1 - j],
            ByteOrder::Big => b[f.0 + j],
        }
}

/// Every listed field of a core is moved as a whole, and what has no order
/// stays.
proof fn lemma_fields_moved(b: Seq<u8>, order: ByteOrder, version: u8, flags2: u64)
    requires
        version == 1 || version == 2 || version == 3,
        version < 3 ==> b.len() == 96,
        version == 3 ==> b.len() == 176,
    ensures
        ({
            let table = table_for(version, flags2);
            let out = reordered(b, order, table);
            &&& out.len() == b.len()
            &&& forall|k: int|
                0 <= k < table.len() ==> field_moved(b, out, order, #[trigger] table[k])
            &&& forall|i: int|
                0 <= i < b.len() && has_no_order(version, flags2 & 0x10 != 0, i)
                    ==> #[trigger] out[i] == b[i]
        }),
{
    let table = table_for(version, flags2);
    let out = reordered(b, order, table);
    law_fields_are_laid_out(version, flags2 & 0x08 != 0, flags2 & 0x10 != 0);
    assert forall|k: int| 0 <= k < table.len() implies field_moved(
        b,
        out,
        order,
        #[trigger] table[k],
    ) by {
        let f = table[k];
        assert forall|j: int| 0 <= j < f.1 implies #[trigger] out[f.0 + j] == match order {
            ByteOrder::Little => b[f.0 + f.1 - 1 - j],
            ByteOrder::Big => b[f.0 + j],
        } by {
            if order == ByteOrder::Little {
                lemma_mirrored_in_field(table, k, f.0 + j);
            }
        }
    }
    assert forall|i: int|
        0 <= i < b.len() && has_no_order(version, flags2 & 0x10 != 0, i) implies #[trigger] out[i]
        == b[i] by {
        assert forall|k: int| 0 <= k < table.len() implies !((#[trigger] table[k]).0 <= i
            < table[k].0 + table[k].1) by {
            if covers(table[k], i) {
                assert(!has_no_order(version, flags2 & 0x10 != 0, i));
            }
        }
        lemma_mirrored_elsewhere(table, i);
    }
}

/// A field that was moved as a whole reads the same, whichever of the two
/// is the big-endian one.
proof fn lemma_moved_reads_alike(b: Seq<u8>, out: Seq<u8>, order: ByteOrder, f: (usize, usize))
    requires
        field_moved(b, out, order, f),
        f.1 == 2 || f.1 == 4 || f.1 == 8,
    ensures
        alike(b, out, order, f.0 as int, f.1 as int),
{
    reveal(field16);
    reveal(field32);
    reveal(field64);
    let at = f.0 as int;
    if f.1 == 2 {
        assert(out[at + 0] == if order == ByteOrder::Little { b[at + 1] } else { b[at] });
        assert(out[at + 1] == if order == ByteOrder::Little { b[at] } else { b[at + 1] });
    } else {
        assert(out[at + 0] == if order == ByteOrder::Little { b[at + f.1 - 1] } else { b[at] });
        assert(out[at + 1] == if order == ByteOrder::Little { b[at + f.1 - 2] } else { b[at + 1] });
        assert(out[at + 2] == if order == ByteOrder::Little { b[at + f.1 - 3] } else { b[at + 2] });
        assert(out[at + 3] == if order == ByteOrder::Little { b[at + f.1 - 4] } else { b[at + 3] });
        if f.1 == 8 {
            assert(out[at + 4] == if order == ByteOrder::Little { b[at + 3] } else { b[at + 4] });
            assert(out[at + 5] == if order == ByteOrder::Little { b[at + 2] } else { b[at + 5] });
            assert(out[at + 6] == if order == ByteOrder::Little { b[at + 1] } else { b[at + 6] });
            assert(out[at + 7] == if order == ByteOrder::Little { b[at] } else { b[at + 7] });
        }
    }
}

/// Two buffers that agree from one place to another agree on the fields in
/// between.
proof fn lemma_same_fields(a: Seq<u8>, b: Seq<u8>, order: ByteOrder, from: int, to: int)
    requires
        forall|i: int| from <= i < to ==> #[trigger] a[i] == b[i],
    ensures
        forall|at: int|
            #![trigger field16(a, at, order)]
            #![trigger field16(b, at, order)]
            from <= at && at + 2 <= to ==> field16(a, at, order) == field16(b, at, order),
        forall|at: int|
            #![trigger field32(a, at, order)]
            #![trigger field32(b, at, order)]
            from <= at && at + 4 <= to ==> field32(a, at, order) == field32(b, at, order),
        forall|at: int|
            #![trigger field64(a, at, order)]
            #![trigger field64(b, at, order)]
            from <= at && at + 8 <= to ==> field64(a, at, order) == field64(b, at, order),
{
    reveal(field16);
    reveal(field32);
    reveal(field64);
}

/// Whether a field reads the same before and after, whichever of the two is
/// the big-endian one.
spec fn alike(b: Seq<u8>, out: Seq<u8>, order: ByteOrder, at: int, width: int) -> bool {
    if width == 2 {
        &&& field16(out, at, order) == field16(b, at, ByteOrder::Big)
        &&& field16(out, at, ByteOrder::Big) == field16(b, at, order)
    } else if width == 4 {
        &&& field32(out, at, order) == field32(b, at, ByteOrder::Big)
        &&& field32(out, at, ByteOrder::Big) == field32(b, at, order)
    } else {
        &&& field64(out, at, order) == field64(b, at, ByteOrder::Big)
        &&& field64(out, at, ByteOrder::Big) == field64(b, at, order)
    }
}

/// The fields of a list that is part of the table, from place `from` on,
/// read alike.
proof fn lemma_list_reads_alike(
    b: Seq<u8>,
    out: Seq<u8>,
    order: ByteOrder,
    table: Seq<(usize, usize)>,
    list: Seq<(usize, usize)>,
    from: int,
)
    requires
        0 <= from,
        from + list.len() <= table.len(),
        forall|k: int| 0 <= k < list.len() ==> table[from + k] == #[trigger] list[k],
        forall|k: int|
            0 <= k < list.len() ==> (#[trigger] list[k]).1 == 2 || list[k].1 == 4 || list[k].1 == 8,
        forall|k: int| 0 <= k < table.len() ==> field_moved(b, out, order, #[trigger] table[k]),
    ensures
        forall|k: int|
            0 <= k < list.len() ==> alike(
                b,
                out,
                order,
                (#[trigger] list[k]).0 as int,
                list[k].1 as int,
            ),
{
    assert forall|k: int| 0 <= k < list.len() implies alike(
        b,
        out,
        order,
        (#[trigger] list[k]).0 as int,
        list[k].1 as int,
    ) by {
        assert(field_moved(b, out, order, table[from + k]));
        lemma_moved_reads_alike(b, out, order, list[k]);
    }
}

/// Reordering a core keeps the fields that every inode has.
#[verifier::rlimit(40)]
proof fn lemma_common_kept(b: Seq<u8>, order: ByteOrder, version: u8, flags2: u64)
    requires
        version == 1 || version == 2 || version == 3,
        version < 3 ==> b.len() == 96,
        version == 3 ==> b.len() == 176,
    ensures
        ({
            let out = reordered(b, order, table_for(version, flags2));
            &&& same_common_fields(out, order, b, ByteOrder::Big)
            &&& same_common_fields(out, ByteOrder::Big, b, order)
        }),
{
    lemma_fields_moved(b, order, version, flags2);
    let table = table_for(version, flags2);
    let out = reordered(b, order, table);
    let list = common_fields();
    lemma_list_reads_alike(b, out, order, table, list, 0);
    assert(alike(b, out, order, list[0].0 as int, list[0].1 as int));
    assert(alike(b, out, order, list[1].0 as int, list[1].1 as int));
    assert(alike(b, out, order, list[2].0 as int, list[2].1 as int));
    assert(alike(b, out, order, list[3].0 as int, list[3].1 as int));
    assert(alike(b, out, order, list[4].0 as int, list[4].1 as int));
    assert(alike(b, out, order, list[5].0 as int, list[5].1 as int));
    assert(alike(b, out, order, list[6].0 as int, list[6].1 as int));
    assert(alike(b, out, order, list[7].0 as int, list[7].1 as int));
    assert(alike(b, out, order, list[8].0 as int, list[8].1 as int));
    assert(alike(b, out, order, list[9].0 as int, list[9].1 as int));
    assert(alike(b, out, order, list[10].0 as int, list[10].1 as int));
    assert(alike(b, out, order, list[11].0 as int, list[11].1 as int));
    assert(alike(b, out, order, list[12].0 as int, list[12].1 as int));
    assert(alike(b, out, order, list[13].0 as int, list[13].1 as int));
    assert(alike(b, out, order, list[14].0 as int, list[14].1 as int));
    assert(out[4] == b[4] && out[5] == b[5] && out[82] == b[82] && out[83] == b[83]);
}

/// Reordering a version-3 core keeps the fields that only it has.
#[verifier::rlimit(40)]
proof fn lemma_v3_kept(b: Seq<u8>, order: ByteOrder, flags2: u64)
    requires
        b.len() == 176,
    ensures
        ({
            let out = reordered(b, order, table_for(3, flags2));
            &&& same_v3_fields(out, order, b, ByteOrder::Big)
            &&& same_v3_fields(out, ByteOrder::Big, b, order)
        }),
{
    lemma_fields_moved(b, order, 3, flags2);
    let table = table_for(3, flags2);
    let out = reordered(b, order, table);
    let list = v3_fields();
    lemma_list_reads_alike(b, out, order, table, list, 15);
    assert(alike(b, out, order, list[0].0 as int, list[0].1 as int));
    assert(alike(b, out, order, list[1].0 as int, list[1].1 as int));
    assert(alike(b, out, order, list[2].0 as int, list[2].1 as int));
    assert(alike(b, out, order, list[3].0 as int, list[3].1 as int));
    assert(alike(b, out, order, list[4].0 as int, list[4].1 as int));
    assert(alike(b, out, order, list[5].0 as int, list[5].1 as int));
}

/// Reordering a version-3 core keeps its timestamps and its counters.
#[verifier::rlimit(40)]
proof fn lemma_moving_kept(b: Seq<u8>, order: ByteOrder, flags2: u64)
    requires
        b.len() == 176,
    ensures
        ({
            let out = reordered(b, order, table_for(3, flags2));
            let bigtime = flags2 & 0x08 != 0;
            let nrext64 = flags2 & 0x10 != 0;
            &&& same_timestamp(out, order, b, ByteOrder::Big, bigtime, 32)
            &&& same_timestamp(out, order, b, ByteOrder::Big, bigtime, 40)
            &&& same_timestamp(out, order, b, ByteOrder::Big, bigtime, 48)
            &&& same_timestamp(out, order, b, ByteOrder::Big, bigtime, 144)
            &&& same_timestamp(out, ByteOrder::Big, b, order, bigtime, 32)
            &&& same_timestamp(out, ByteOrder::Big, b, order, bigtime, 40)
            &&& same_timestamp(out, ByteOrder::Big, b, order, bigtime, 48)
            &&& same_timestamp(out, ByteOrder::Big, b, order, bigtime, 144)
            &&& same_counters(out, order, b, ByteOrder::Big, nrext64)
            &&& same_counters(out, ByteOrder::Big, b, order, nrext64)
        }),
{
    lemma_fields_moved(b, order, 3, flags2);
    let bigtime = flags2 & 0x08 != 0;
    let nrext64 = flags2 & 0x10 != 0;
    let table = table_for(3, flags2);
    let out = reordered(b, order, table);
    let times = time_fields(bigtime);
    let counts = count_fields(nrext64);
    lemma_list_reads_alike(b, out, order, table, times, 21);
    lemma_list_reads_alike(b, out, order, table, counts, (21 + times.len()) as int);
    assert(alike(b, out, order, times[0].0 as int, times[0].1 as int));
    assert(alike(b, out, order, times[1].0 as int, times[1].1 as int));
    assert(alike(b, out, order, times[2].0 as int, times[2].1 as int));
    assert(alike(b, out, order, times[3].0 as int, times[3].1 as int));
    if !bigtime {
        assert(alike(b, out, order, times[4].0 as int, times[4].1 as int));
        assert(alike(b, out, order, times[5].0 as int, times[5].1 as int));
        assert(alike(b, out, order, times[6].0 as int, times[6].1 as int));
        assert(alike(b, out, order, times[7].0 as int, times[7].1 as int));
    }
    assert(alike(b, out, order, counts[0].0 as int, counts[0].1 as int));
    assert(alike(b, out, order, counts[1].0 as int, counts[1].1 as int));
}

/// Reordering an older core keeps its timestamps and its counters.
#[verifier::rlimit(40)]
proof fn lemma_old_kept(b: Seq<u8>, order: ByteOrder, version: u8)
    requires
        version == 1 || version == 2,
        b.len() == 96,
    ensures
        ({
            let out = reordered(b, order, table_for(version, 0));
            &&& same_timestamp(out, order, b, ByteOrder::Big, false, 32)
            &&& same_timestamp(out, order, b, ByteOrder::Big, false, 40)
            &&& same_timestamp(out, order, b, ByteOrder::Big, false, 48)
            &&& same_timestamp(out, ByteOrder::Big, b, order, false, 32)
            &&& same_timestamp(out, ByteOrder::Big, b, order, false, 40)
            &&& same_timestamp(out, ByteOrder::Big, b, order, false, 48)
            &&& same_counters(out, order, b, ByteOrder::Big, false)
            &&& same_counters(out, ByteOrder::Big, b, order, false)
        }),
{
    lemma_fields_moved(b, order, version, 0);
    let table = table_for(version, 0);
    let out = reordered(b, order, table);
    let list = v2_fields();
    lemma_list_reads_alike(b, out, order, table, list, 15);
    assert(alike(b, out, order, list[0].0 as int, list[0].1 as int));
    assert(alike(b, out, order, list[1].0 as int, list[1].1 as int));
    assert(alike(b, out, order, list[2].0 as int, list[2].1 as int));
    assert(alike(b, out, order, list[3].0 as int, list[3].1 as int));
    assert(alike(b, out, order, list[4].0 as int, list[4].1 as int));
    assert(alike(b, out, order, list[5].0 as int, list[5].1 as int));
    assert(alike(b, out, order, list[6].0 as int, list[6].1 as int));
    assert(alike(b, out, order, list[7].0 as int, list[7].1 as int));
}

/// Whether two cores of the same inode, each in its own byte order, say the
/// same, but for the checksum.
pub open spec fn same_core(a: Seq<u8>, in_a: ByteOrder, b: Seq<u8>, in_b: ByteOrder) -> bool {
    &&& same_common_fields(a, in_a, b, in_b)
    &&& if a[4] == 3 {
        let bigtime = field64(a, 120, in_a) & 0x08 != 0;
        let nrext64 = field64(a, 120, in_a) & 0x10 != 0;
        &&& same_v3_fields(a, in_a, b, in_b)
        &&& same_timestamp(a, in_a, b, in_b, bigtime, 32)
        &&& same_timestamp(a, in_a, b, in_b, bigtime, 40)
        &&& same_timestamp(a, in_a, b, in_b, bigtime, 48)
        &&& same_timestamp(a, in_a, b, in_b, bigtime, 144)
        &&& same_counters(a, in_a, b, in_b, nrext64)
    } else {
        &&& same_timestamp(a, in_a, b, in_b, false, 32)
        &&& same_timestamp(a, in_a, b, in_b, false, 40)
        &&& same_timestamp(a, in_a, b, in_b, false, 48)
        &&& same_counters(a, in_a, b, in_b, false)
    }
}

/// Cores that agree byte by byte, but for the checksum, say the same of
/// others that do.
#[verifier::rlimit(40)]
proof fn lemma_same_bytes_same_core(
    a: Seq<u8>,
    b: Seq<u8>,
    in_a: ByteOrder,
    c: Seq<u8>,
    d: Seq<u8>,
    in_c: ByteOrder,
)
    requires
        same_core(a, in_a, c, in_c),
        forall|i: int| #![trigger a[i]] #![trigger b[i]] 0 <= i < 96 ==> a[i] == b[i],
        forall|i: int| #![trigger c[i]] #![trigger d[i]] 0 <= i < 96 ==> c[i] == d[i],
        a[4] == 3 ==> {
            &&& forall|i: int| #![trigger a[i]] #![trigger b[i]] 96 <= i < 100 ==> a[i] == b[i]
            &&& forall|i: int| #![trigger a[i]] #![trigger b[i]] 104 <= i < 176 ==> a[i] == b[i]
            &&& forall|i: int| #![trigger c[i]] #![trigger d[i]] 96 <= i < 100 ==> c[i] == d[i]
            &&& forall|i: int| #![trigger c[i]] #![trigger d[i]] 104 <= i < 176 ==> c[i] == d[i]
        },
    ensures
        same_core(b, in_a, d, in_c),
{
    lemma_same_fields(a, b, in_a, 0, 96);
    lemma_same_fields(c, d, in_c, 0, 96);
    assert(a[4] == b[4]);
    assert(c[4] == d[4] && c[5] == d[5] && c[82] == d[82] && c[83] == d[83] && c[80] == d[80]
        && c[81] == d[81]);
    assert(a[5] == b[5] && a[82] == b[82] && a[83] == b[83] && a[80] == b[80] && a[81] == b[81]);
    assert(same_common_fields(b, in_a, d, in_c));
    if a[4] == 3 {
        lemma_same_fields(a, b, in_a, 96, 100);
        lemma_same_fields(c, d, in_c, 96, 100);
        lemma_same_fields(a, b, in_a, 104, 176);
        lemma_same_fields(c, d, in_c, 104, 176);
        assert(same_v3_fields(b, in_a, d, in_c));
    }
}

/// Reordering a core of any version keeps what it says, in both directions.
#[verifier::rlimit(40)]
proof fn lemma_core_kept(b: Seq<u8>, order: ByteOrder, version: u8, flags2: u64)
    requires
        version == b[4],
        version == 1 || version == 2 || version == 3,
        version < 3 ==> b.len() == 96 && flags2 == 0,
        version == 3 ==> b.len() == 176,
    ensures
        ({
            let out = reordered(b, order, table_for(version, flags2));
            &&& out.len() == b.len()
            &&& (version == 3 ==> field64(b, 120, ByteOrder::Big) == flags2) ==> same_core(
                out,
                order,
                b,
                ByteOrder::Big,
            )
            &&& (version == 3 ==> field64(b, 120, order) == flags2) ==> same_core(
                out,
                ByteOrder::Big,
                b,
                order,
            )
            &&& version == 3 ==> forall|i: int| 100 <= i < 104 ==> #[trigger] out[i] == b[i]
        }),
{
    lemma_common_kept(b, order, version, flags2);
    lemma_fields_moved(b, order, version, flags2);
    if version == 3 {
        lemma_v3_kept(b, order, flags2);
        lemma_moving_kept(b, order, flags2);
    } else {
        lemma_old_kept(b, order, version);
    }
}

/// A logged core says what the inode says, field by field, read in the
/// log's order on the one side and big-endian on the other, whatever
/// features move its fields. It is as long as its version says, and its
/// checksum is blank.
#[verifier::rlimit(40)]
pub proof fn law_logged_core_says_what_the_inode_says(raw: Seq<u8>, order: ByteOrder)
    ensures
        logged_core(raw, order) matches Ok(log) ==> {
            &&& same_core(log, order, raw, ByteOrder::Big)
            &&& log.len() == if raw[4] == 3 { 176nat } else { 96 }
            &&& raw[4] == 3 ==> log[100] == 0 && log[101] == 0 && log[102] == 0 && log[103] == 0
        },
{
    if let Ok(log) = logged_core(raw, order) {
        let version = raw[4];
        let size = if version == 3 { 176int } else { 96 };
        let core = raw.subrange(0, size);
        let flags2 = if version == 3 { be64_at(raw, 120) } else { 0 };
        let out = reordered(core, order, table_for(version, flags2));
        lemma_core_kept(core, order, version, flags2);
        if version == 3 {
            assert(field64(core, 120, ByteOrder::Big) == flags2) by {
                reveal(field64);
            }
        }
        lemma_same_bytes_same_core(out, log, order, core, raw, ByteOrder::Big);
    }
}

/// A core turned back says what the logged one says, field by field.
#[verifier::rlimit(40)]
pub proof fn law_disk_core_says_what_the_log_says(log: Seq<u8>, order: ByteOrder)
    ensures
        disk_core(log, order) matches Ok(disk) ==> {
            &&& same_core(disk, ByteOrder::Big, log, order)
            &&& disk.len() == if log[4] == 3 { 176nat } else { 96 }
            &&& log[4] == 3 ==> forall|i: int| 100 <= i < 104 ==> #[trigger] disk[i] == log[i]
        },
{
    if let Ok(disk) = disk_core(log, order) {
        let version = log[4];
        let size = if version == 3 { 176int } else { 96 };
        let core = log.subrange(0, size);
        let flags2 = if version == 3 { field64(log, 120, order) } else { 0 };
        if version == 3 {
            assert(field64(core, 120, order) == flags2) by {
                reveal(field64);
            }
        }
        assert(disk == reordered(core, order, table_for(version, flags2))) by {
            reveal(field64);
        }
        lemma_core_kept(core, order, version, flags2);
        lemma_same_bytes_same_core(disk, disk, ByteOrder::Big, core, log, order);
    }
}

/// An inode has a logged form exactly if it is long enough for the core of
/// its version, and the version is one of the three there are; otherwise
/// the refusal says which it is. The same holds the other way round.
pub proof fn law_what_has_no_other_form(b: Seq<u8>, order: ByteOrder)
    ensures
        b.len() < 96 ==> {
            &&& logged_core(b, order) == Err::<Seq<u8>, &'static str>(
                "inode is shorter than a v2 core",
            )
            &&& disk_core(b, order) == Err::<Seq<u8>, &'static str>(
                "logged inode core is shorter than a v2 core",
            )
        },
        b.len() >= 96 && !(1 <= b[4] <= 3) ==> {
            &&& logged_core(b, order) == Err::<Seq<u8>, &'static str>("unrecognised inode version")
            &&& disk_core(b, order) == Err::<Seq<u8>, &'static str>("unrecognised inode version")
        },
        96 <= b.len() < 176 && b[4] == 3 ==> {
            &&& logged_core(b, order) == Err::<Seq<u8>, &'static str>(
                "inode is shorter than its version's core",
            )
            &&& disk_core(b, order) == Err::<Seq<u8>, &'static str>(
                "logged inode core is shorter than its version's core",
            )
        },
        b.len() >= 96 && (1 <= b[4] <= 2 || b[4] == 3 && b.len() >= 176) ==> {
            &&& logged_core(b, order) is Ok
            &&& disk_core(b, order) is Ok
        },
{
}

} // verus!
