//! The inode core, on disk and in the log.
//!
//! The two forms are the same structure at the same offsets. They differ in
//! two ways: the on-disk form is big-endian and the logged one is in the
//! order of the machine that wrote it, and the checksum is zero in the log.
//!
//! Two features move fields, and both are read from the inode itself:
//! `bigtime` stores a timestamp as one 64-bit count where there are two
//! 32-bit halves otherwise, and `nrext64` moves the extent counters.

use vstd::prelude::*;
use crate::bytes::{patched, put, zeros};
use crate::endian::{be64, be64_at, le64, le64_at};
use crate::format::log_items::{
    DI_CRC, DI_FLAGS2, DI_FLAGS2_BIGTIME, DI_FLAGS2_NREXT64, DI_VERSION, LOG_DINODE_SIZE,
    V2_LOG_DINODE_SIZE,
};
use crate::log::ByteOrder;

verus! {

/// The multi-byte fields below offset 96 that no feature moves, as
/// `(offset, width)`: magic, mode, an unused word, uid, gid, nlink, the two
/// halves of the project id, size, nblocks, extsize, dmevmask, dmstate,
/// flags and generation.
pub open spec fn common_fields() -> Seq<(usize, usize)> {
    seq![
        (0, 2), (2, 2), (6, 2), (8, 4), (12, 4), (16, 4), (20, 2), (22, 2), (56, 8), (64, 8),
        (72, 4), (84, 4), (88, 2), (90, 2), (92, 4),
    ]
}

/// The fields that only a version-3 inode has and no feature moves: the
/// next unlinked inode, changecount, lsn, flags2, cowextsize and the
/// inode's own number.
pub open spec fn v3_fields() -> Seq<(usize, usize)> {
    seq![(96, 4), (104, 8), (112, 8), (120, 8), (128, 4), (152, 8)]
}

/// The four timestamps of a version-3 inode.
pub open spec fn time_fields(bigtime: bool) -> Seq<(usize, usize)> {
    if bigtime {
        seq![(32, 8), (40, 8), (48, 8), (144, 8)]
    } else {
        seq![(32, 4), (36, 4), (40, 4), (44, 4), (48, 4), (52, 4), (144, 4), (148, 4)]
    }
}

/// The extent counters of a version-3 inode.
pub open spec fn count_fields(nrext64: bool) -> Seq<(usize, usize)> {
    if nrext64 {
        seq![(24, 8), (76, 4)]
    } else {
        seq![(76, 4), (80, 2)]
    }
}

/// The timestamps and extent counters of an older inode.
pub open spec fn v2_fields() -> Seq<(usize, usize)> {
    seq![(32, 4), (36, 4), (40, 4), (44, 4), (48, 4), (52, 4), (76, 4), (80, 2)]
}

/// Every multi-byte field of a core, as `(offset, width)`. What is not
/// listed is a single byte, padding or the UUID, and has no order.
pub open spec fn field_table(version: u8, bigtime: bool, nrext64: bool) -> Seq<(usize, usize)> {
    if version < 3 {
        common_fields() + v2_fields()
    } else {
        common_fields() + (v3_fields() + (time_fields(bigtime) + count_fields(nrext64)))
    }
}

/// Every multi-byte field of a core, as `(offset, width)`.
///
/// Padding and the UUID are absent: leaving them out of the table is what
/// makes them stay put.
pub fn field_layout(version: u8, bigtime: bool, nrext64: bool) -> (r: Vec<(usize, usize)>)
    ensures
        r@ == field_table(version, bigtime, nrext64),
{
    let mut r: Vec<(usize, usize)> = vec![
        (0, 2),  // di_magic
        (2, 2),  // di_mode
        (6, 2),  // unused
        (8, 4),  // di_uid
        (12, 4),  // di_gid
        (16, 4),  // di_nlink
        (20, 2),  // di_projid_lo
        (22, 2),  // di_projid_hi
        (56, 8),  // di_size
        (64, 8),  // di_nblocks
        (72, 4),  // di_extsize
        (84, 4),  // di_dmevmask
        (88, 2),  // di_dmstate
        (90, 2),  // di_flags
        (92, 4),  // di_gen
    ];
    assert(r@ =~= common_fields());
    if version < 3 {
        // A version-2 core stops at 96 and has neither bigtime nor nrext64.
        let mut old: Vec<(usize, usize)> = vec![
            (32, 4), (36, 4), (40, 4), (44, 4), (48, 4), (52, 4), (76, 4), (80, 2),
        ];
        assert(old@ =~= v2_fields());
        r.append(&mut old);
        return r;
    }
    let mut tail: Vec<(usize, usize)> = vec![
        (96, 4),  // di_next_unlinked
        (104, 8),  // di_changecount
        (112, 8),  // di_lsn
        (120, 8),  // di_flags2
        (128, 4),  // di_cowextsize
        (152, 8),  // di_ino
    ];
    assert(tail@ =~= v3_fields());
    // One 64-bit count under bigtime, two 32-bit halves otherwise. They
    // swap differently, so the layout has to know.
    let mut times: Vec<(usize, usize)> = if bigtime {
        vec![(32, 8), (40, 8), (48, 8), (144, 8)]
    } else {
        vec![(32, 4), (36, 4), (40, 4), (44, 4), (48, 4), (52, 4), (144, 4), (148, 4)]
    };
    assert(times@ =~= time_fields(bigtime));
    let mut counts: Vec<(usize, usize)> = if nrext64 {
        vec![(24, 8), (76, 4)]
    } else {
        vec![(76, 4), (80, 2)]
    };
    assert(counts@ =~= count_fields(nrext64));
    times.append(&mut counts);
    tail.append(&mut times);
    r.append(&mut tail);
    r
}

/// Where the byte at `i` goes when the bytes of every listed field are
/// reversed.
pub open spec fn mirrored(table: Seq<(usize, usize)>, i: int) -> int
    decreases table.len(),
{
    if table.len() == 0 {
        i
    } else {
        let (at, width) = table.last();
        if at <= i < at + width {
            at + (at + width - 1 - i)
        } else {
            mirrored(table.drop_last(), i)
        }
    }
}

/// `b` with the bytes of every listed field reversed.
pub open spec fn swapped(b: Seq<u8>, table: Seq<(usize, usize)>) -> Seq<u8> {
    Seq::new(b.len(), |i: int| b[mirrored(table, i)])
}

/// `b`, a core in big-endian order, in `order`, or the other way round.
pub open spec fn reordered(b: Seq<u8>, order: ByteOrder, table: Seq<(usize, usize)>) -> Seq<u8> {
    match order {
        ByteOrder::Little => swapped(b, table),
        ByteOrder::Big => b,
    }
}

/// Bytes in the core of an inode of this version.
pub open spec fn core_size(version: u8) -> Option<nat> {
    if version == 1 || version == 2 {
        Some(96nat)
    } else if version == 3 {
        Some(176nat)
    } else {
        None
    }
}

/// The field table of a core of this version with these flags.
pub open spec fn table_for(version: u8, flags2: u64) -> Seq<(usize, usize)> {
    field_table(
        version,
        flags2 & DI_FLAGS2_BIGTIME != 0,
        flags2 & DI_FLAGS2_NREXT64 != 0,
    )
}

/// A core with its checksum, if it has one, blank.
pub open spec fn crc_blanked(core: Seq<u8>, version: u8) -> Seq<u8> {
    if version >= 3 {
        patched(core, DI_CRC as int, zeros(4))
    } else {
        core
    }
}

/// The form in which a log written in `order` stores the inode `raw`, or
/// why it has none.
pub open spec fn logged_core(raw: Seq<u8>, order: ByteOrder) -> Result<Seq<u8>, &'static str> {
    let version = raw[DI_VERSION as int];
    if raw.len() < V2_LOG_DINODE_SIZE {
        Err("inode is shorter than a v2 core")
    } else if core_size(version) is None {
        Err("unrecognised inode version")
    } else if raw.len() < core_size(version)->0 {
        Err("inode is shorter than its version's core")
    } else {
        let flags2 = if version >= 3 {
            be64_at(raw, DI_FLAGS2 as int)
        } else {
            0
        };
        let core = raw.subrange(0, core_size(version)->0 as int);
        Ok(crc_blanked(reordered(core, order, table_for(version, flags2)), version))
    }
}

/// The on-disk form of a core that a log written in `order` holds, or why
/// it has none.
pub open spec fn disk_core(log: Seq<u8>, order: ByteOrder) -> Result<Seq<u8>, &'static str> {
    let version = log[DI_VERSION as int];
    if log.len() < V2_LOG_DINODE_SIZE {
        Err("logged inode core is shorter than a v2 core")
    } else if core_size(version) is None {
        Err("unrecognised inode version")
    } else if log.len() < core_size(version)->0 {
        Err("logged inode core is shorter than its version's core")
    } else {
        let flags2 = if version >= 3 {
            match order {
                ByteOrder::Little => le64_at(log, DI_FLAGS2 as int),
                ByteOrder::Big => be64_at(log, DI_FLAGS2 as int),
            }
        } else {
            0
        };
        let core = log.subrange(0, core_size(version)->0 as int);
        Ok(reordered(core, order, table_for(version, flags2)))
    }
}

/// Whether no two listed fields share a byte.
pub open spec fn separate(table: Seq<(usize, usize)>) -> bool {
    forall|a: int, b: int|
        0 <= a < b < table.len() ==> apart(#[trigger] table[a], #[trigger] table[b])
}

/// Whether two fields share no byte.
pub open spec fn apart(x: (usize, usize), y: (usize, usize)) -> bool {
    x.0 + x.1 <= y.0 || y.0 + y.1 <= x.0
}

/// Which part of the core a byte belongs to: 0 what never moves below 96, 1
/// the timestamps, 2 the extent counters, 3 what only version 3 has, 4
/// padding and the UUID.
spec fn region(i: int) -> int {
    if i < 24 {
        0
    } else if i < 32 {
        2
    } else if i < 56 {
        1
    } else if i < 76 {
        0
    } else if i < 84 {
        2
    } else if i < 96 {
        0
    } else if i < 100 {
        3
    } else if i < 104 {
        4
    } else if i < 132 {
        3
    } else if i < 144 {
        4
    } else if i < 152 {
        1
    } else if i < 160 {
        3
    } else {
        4
    }
}

/// Whether a field lies wholly in one part of the core.
spec fn field_in_region(f: (usize, usize), g: int) -> bool {
    &&& 0 < f.1 <= 8
    &&& f.0 + f.1 <= 176
    &&& forall|i: int| f.0 <= i < f.0 + f.1 ==> #[trigger] region(i) == g
}

/// Whether every listed field lies wholly in the part `g`.
spec fn all_in_region(table: Seq<(usize, usize)>, g: int) -> bool {
    forall|k: int| 0 <= k < table.len() ==> field_in_region(#[trigger] table[k], g)
}

proof fn lemma_regions()
    ensures
        separate(common_fields()),
        all_in_region(common_fields(), 0),
        separate(v3_fields()),
        all_in_region(v3_fields(), 3),
        forall|b: bool| separate(#[trigger] time_fields(b)) && all_in_region(time_fields(b), 1),
        forall|n: bool| separate(#[trigger] count_fields(n)) && all_in_region(count_fields(n), 2),
{
}

/// Fields in different parts of the core share no byte.
proof fn lemma_regions_apart(x: (usize, usize), y: (usize, usize), g: int, h: int)
    requires
        field_in_region(x, g),
        field_in_region(y, h),
        g != h,
    ensures
        apart(x, y),
{
    if !apart(x, y) {
        let i = if x.0 <= y.0 {
            y.0 as int
        } else {
            x.0 as int
        };
        assert(region(i) == g);
        assert(region(i) == h);
    }
}

/// Two tables without overlaps, in different parts of the core, have none
/// together.
proof fn lemma_separate_together(a: Seq<(usize, usize)>, b: Seq<(usize, usize)>)
    requires
        separate(a),
        separate(b),
        forall|i: int, j: int|
            0 <= i < a.len() && 0 <= j < b.len() ==> apart(#[trigger] a[i], #[trigger] b[j]),
    ensures
        separate(a + b),
{
    let t = a + b;
    assert forall|i: int, j: int| 0 <= i < j < t.len() implies apart(
        #[trigger] t[i],
        #[trigger] t[j],
    ) by {
        if j < a.len() {
            assert(t[i] == a[i] && t[j] == a[j]);
        } else if i < a.len() {
            assert(t[i] == a[i] && t[j] == b[j - a.len()]);
        } else {
            assert(t[i] == b[i - a.len()] && t[j] == b[j - a.len()]);
        }
    }
}

/// Whether a field is one that a core of `size` bytes can have: within it,
/// and covering neither the version nor the checksum.
spec fn placed(f: (usize, usize), size: nat) -> bool {
    &&& 0 < f.1
    &&& f.0 + f.1 <= size
    &&& !(f.0 <= DI_VERSION < f.0 + f.1)
    &&& f.0 + f.1 <= DI_CRC || DI_CRC + 4 <= f.0
}

/// Whether every listed field is one that a core of `size` bytes can have.
spec fn all_placed(table: Seq<(usize, usize)>, size: nat) -> bool {
    forall|k: int| 0 <= k < table.len() ==> placed(#[trigger] table[k], size)
}

proof fn lemma_v2_fields()
    ensures
        separate(v2_fields()),
        all_placed(v2_fields(), 96),
        all_placed(common_fields(), 96),
        forall|k: int|
            0 <= k < v2_fields().len() ==> field_in_region(#[trigger] v2_fields()[k], 1)
                || field_in_region(v2_fields()[k], 2),
{
}

proof fn lemma_v3_placed()
    ensures
        all_placed(common_fields(), 176),
        all_placed(v3_fields(), 176),
        forall|b: bool| all_placed(#[trigger] time_fields(b), 176),
        forall|n: bool| all_placed(#[trigger] count_fields(n), 176),
{
}

/// No two fields of a core share a byte, and all of them are within it.
proof fn lemma_field_table(version: u8, bigtime: bool, nrext64: bool)
    requires
        core_size(version) is Some,
    ensures
        separate(field_table(version, bigtime, nrext64)),
        all_placed(field_table(version, bigtime, nrext64), core_size(version)->0),
{
    lemma_regions();
    let common = common_fields();
    if version < 3 {
        lemma_v2_fields();
        let old = v2_fields();
        assert forall|i: int, j: int| 0 <= i < common.len() && 0 <= j < old.len() implies apart(
            #[trigger] common[i],
            #[trigger] old[j],
        ) by {
            if field_in_region(old[j], 1) {
                lemma_regions_apart(common[i], old[j], 0, 1);
            } else {
                lemma_regions_apart(common[i], old[j], 0, 2);
            }
        }
        lemma_separate_together(common, old);
    } else {
        lemma_v3_placed();
        let tail = v3_fields();
        let times = time_fields(bigtime);
        let counts = count_fields(nrext64);
        assert forall|i: int, j: int| 0 <= i < times.len() && 0 <= j < counts.len() implies apart(
            #[trigger] times[i],
            #[trigger] counts[j],
        ) by {
            lemma_regions_apart(times[i], counts[j], 1, 2);
        }
        lemma_separate_together(times, counts);
        let moved = times + counts;
        assert forall|i: int, j: int| 0 <= i < tail.len() && 0 <= j < moved.len() implies apart(
            #[trigger] tail[i],
            #[trigger] moved[j],
        ) by {
            if j < times.len() {
                lemma_regions_apart(tail[i], times[j], 3, 1);
            } else {
                lemma_regions_apart(tail[i], counts[j - times.len()], 3, 2);
            }
        }
        lemma_separate_together(tail, moved);
        let rest = tail + moved;
        assert forall|i: int, j: int| 0 <= i < common.len() && 0 <= j < rest.len() implies apart(
            #[trigger] common[i],
            #[trigger] rest[j],
        ) by {
            if j < tail.len() {
                lemma_regions_apart(common[i], tail[j], 0, 3);
            } else if j < tail.len() + times.len() {
                lemma_regions_apart(common[i], times[j - tail.len()], 0, 1);
            } else {
                lemma_regions_apart(common[i], counts[j - tail.len() - times.len()], 0, 2);
            }
        }
        lemma_separate_together(common, rest);
    }
}

/// A byte of a listed field goes to the mirrored place in that field.
pub(crate) proof fn lemma_mirrored_in_field(table: Seq<(usize, usize)>, k: int, i: int)
    requires
        separate(table),
        0 <= k < table.len(),
        table[k].0 <= i < table[k].0 + table[k].1,
    ensures
        mirrored(table, i) == table[k].0 + (table[k].0 + table[k].1 - 1 - i),
    decreases table.len(),
{
    if k < table.len() - 1 {
        assert(apart(table[k], table[table.len() - 1]));
        assert(separate(table.drop_last()));
        lemma_mirrored_in_field(table.drop_last(), k, i);
    }
}

/// A byte of no listed field stays.
pub(crate) proof fn lemma_mirrored_elsewhere(table: Seq<(usize, usize)>, i: int)
    requires
        forall|k: int|
            0 <= k < table.len() ==> !((#[trigger] table[k]).0 <= i < table[k].0 + table[k].1),
    ensures
        mirrored(table, i) == i,
    decreases table.len(),
{
    if table.len() > 0 {
        assert(table.last() == table[table.len() - 1]);
        lemma_mirrored_elsewhere(table.drop_last(), i);
    }
}

/// Mirroring stays within the core, and undoes itself.
proof fn lemma_mirrored_twice(table: Seq<(usize, usize)>, size: nat, i: int)
    requires
        separate(table),
        all_placed(table, size),
        0 <= i < size,
    ensures
        0 <= mirrored(table, i) < size,
        mirrored(table, mirrored(table, i)) == i,
        i == DI_VERSION ==> mirrored(table, i) == i,
        DI_CRC <= i < DI_CRC + 4 <==> DI_CRC <= mirrored(table, i) < DI_CRC + 4,
{
    if exists|k: int|
        0 <= k < table.len() && (#[trigger] table[k]).0 <= i < table[k].0 + table[k].1 {
        let k = choose|k: int|
            0 <= k < table.len() && (#[trigger] table[k]).0 <= i < table[k].0 + table[k].1;
        assert(placed(table[k], size));
        lemma_mirrored_in_field(table, k, i);
        lemma_mirrored_in_field(table, k, mirrored(table, i));
    } else {
        lemma_mirrored_elsewhere(table, i);
    }
}

/// `b` with the bytes of one field reversed.
spec fn field_reversed(b: Seq<u8>, at: int, width: int) -> Seq<u8> {
    Seq::new(
        b.len(),
        |i: int|
            if at <= i < at + width {
                b[at + (at + width - 1 - i)]
            } else {
                b[i]
            },
    )
}

/// Reverse the bytes of one field.
fn reverse_field(b: &mut Vec<u8>, at: usize, width: usize)
    requires
        at + width <= old(b)@.len(),
    ensures
        final(b)@ == field_reversed(old(b)@, at as int, width as int),
{
    let ghost orig = b@;
    let mut k: usize = 0;
    while k < width / 2
        invariant
            k <= width / 2,
            b@.len() == orig.len(),
            at + width <= b.len(),
            forall|i: int|
                0 <= i < b@.len() ==> b@[i] == (if at <= i < at + k || at + width - k <= i < at
                    + width {
                    orig[at + (at + width - 1 - i)]
                } else {
                    orig[i]
                }),
        decreases width / 2 - k,
    {
        let lo: u8 = b[at + k];
        let hi: u8 = b[at + width - 1 - k];
        b[at + k] = hi;
        b[at + width - 1 - k] = lo;
        k += 1;
    }
    assert(b@ =~= field_reversed(orig, at as int, width as int));
}

/// Reverse the bytes of every listed field.
fn swap_fields(b: &mut Vec<u8>, table: &Vec<(usize, usize)>)
    requires
        separate(table@),
        forall|k: int| 0 <= k < table@.len() ==> (#[trigger] table@[k]).0 + table@[k].1 <= old(b)@.len(),
    ensures
        final(b)@ == swapped(old(b)@, table@),
{
    let ghost orig = b@;
    let mut k: usize = 0;
    assert(table@.take(0).len() == 0);
    assert(b@ =~= swapped(orig, table@.take(0)));
    while k < table.len()
        invariant
            k <= table@.len(),
            b@.len() == orig.len(),
            separate(table@),
            forall|k: int|
                0 <= k < table@.len() ==> (#[trigger] table@[k]).0 + table@[k].1 <= orig.len(),
            b@ == swapped(orig, table@.take(k as int)),
        decreases table@.len() - k,
    {
        let (at, width) = table[k];
        let ghost before = b@;
        let ghost done = table@.take(k as int);
        reverse_field(b, at, width);
        proof {
            let more = table@.take(k + 1);
            assert(more.drop_last() =~= done);
            assert(more.last() == table@[k as int]);
            assert forall|i: int| 0 <= i < b@.len() implies b@[i] == orig[mirrored(more, i)] by {
                if at <= i < at + width {
                    let j = at + (at + width - 1 - i);
                    assert forall|n: int| 0 <= n < done.len() implies !((#[trigger] done[n]).0 <= j
                        < done[n].0 + done[n].1) by {
                        assert(done[n] == table@[n]);
                        assert(apart(table@[n], table@[k as int]));
                    }
                    lemma_mirrored_elsewhere(done, j);
                    assert(before[j] == orig[j]);
                }
            }
            assert(b@ =~= swapped(orig, more));
        }
        k += 1;
    }
    assert(table@.take(k as int) =~= table@);
}

/// Bytes in the core of an inode of this version.
fn size_of_core(version: u8) -> (r: Option<usize>)
    ensures
        match r {
            Some(size) => core_size(version) == Some(size as nat),
            None => core_size(version) is None,
        },
{
    match version {
        1 | 2 => Some(V2_LOG_DINODE_SIZE),
        3 => Some(LOG_DINODE_SIZE),
        _ => None,
    }
}

/// The first `size` bytes of `b`, reordered between big-endian and `order`.
fn reorder(b: &[u8], size: usize, order: ByteOrder, version: u8, flags2: u64) -> (r: Vec<u8>)
    requires
        size <= b.len(),
        core_size(version) == Some(size as nat),
    ensures
        r@ == reordered(b@.subrange(0, size as int), order, table_for(version, flags2)),
{
    let mut out = vstd::slice::slice_to_vec(vstd::slice::slice_subrange(b, 0, size));
    let bigtime: bool = flags2 & DI_FLAGS2_BIGTIME != 0;
    let nrext64: bool = flags2 & DI_FLAGS2_NREXT64 != 0;
    match order {
        ByteOrder::Little => {
            let table = field_layout(version, bigtime, nrext64);
            proof {
                lemma_field_table(version, bigtime, nrext64);
                assert(forall|k: int|
                    0 <= k < table@.len() ==> placed(#[trigger] table@[k], size as nat));
            }
            swap_fields(&mut out, &table);
        },
        ByteOrder::Big => {},
    }
    out
}

/// Convert an inode's on-disk bytes into the form that a log written in
/// `order` stores.
pub fn log_dinode_in(raw: &[u8], order: ByteOrder) -> (r: Result<Vec<u8>, &'static str>)
    ensures
        match r {
            Ok(v) => logged_core(raw@, order) == Ok::<Seq<u8>, &'static str>(v@),
            Err(e) => logged_core(raw@, order) == Err::<Seq<u8>, &'static str>(e),
        },
{
    if raw.len() < V2_LOG_DINODE_SIZE {
        return Err("inode is shorter than a v2 core");
    }
    let version: u8 = raw[DI_VERSION];
    let size: usize = match size_of_core(version) {
        Some(size) => size,
        None => {
            return Err("unrecognised inode version");
        },
    };
    if raw.len() < size {
        return Err("inode is shorter than its version's core");
    }
    let flags2: u64 = if version >= 3 {
        be64(raw, DI_FLAGS2)
    } else {
        0
    };
    let mut out = reorder(raw, size, order, version, flags2);
    if version >= 3 {
        let blank = [0u8; 4];
        assert(blank@ =~= zeros(4));
        put(&mut out, DI_CRC, &blank);
    }
    Ok(out)
}

/// Turn a core that a log written in `order` holds back into on-disk bytes.
///
/// The checksum comes back blank and the sequence number as logged; whoever
/// writes the inode has to supply both.
pub fn disk_dinode_in(log: &[u8], order: ByteOrder) -> (r: Result<Vec<u8>, &'static str>)
    ensures
        match r {
            Ok(v) => disk_core(log@, order) == Ok::<Seq<u8>, &'static str>(v@),
            Err(e) => disk_core(log@, order) == Err::<Seq<u8>, &'static str>(e),
        },
{
    if log.len() < V2_LOG_DINODE_SIZE {
        return Err("logged inode core is shorter than a v2 core");
    }
    let version: u8 = log[DI_VERSION];
    let size: usize = match size_of_core(version) {
        Some(size) => size,
        None => {
            return Err("unrecognised inode version");
        },
    };
    if log.len() < size {
        return Err("logged inode core is shorter than its version's core");
    }
    let flags2: u64 = if version >= 3 {
        match order {
            ByteOrder::Little => le64(log, DI_FLAGS2),
            ByteOrder::Big => be64(log, DI_FLAGS2),
        }
    } else {
        0
    };
    Ok(reorder(log, size, order, version, flags2))
}

/// The second flag word reads the same after the core has been reordered.
proof fn lemma_flags2_survive(core: Seq<u8>, table: Seq<(usize, usize)>, bigtime: bool, nrext64: bool)
    requires
        core.len() == 176,
        table == field_table(3, bigtime, nrext64),
    ensures
        le64_at(swapped(core, table), DI_FLAGS2 as int) == be64_at(core, DI_FLAGS2 as int),
        be64_at(swapped(core, table), DI_FLAGS2 as int) == le64_at(core, DI_FLAGS2 as int),
{
    lemma_field_table(3, bigtime, nrext64);
    let tail = v3_fields();
    assert(tail[3] == (120usize, 8usize));
    let k = (common_fields().len() + 3) as int;
    assert(table[k] == tail[3]);
    let out = swapped(core, table);
    assert forall|i: int| 120 <= i < 128 implies out[i] == core[247 - i] by {
        lemma_mirrored_in_field(table, k, i);
    }
}

/// Reordering twice is not reordering, and blanking the checksum in between
/// is blanking it.
proof fn lemma_reordered_twice(core: Seq<u8>, order: ByteOrder, version: u8, flags2: u64)
    requires
        core_size(version) == Some(core.len()),
    ensures
        ({
            let table = table_for(version, flags2);
            let there = crc_blanked(reordered(core, order, table), version);
            &&& there.len() == core.len()
            &&& there[DI_VERSION as int] == core[DI_VERSION as int]
            &&& reordered(there, order, table) == crc_blanked(core, version)
            &&& reordered(reordered(core, order, table), order, table) == core
        }),
{
    let table = table_for(version, flags2);
    lemma_field_table(
        version,
        flags2 & DI_FLAGS2_BIGTIME != 0,
        flags2 & DI_FLAGS2_NREXT64 != 0,
    );
    let there = crc_blanked(reordered(core, order, table), version);
    let back = reordered(there, order, table);
    lemma_mirrored_twice(table, core.len(), DI_VERSION as int);
    assert forall|i: int| 0 <= i < core.len() implies back[i] == crc_blanked(core, version)[i] by {
        lemma_mirrored_twice(table, core.len(), i);
    }
    assert(back =~= crc_blanked(core, version));
    let twice = reordered(reordered(core, order, table), order, table);
    assert forall|i: int| 0 <= i < core.len() implies twice[i] == core[i] by {
        lemma_mirrored_twice(table, core.len(), i);
    }
    assert(twice =~= core);
}

/// Logging an inode and turning the logged core back gives the inode's own
/// core, with the checksum, which a log does not carry, blank.
pub proof fn law_logged_core_comes_back(raw: Seq<u8>, order: ByteOrder)
    ensures
        logged_core(raw, order) matches Ok(log) ==> {
            let version = raw[DI_VERSION as int];
            disk_core(log, order) == Ok::<Seq<u8>, &'static str>(
                crc_blanked(raw.subrange(0, core_size(version)->0 as int), version),
            )
        },
{
    if let Ok(log) = logged_core(raw, order) {
        let version = raw[DI_VERSION as int];
        let size = core_size(version)->0;
        let core = raw.subrange(0, size as int);
        let flags2 = if version >= 3 {
            be64_at(raw, DI_FLAGS2 as int)
        } else {
            0
        };
        lemma_reordered_twice(core, order, version, flags2);
        assert(log.subrange(0, size as int) =~= log);
        if version >= 3 {
            crate::endian::lemma_same_bytes_same_field(raw, core, DI_FLAGS2 as int);
            let table = table_for(version, flags2);
            lemma_flags2_survive(
                core,
                table,
                flags2 & DI_FLAGS2_BIGTIME != 0,
                flags2 & DI_FLAGS2_NREXT64 != 0,
            );
            crate::endian::lemma_same_bytes_same_field(
                log,
                reordered(core, order, table),
                DI_FLAGS2 as int,
            );
        }
    }
}

/// Turning a logged core back and logging that gives the logged core again,
/// with its checksum blank as every logged checksum is.
pub proof fn law_disk_core_logs_again(log: Seq<u8>, order: ByteOrder)
    ensures
        disk_core(log, order) matches Ok(raw) ==> {
            let version = log[DI_VERSION as int];
            logged_core(raw, order) == Ok::<Seq<u8>, &'static str>(
                crc_blanked(log.subrange(0, core_size(version)->0 as int), version),
            )
        },
{
    if let Ok(raw) = disk_core(log, order) {
        let version = log[DI_VERSION as int];
        let size = core_size(version)->0;
        let core = log.subrange(0, size as int);
        let flags2 = if version >= 3 {
            match order {
                ByteOrder::Little => le64_at(log, DI_FLAGS2 as int),
                ByteOrder::Big => be64_at(log, DI_FLAGS2 as int),
            }
        } else {
            0
        };
        let table = table_for(version, flags2);
        lemma_reordered_twice(core, order, version, flags2);
        assert(raw.subrange(0, size as int) =~= raw);
        lemma_field_table(
            version,
            flags2 & DI_FLAGS2_BIGTIME != 0,
            flags2 & DI_FLAGS2_NREXT64 != 0,
        );
        lemma_mirrored_twice(table, size, DI_VERSION as int);
        assert(raw[DI_VERSION as int] == version);
        if version >= 3 {
            crate::endian::lemma_same_bytes_same_field(log, core, DI_FLAGS2 as int);
            lemma_flags2_survive(
                core,
                table,
                flags2 & DI_FLAGS2_BIGTIME != 0,
                flags2 & DI_FLAGS2_NREXT64 != 0,
            );
        }
    }
}

/// The checksum of a logged version-3 core is blank, and a logged core is
/// as long as its version says.
pub proof fn law_logged_core_has_no_checksum(raw: Seq<u8>, order: ByteOrder)
    ensures
        logged_core(raw, order) matches Ok(log) ==> {
            &&& core_size(raw[DI_VERSION as int]) == Some(log.len())
            &&& log[DI_VERSION as int] == raw[DI_VERSION as int]
            &&& raw[DI_VERSION as int] == 3 ==> log.subrange(DI_CRC as int, DI_CRC + 4) == zeros(4)
        },
{
    if let Ok(log) = logged_core(raw, order) {
        let version = raw[DI_VERSION as int];
        let core = raw.subrange(0, core_size(version)->0 as int);
        let flags2 = if version >= 3 {
            be64_at(raw, DI_FLAGS2 as int)
        } else {
            0
        };
        lemma_reordered_twice(core, order, version, flags2);
        if version == 3 {
            assert(log.subrange(DI_CRC as int, DI_CRC + 4) =~= zeros(4));
        }
    }
}

/// Whether the byte at `i` of a core has no order: it is a field of its own,
/// as the version, the format, the fork offset and the attribute format
/// are, or part of the checksum, of the padding, or of the UUID. The wide
/// extent counters take the padding at 24 and leave the counter at 80 as
/// padding.
pub open spec fn has_no_order(version: u8, nrext64: bool, i: int) -> bool {
    let wide = version >= 3 && nrext64;
    ||| i == DI_VERSION
    ||| i == 5
    ||| 24 <= i < 32 && !wide
    ||| 80 <= i < 82 && wide
    ||| 82 <= i < 84
    ||| DI_CRC <= i < DI_CRC + 4
    ||| 132 <= i < 144
    ||| 160 <= i < 176
}

/// Whether a field covers the byte at `i`.
pub open spec fn covers(field: (usize, usize), i: int) -> bool {
    field.0 <= i < field.0 + field.1
}

/// A core's field table lists no byte twice and none beyond the core, and
/// leaves alone what has no order: the version and the other single bytes,
/// the checksum, the padding and the UUID.
pub proof fn law_fields_are_laid_out(version: u8, bigtime: bool, nrext64: bool)
    requires
        core_size(version) is Some,
    ensures
        ({
            let table = field_table(version, bigtime, nrext64);
            &&& separate(table)
            &&& forall|k: int|
                0 <= k < table.len() ==> 0 < (#[trigger] table[k]).1 && table[k].0 + table[k].1
                    <= core_size(version)->0
            &&& forall|k: int, i: int|
                0 <= k < table.len() && #[trigger] covers(table[k], i) ==> !has_no_order(
                    version,
                    nrext64,
                    i,
                )
        }),
{
    lemma_field_table(version, bigtime, nrext64);
    let table = field_table(version, bigtime, nrext64);
    assert forall|k: int| 0 <= k < table.len() implies 0 < (#[trigger] table[k]).1 && table[k].0
        + table[k].1 <= core_size(version)->0 by {
        assert(placed(table[k], core_size(version)->0));
    }
}

/// What has no order is the same on disk and in the log, but for the
/// checksum, which the log blanks.
pub proof fn law_orderless_bytes_are_carried_across(raw: Seq<u8>, order: ByteOrder, i: int)
    requires
        logged_core(raw, order) is Ok,
        0 <= i < core_size(raw[DI_VERSION as int])->0,
        has_no_order(
            raw[DI_VERSION as int],
            be64_at(raw, DI_FLAGS2 as int) & DI_FLAGS2_NREXT64 != 0,
            i,
        ),
        !(DI_CRC <= i < DI_CRC + 4),
    ensures
        logged_core(raw, order)->Ok_0[i] == raw[i],
{
    let version = raw[DI_VERSION as int];
    let flags2 = if version >= 3 {
        be64_at(raw, DI_FLAGS2 as int)
    } else {
        0
    };
    let bigtime = flags2 & DI_FLAGS2_BIGTIME != 0;
    let nrext64 = flags2 & DI_FLAGS2_NREXT64 != 0;
    let table = table_for(version, flags2);
    law_fields_are_laid_out(version, bigtime, nrext64);
    assert forall|k: int| 0 <= k < table.len() implies !((#[trigger] table[k]).0 <= i < table[k].0
        + table[k].1) by {
        if covers(table[k], i) {
            assert(!has_no_order(version, nrext64, i));
        }
    }
    lemma_mirrored_elsewhere(table, i);
}

} // verus!
