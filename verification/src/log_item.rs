//! The items of a logged transaction: which bytes of which block or inode
//! changed.
//!
//! A buffer item is a format operation, whose bitmap has one bit for each
//! 128 bytes of the block, followed by one data operation for each run of
//! set bits. An inode item is a format operation followed by the inode's
//! core. A cancel item is a buffer item without data whose flag says that
//! the items before it for the same block are void.
//!
//! Around the items stands a frame that carries none: an empty START, the
//! transaction header, and an empty COMMIT.

use vstd::prelude::*;
use crate::endian::{le16, le16_at, le32, le32_at, le64, le64_at};
use crate::error::{Error, LogFault, Unsupported};
use crate::format::log_items::{
    BLF_BLKNO, BLF_CANCEL, BLF_CHUNK, BLF_FLAGS, BLF_HEADER_SIZE, BLF_MAP_SIZE, BLF_SIZE,
    ILF_BLKNO, ILF_BOFFSET, ILF_FIELDS, ILF_INO, ILF_LEN, ILF_SIZE, INODE_LOG_FORMAT_SIZE,
    TRANS_HEADER_SIZE, XFS_ILOG_ADATA, XFS_ILOG_AEXT, XFS_ILOG_CORE, XFS_ILOG_DDATA,
    XFS_ILOG_DEXT, XFS_LI_BUF, XFS_LI_INODE, XFS_TRANS_HEADER_MAGIC,
};
use crate::log_write::Op;

verus! {

/// Whether bit `c` of a bitmap is set, counting from the low bit of the
/// first byte.
pub open spec fn bit(map: Seq<u8>, c: int) -> bool {
    map[c / 8] & (1u8 << ((c % 8) as u8)) != 0
}

/// Where the run of set bits that holds bit `c` ends.
pub open spec fn run_end(map: Seq<u8>, c: int) -> int
    decreases map.len() * 8 - c,
{
    if c < map.len() * 8 && bit(map, c) {
        run_end(map, c + 1)
    } else {
        c
    }
}

/// The maximal runs of set bits from bit `c` on, as byte offset and length
/// in the buffer that the bitmap is of.
pub open spec fn runs_from(map: Seq<u8>, c: int) -> Seq<(u64, u64)>
    decreases map.len() * 8 - c,
    via runs_from_shrinks
{
    if c >= map.len() * 8 {
        Seq::empty()
    } else if bit(map, c) {
        let end = run_end(map, c);
        seq![((c * 128) as u64, ((end - c) * 128) as u64)] + runs_from(map, end)
    } else {
        runs_from(map, c + 1)
    }
}

#[via_fn]
proof fn runs_from_shrinks(map: Seq<u8>, c: int) {
    lemma_run_end(map, c);
}

/// The maximal runs of set bits of a bitmap, as byte offset and length in
/// the buffer that the bitmap is of.
pub open spec fn runs_of(map: Seq<u8>) -> Seq<(u64, u64)> {
    runs_from(map, 0)
}

/// A run ends behind itself, at a clear bit or at the end of the map, and
/// all its bits are set.
proof fn lemma_run_end(map: Seq<u8>, c: int)
    ensures
        run_end(map, c) >= c,
        c <= map.len() * 8 ==> run_end(map, c) <= map.len() * 8,
        c < map.len() * 8 && bit(map, c) ==> run_end(map, c) > c,
        run_end(map, c) < map.len() * 8 ==> !bit(map, run_end(map, c)),
        forall|i: int| c <= i < run_end(map, c) ==> bit(map, i),
    decreases map.len() * 8 - c,
{
    if c < map.len() * 8 && bit(map, c) {
        lemma_run_end(map, c + 1);
    }
}

/// Whether bit `c` of `map` is set.
fn bit_at(map: &[u8], c: u64) -> (r: bool)
    requires
        c < map@.len() * 8,
        map.len() <= u64::MAX / 1024,
    ensures
        r == bit(map@, c as int),
{
    map[(c / 8) as usize] & (1u8 << ((c % 8) as u8)) != 0
}

/// Where each maximal run of set bits starts and how long it is, in bytes
/// of the buffer that the bitmap is of.
pub fn bitmap_runs(map: &[u8]) -> (r: Vec<(u64, u64)>)
    requires
        map.len() <= u64::MAX / 1024,
    ensures
        r@ == runs_of(map@),
{
    let chunks: u64 = map.len() as u64 * 8;
    let mut runs: Vec<(u64, u64)> = Vec::new();
    let mut c: u64 = 0;
    assert(runs@ + runs_from(map@, 0) =~= runs_of(map@));
    while c < chunks
        invariant
            c <= chunks,
            chunks == map@.len() * 8,
            map.len() <= u64::MAX / 1024,
            runs@ + runs_from(map@, c as int) == runs_of(map@),
        decreases chunks - c,
    {
        if bit_at(map, c) {
            let start: u64 = c;
            proof {
                lemma_run_end(map@, start as int);
            }
            while c < chunks && bit_at(map, c)
                invariant
                    start <= c <= chunks,
                    chunks == map@.len() * 8,
                    map.len() <= u64::MAX / 1024,
                    run_end(map@, c as int) == run_end(map@, start as int),
                    run_end(map@, start as int) > start,
                decreases chunks - c,
            {
                c += 1;
            }
            let ghost before = runs@;
            runs.push((start * BLF_CHUNK as u64, (c - start) * BLF_CHUNK as u64));
            assert(before + runs_from(map@, start as int) =~= runs@ + runs_from(map@, c as int));
        } else {
            c += 1;
        }
    }
    assert(runs@ + runs_from(map@, c as int) =~= runs@);
    runs
}

/// Whether bits `from..to` of a bitmap are a maximal run of set bits.
pub open spec fn is_maximal_run(map: Seq<u8>, from: int, to: int) -> bool {
    &&& 0 <= from < to <= map.len() * 8
    &&& forall|i: int| from <= i < to ==> bit(map, i)
    &&& from > 0 ==> !bit(map, from - 1)
    &&& to < map.len() * 8 ==> !bit(map, to)
}

/// Whether some runs are the maximal runs of set bits of a bitmap from bit
/// `c` on, in ascending order: each of them is one, no two of them touch,
/// and every set bit is in one of them.
pub open spec fn are_maximal_runs(map: Seq<u8>, c: int, runs: Seq<(u64, u64)>) -> bool {
    &&& forall|k: int|
        0 <= k < runs.len() ==> {
            &&& (#[trigger] runs[k]).0 % 128 == 0 && runs[k].1 % 128 == 0
            &&& c * 128 <= runs[k].0
            &&& is_maximal_run(map, runs[k].0 as int / 128, (runs[k].0 + runs[k].1) / 128)
        }
    &&& forall|j: int, k: int|
        #![trigger runs[j], runs[k]]
        0 <= j < k < runs.len() ==> runs[j].0 + runs[j].1 < runs[k].0
    &&& forall|i: int|
        c <= i < map.len() * 8 && #[trigger] bit(map, i) ==> exists|k: int|
            0 <= k < runs.len() && (#[trigger] runs[k]).0 <= i * 128 < runs[k].0 + runs[k].1
}

/// A bitmap's runs are exactly its maximal runs of set bits, in ascending
/// order.
pub proof fn law_runs_are_the_maximal_runs(map: Seq<u8>)
    requires
        map.len() <= u64::MAX / 1024,
    ensures
        are_maximal_runs(map, 0, runs_of(map)),
{
    lemma_runs_from(map, 0);
}

/// The same of the runs from a bit on which no run is under way.
proof fn lemma_runs_from(map: Seq<u8>, c: int)
    requires
        map.len() <= u64::MAX / 1024,
        0 <= c <= map.len() * 8,
        0 < c < map.len() * 8 ==> !(bit(map, c - 1) && bit(map, c)),
    ensures
        are_maximal_runs(map, c, runs_from(map, c)),
    decreases map.len() * 8 - c,
{
    let all = runs_from(map, c);
    if c >= map.len() * 8 {
    } else if !bit(map, c) {
        lemma_runs_from(map, c + 1);
        assert(all == runs_from(map, c + 1));
    } else {
        let end = run_end(map, c);
        lemma_run_end(map, c);
        lemma_runs_from(map, end);
        let rest = runs_from(map, end);
        let first = ((c * 128) as u64, ((end - c) * 128) as u64);
        assert(all == seq![first] + rest);
        assert(is_maximal_run(map, c, end));
        assert(all[0] == first);
        assert(first.0 as int / 128 == c && (first.0 + first.1) / 128 == end);
        assert(forall|k: int| 1 <= k < all.len() ==> #[trigger] all[k] == rest[k - 1]);
        assert forall|k: int| 1 <= k < all.len() implies end * 128 < (#[trigger] all[k]).0 by {
            let run = rest[k - 1];
            assert(is_maximal_run(map, run.0 as int / 128, (run.0 + run.1) / 128));
            assert(bit(map, run.0 as int / 128));
        }
        assert forall|i: int| c <= i < map.len() * 8 && #[trigger] bit(map, i) implies exists|
            k: int,
        | 0 <= k < all.len() && (#[trigger] all[k]).0 <= i * 128 < all[k].0 + all[k].1 by {
            if i < end {
                assert(all[0].0 <= i * 128 < all[0].0 + all[0].1);
            } else {
                let k = choose|k: int|
                    0 <= k < rest.len() && (#[trigger] rest[k]).0 <= i * 128 < rest[k].0
                        + rest[k].1;
                assert(all[k + 1] == rest[k]);
            }
        }
    }
}

/// A parsed buffer item: where its bytes go, and the runs themselves.
pub struct BufItem {
    /// Absolute device address, in basic blocks.
    pub blkno: u64,
    /// Byte offset within the buffer and length, for each data operation.
    pub runs: Vec<(u64, u64)>,
}

/// A buffer item, as values.
#[verifier::ext_equal]
pub struct BufItemView {
    pub blkno: u64,
    pub runs: Seq<(u64, u64)>,
}

impl View for BufItem {
    type V = BufItemView;

    open spec fn view(&self) -> BufItemView {
        BufItemView { blkno: self.blkno, runs: self.runs@ }
    }
}

/// How many bytes some runs cover.
pub open spec fn run_bytes(runs: Seq<(u64, u64)>) -> int
    decreases runs.len(),
{
    if runs.len() == 0 {
        0
    } else {
        run_bytes(runs.drop_last()) + runs.last().1
    }
}

/// How many bytes some operations carry.
pub open spec fn data_bytes(ops: Seq<Op>) -> int
    decreases ops.len(),
{
    if ops.len() == 0 {
        0
    } else {
        data_bytes(ops.drop_last()) + ops.last().data@.len()
    }
}

/// The first run from `k` on whose data operation has another length.
pub open spec fn first_misfit(runs: Seq<(u64, u64)>, data: Seq<Op>, k: int) -> Option<int>
    decreases runs.len() - k,
{
    if k >= runs.len() {
        None
    } else if data[k].data@.len() != runs[k].1 {
        Some(k)
    } else {
        first_misfit(runs, data, k + 1)
    }
}

/// The bitmap of a buffer item's format operation.
pub open spec fn buf_map(fmt: Seq<u8>) -> Seq<u8> {
    fmt.subrange(20, 20 + 4 * le32_at(fmt, BLF_MAP_SIZE as int))
}

/// The buffer item at `at`, and how many operations it spans.
pub open spec fn buf_item_at(ops: Seq<Op>, at: int) -> Result<(BufItemView, usize), Error> {
    let fmt = ops[at].data@;
    let size = le16_at(fmt, BLF_SIZE as int);
    let words = le32_at(fmt, BLF_MAP_SIZE as int);
    let blkno = le64_at(fmt, BLF_BLKNO as int);
    let runs = runs_of(buf_map(fmt));
    let data = ops.subrange(at + 1, at + size);
    let fault = if fmt.len() < BLF_HEADER_SIZE {
        Some(LogFault::BufferHeaderShort { len: fmt.len() as usize })
    } else if fmt.len() < 20 + 4 * words {
        Some(
            LogFault::BufferMapShort {
                words,
                need: (20 + 4 * words) as u64,
                len: fmt.len() as usize,
            },
        )
    } else if blkno > i64::MAX {
        Some(LogFault::BufferAddress { blkno })
    } else if runs.len() != size - 1 {
        Some(LogFault::BufferRunCount { size, runs: runs.len() as usize })
    } else if at + size > ops.len() {
        Some(LogFault::BufferTruncated { size, remain: (ops.len() - at) as usize })
    } else if run_bytes(runs) != data_bytes(data) {
        Some(
            LogFault::BufferByteCount {
                declared: run_bytes(runs) as u64,
                actual: data_bytes(data) as u128,
            },
        )
    } else {
        match first_misfit(runs, data, 0) {
            Some(k) => Some(
                LogFault::BufferRunLength {
                    index: k as usize,
                    len: data[k].data@.len() as usize,
                    run: runs[k].1,
                },
            ),
            None => None,
        }
    };
    match fault {
        Some(fault) => Err(Error::CorruptLog(fault)),
        None => Ok((BufItemView { blkno, runs }, size as usize)),
    }
}

/// Ascending runs cover no more bytes than lie before their end.
proof fn lemma_ascending_runs(runs: Seq<(u64, u64)>)
    requires
        forall|j: int, k: int|
            #![trigger runs[j], runs[k]]
            0 <= j < k < runs.len() ==> runs[j].0 + runs[j].1 < runs[k].0,
    ensures
        runs.len() > 0 ==> run_bytes(runs) <= runs.last().0 + runs.last().1,
    decreases runs.len(),
{
    if runs.len() > 1 {
        let most = runs.drop_last();
        assert(forall|k: int| 0 <= k < most.len() ==> #[trigger] most[k] == runs[k]);
        lemma_ascending_runs(most);
        assert(most.last() == runs[runs.len() - 2]);
        assert(runs.last() == runs[runs.len() - 1]);
    } else {
        reveal_with_fuel(run_bytes, 2);
    }
}

/// A bitmap's runs cover no more bytes than the bitmap is of.
proof fn lemma_run_bytes(map: Seq<u8>)
    requires
        map.len() <= u64::MAX / 1024,
    ensures
        run_bytes(runs_of(map)) <= map.len() * 1024,
{
    let runs = runs_of(map);
    law_runs_are_the_maximal_runs(map);
    lemma_ascending_runs(runs);
    if runs.len() > 0 {
        let last = runs[runs.len() - 1];
        assert(is_maximal_run(map, last.0 as int / 128, (last.0 + last.1) / 128));
    }
}

/// How many bytes `runs` cover.
fn declared_bytes(runs: &Vec<(u64, u64)>, map: Ghost<Seq<u8>>) -> (r: u64)
    requires
        map@.len() <= u64::MAX / 1024,
        runs@ == runs_of(map@),
    ensures
        r == run_bytes(runs@),
{
    let mut sum: u64 = 0;
    let mut i: usize = 0;
    assert(runs@.take(0).len() == 0);
    proof {
        lemma_run_bytes(map@);
    }
    while i < runs.len()
        invariant
            i <= runs@.len(),
            sum == run_bytes(runs@.take(i as int)),
            run_bytes(runs@) <= u64::MAX,
        decreases runs@.len() - i,
    {
        proof {
            let more = runs@.take(i + 1);
            assert(more.drop_last() =~= runs@.take(i as int));
            assert(more.last() == runs@[i as int]);
            lemma_run_bytes_grow(runs@, i + 1);
        }
        sum = sum + runs[i].1;
        i += 1;
    }
    assert(runs@.take(i as int) =~= runs@);
    sum
}

/// Fewer runs cover no more bytes.
proof fn lemma_run_bytes_grow(runs: Seq<(u64, u64)>, n: int)
    requires
        0 <= n <= runs.len(),
    ensures
        run_bytes(runs.take(n)) <= run_bytes(runs),
    decreases runs.len(),
{
    if n < runs.len() {
        lemma_run_bytes_grow(runs.drop_last(), n);
        assert(runs.drop_last().take(n) =~= runs.take(n));
    } else {
        assert(runs.take(n) =~= runs);
    }
}

/// How many bytes the operations `from..to` carry.
fn carried_bytes(ops: &[Op], from: usize, to: usize) -> (r: u128)
    requires
        from <= to <= ops.len(),
    ensures
        r == data_bytes(ops@.subrange(from as int, to as int)),
{
    let mut sum: u128 = 0;
    let mut i: usize = from;
    assert(ops@.subrange(from as int, from as int).len() == 0);
    while i < to
        invariant
            from <= i <= to <= ops.len(),
            sum == data_bytes(ops@.subrange(from as int, i as int)),
            sum <= (i - from) * usize::MAX,
        decreases to - i,
    {
        proof {
            let more = ops@.subrange(from as int, i + 1);
            assert(more.drop_last() =~= ops@.subrange(from as int, i as int));
            assert(more.last() == ops@[i as int]);
            assert((i - from) * usize::MAX + usize::MAX == (i + 1 - from) * usize::MAX)
                by (nonlinear_arith);
            assert((i + 1 - from) * usize::MAX <= u64::MAX * u64::MAX) by (nonlinear_arith)
                requires
                    0 <= i + 1 - from <= u64::MAX,
                    usize::MAX <= u64::MAX,
            ;
        }
        sum = sum + ops[i].data.len() as u128;
        i += 1;
    }
    sum
}

/// Parse the buffer item whose format operation is at `at`, and claim its
/// data operations.
///
/// The bitmap and the data operations are two accounts of the same change,
/// and they have to agree.
pub fn parse_buf(ops: &[Op], at: usize) -> (r: Result<(BufItem, usize), Error>)
    requires
        at < ops.len(),
    ensures
        match r {
            Ok((item, size)) => buf_item_at(ops@, at as int) == Ok::<(BufItemView, usize), Error>(
                (item@, size),
            ),
            Err(e) => buf_item_at(ops@, at as int) == Err::<(BufItemView, usize), Error>(e),
        },
{
    let fmt = &ops[at].data;
    let len: usize = fmt.len();
    if len < BLF_HEADER_SIZE {
        return Err(Error::CorruptLog(LogFault::BufferHeaderShort { len }));
    }
    let size: u16 = le16(fmt, BLF_SIZE);
    let words: u32 = le32(fmt, BLF_MAP_SIZE);
    let need: u64 = BLF_HEADER_SIZE as u64 + 4 * words as u64;
    if (len as u64) < need {
        return Err(Error::CorruptLog(LogFault::BufferMapShort { words, need, len }));
    }
    // The address is signed on disk, and a negative one is not a place to
    // write.
    let blkno: u64 = le64(fmt, BLF_BLKNO);
    if blkno > i64::MAX as u64 {
        return Err(Error::CorruptLog(LogFault::BufferAddress { blkno }));
    }
    let map = vstd::slice::slice_subrange(fmt, BLF_HEADER_SIZE, need as usize);
    assert(map@ == buf_map(fmt@));
    let runs = bitmap_runs(map);
    if size == 0 || runs.len() != (size - 1) as usize {
        return Err(Error::CorruptLog(LogFault::BufferRunCount { size, runs: runs.len() }));
    }
    if size as usize > ops.len() - at {
        return Err(Error::CorruptLog(LogFault::BufferTruncated { size, remain: ops.len() - at }));
    }
    let end: usize = at + size as usize;
    let ghost data = ops@.subrange(at + 1, end as int);
    let declared: u64 = declared_bytes(&runs, Ghost(map@));
    let actual: u128 = carried_bytes(ops, at + 1, end);
    if declared as u128 != actual {
        return Err(Error::CorruptLog(LogFault::BufferByteCount { declared, actual }));
    }
    let mut k: usize = 0;
    while k < runs.len()
        invariant
            k <= runs@.len(),
            runs@.len() == size - 1,
            at + size <= ops.len(),
            data == ops@.subrange(at + 1, at + size),
            first_misfit(runs@, data, 0) == first_misfit(runs@, data, k as int),
            buf_item_at(ops@, at as int) == match first_misfit(runs@, data, 0) {
                Some(k) => Err(
                    Error::CorruptLog(
                        LogFault::BufferRunLength {
                            index: k as usize,
                            len: data[k].data@.len() as usize,
                            run: runs@[k].1,
                        },
                    ),
                ),
                None => Ok((BufItemView { blkno, runs: runs@ }, size as usize)),
            },
        decreases runs@.len() - k,
    {
        assert(data[k as int] == ops@[at + 1 + k]);
        let here: usize = ops[at + 1 + k].data.len();
        if here as u64 != runs[k].1 {
            return Err(
                Error::CorruptLog(
                    LogFault::BufferRunLength { index: k, len: here, run: runs[k].1 },
                ),
            );
        }
        k += 1;
    }
    Ok((BufItem { blkno, runs }, size as usize))
}

/// Where no run misfits, every run's data operation has its length.
proof fn lemma_no_misfit(runs: Seq<(u64, u64)>, data: Seq<Op>, k: int)
    requires
        0 <= k,
        first_misfit(runs, data, k) is None,
    ensures
        forall|i: int| k <= i < runs.len() ==> (#[trigger] runs[i]).1 == data[i].data@.len(),
    decreases runs.len() - k,
{
    if k < runs.len() {
        lemma_no_misfit(runs, data, k + 1);
    }
}

/// A buffer item that was accepted names an address that is not negative
/// and is within its transaction, and each of its runs has a data operation
/// of the run's length.
pub proof fn law_accepted_buffer_item_agrees(ops: Seq<Op>, at: int)
    requires
        0 <= at < ops.len(),
    ensures
        buf_item_at(ops, at) matches Ok((item, size)) ==> {
            &&& item.blkno <= i64::MAX
            &&& 1 <= size && at + size <= ops.len()
            &&& item.runs == runs_of(buf_map(ops[at].data@))
            &&& item.runs.len() == size - 1
            &&& forall|k: int|
                0 <= k < item.runs.len() ==> {
                    &&& (#[trigger] item.runs[k]).1 == ops[at + 1 + k].data@.len()
                    &&& item.runs[k].0 + item.runs[k].1 <= 4096 * le32_at(
                        ops[at].data@,
                        BLF_MAP_SIZE as int,
                    )
                }
        },
{
    if let Ok((item, size)) = buf_item_at(ops, at) {
        let fmt = ops[at].data@;
        let map = buf_map(fmt);
        let data = ops.subrange(at + 1, at + size);
        lemma_no_misfit(item.runs, data, 0);
        law_runs_are_the_maximal_runs(map);
        assert forall|k: int| 0 <= k < item.runs.len() implies {
            &&& (#[trigger] item.runs[k]).1 == ops[at + 1 + k].data@.len()
            &&& item.runs[k].0 + item.runs[k].1 <= 4096 * le32_at(
                fmt,
                BLF_MAP_SIZE as int,
            )
        } by {
            assert(data[k] == ops[at + 1 + k]);
            let run = item.runs[k];
            assert(is_maximal_run(map, run.0 as int / 128, (run.0 + run.1) / 128));
        }
    }
}

/// A parsed inode item: which inode, where its cluster is, and the core.
pub struct InodeItem {
    pub ino: u64,
    /// Basic-block address of the cluster, not of the inode.
    pub blkno: u64,
    /// Cluster length in basic blocks.
    pub len_bb: u32,
    /// The inode's byte offset within the cluster.
    pub boffset: u32,
    /// The core, as logged.
    pub core: Vec<u8>,
}

/// An inode item, as values.
#[verifier::ext_equal]
pub struct InodeItemView {
    pub ino: u64,
    pub blkno: u64,
    pub len_bb: u32,
    pub boffset: u32,
    pub core: Seq<u8>,
}

impl View for InodeItem {
    type V = InodeItemView;

    open spec fn view(&self) -> InodeItemView {
        InodeItemView {
            ino: self.ino,
            blkno: self.blkno,
            len_bb: self.len_bb,
            boffset: self.boffset,
            core: self.core@,
        }
    }
}

/// The parts of an inode item's mask that announce a fork.
pub open spec fn forks_in(fields: u32) -> u32 {
    fields & (XFS_ILOG_DDATA | XFS_ILOG_DEXT | XFS_ILOG_ADATA | XFS_ILOG_AEXT)
}

/// The inode item at `at`, and how many operations it spans.
pub open spec fn inode_item_at(ops: Seq<Op>, at: int) -> Result<(InodeItemView, usize), Error> {
    let fmt = ops[at].data@;
    let size = le16_at(fmt, ILF_SIZE as int);
    let fields = le32_at(fmt, ILF_FIELDS as int);
    if fmt.len() < INODE_LOG_FORMAT_SIZE {
        Err(Error::CorruptLog(LogFault::InodeHeaderShort { len: fmt.len() as usize }))
    } else if size < 2 {
        Err(Error::CorruptLog(LogFault::InodeNoCore { size }))
    } else if at + size > ops.len() {
        Err(
            Error::CorruptLog(
                LogFault::InodeTruncated { size, remain: (ops.len() - at) as usize },
            ),
        )
    } else if fields & XFS_ILOG_CORE == 0 {
        Err(Error::CorruptLog(LogFault::InodeCoreNotLogged { fields }))
    } else if forks_in(fields) != 0 {
        Err(Error::UnsupportedFeature(Unsupported::ForkLogged { fork: forks_in(fields) }))
    } else {
        Ok(
            (
                InodeItemView {
                    ino: le64_at(fmt, ILF_INO as int),
                    blkno: le64_at(fmt, ILF_BLKNO as int),
                    len_bb: le32_at(fmt, ILF_LEN as int),
                    boffset: le32_at(fmt, ILF_BOFFSET as int),
                    core: ops[at + 1].data@,
                },
                size as usize,
            ),
        )
    }
}

/// Parse the inode item whose format operation is at `at`, and take the
/// core from the next.
///
/// A fork logged beside the core belongs elsewhere in the inode, so an item
/// with one is refused rather than half applied.
pub fn parse_inode(ops: &[Op], at: usize) -> (r: Result<(InodeItem, usize), Error>)
    requires
        at < ops.len(),
    ensures
        match r {
            Ok((item, size)) => inode_item_at(ops@, at as int) == Ok::<
                (InodeItemView, usize),
                Error,
            >((item@, size)),
            Err(e) => inode_item_at(ops@, at as int) == Err::<(InodeItemView, usize), Error>(e),
        },
{
    let fmt = &ops[at].data;
    let len: usize = fmt.len();
    if len < INODE_LOG_FORMAT_SIZE {
        return Err(Error::CorruptLog(LogFault::InodeHeaderShort { len }));
    }
    let size: u16 = le16(fmt, ILF_SIZE);
    if size < 2 {
        return Err(Error::CorruptLog(LogFault::InodeNoCore { size }));
    }
    if size as usize > ops.len() - at {
        return Err(Error::CorruptLog(LogFault::InodeTruncated { size, remain: ops.len() - at }));
    }
    let fields: u32 = le32(fmt, ILF_FIELDS);
    if fields & XFS_ILOG_CORE == 0 {
        return Err(Error::CorruptLog(LogFault::InodeCoreNotLogged { fields }));
    }
    let fork: u32 = fields & (XFS_ILOG_DDATA | XFS_ILOG_DEXT | XFS_ILOG_ADATA | XFS_ILOG_AEXT);
    if fork != 0 {
        return Err(Error::UnsupportedFeature(Unsupported::ForkLogged { fork }));
    }
    let item = InodeItem {
        ino: le64(fmt, ILF_INO),
        blkno: le64(fmt, ILF_BLKNO),
        len_bb: le32(fmt, ILF_LEN),
        boffset: le32(fmt, ILF_BOFFSET),
        core: vstd::slice::slice_to_vec(&ops[at + 1].data),
    };
    Ok((item, size as usize))
}

/// Whether an operation is the header that opens a transaction's items.
pub open spec fn is_transaction_header(data: Seq<u8>) -> bool {
    data.len() == TRANS_HEADER_SIZE && le32_at(data, 0) == XFS_TRANS_HEADER_MAGIC
}

/// Whether an operation is part of the frame around a transaction's items:
/// the header that opens them, or one that carries nothing, as START and
/// COMMIT do.
pub open spec fn is_frame(data: Seq<u8>) -> bool {
    data.len() < 2 || is_transaction_header(data)
}

/// The first operation from `at` on that is an item's.
pub open spec fn first_item(ops: Seq<Op>, at: int) -> int
    decreases ops.len() - at,
{
    if at < ops.len() && is_frame(ops[at].data@) {
        first_item(ops, at + 1)
    } else {
        at
    }
}

/// The search for an item goes forward, and stops within the transaction.
pub(crate) proof fn lemma_first_item(ops: Seq<Op>, at: int)
    requires
        0 <= at <= ops.len(),
    ensures
        at <= first_item(ops, at) <= ops.len(),
        first_item(ops, at) < ops.len() ==> !is_frame(ops[first_item(ops, at)].data@),
        forall|i: int| at <= i < first_item(ops, at) ==> is_frame(#[trigger] ops[i].data@),
    decreases ops.len() - at,
{
    if at < ops.len() && is_frame(ops[at].data@) {
        lemma_first_item(ops, at + 1);
    }
}

/// How many operations the item at `at` says it spans, if it is of a known
/// type and they are there.
pub open spec fn item_span(ops: Seq<Op>, at: int) -> Option<int> {
    let data = ops[at].data@;
    let kind = le16_at(data, 0);
    let size = le16_at(data, 2);
    let known = kind == XFS_LI_BUF && data.len() >= BLF_HEADER_SIZE || kind == XFS_LI_INODE
        && data.len() >= INODE_LOG_FORMAT_SIZE;
    if known && 1 <= size && at + size <= ops.len() {
        Some(size as int)
    } else {
        None
    }
}

/// Whether operation `k` is where an item starts, of those from operation
/// `at` on.
pub open spec fn is_item(ops: Seq<Op>, at: int, k: int) -> bool
    decreases ops.len() - at,
    when 0 <= at <= ops.len()
    via is_item_advances
{
    let first = first_item(ops, at);
    first < ops.len() && (k == first || match item_span(ops, first) {
        Some(size) => is_item(ops, first + size, k),
        None => false,
    })
}

#[via_fn]
proof fn is_item_advances(ops: Seq<Op>, at: int, k: int) {
    lemma_first_item(ops, at);
}

/// Whether an operation is the format of a cancel item for a block: of a
/// well-formed buffer item that is flagged as one and has no runs. A flagged
/// item that carries data is an ordinary one.
pub open spec fn is_cancel(data: Seq<u8>, blkno: u64) -> bool {
    &&& data.len() >= BLF_HEADER_SIZE
    &&& le16_at(data, 0) == XFS_LI_BUF
    &&& le16_at(data, BLF_SIZE as int) == 1
    &&& le16_at(data, BLF_FLAGS as int) & BLF_CANCEL != 0
    &&& le64_at(data, BLF_BLKNO as int) == blkno <= i64::MAX
    &&& data.len() >= 20 + 4 * le32_at(data, BLF_MAP_SIZE as int)
    &&& runs_of(buf_map(data)).len() == 0
}

/// The cancel items are the buffer items that are flagged and span one
/// operation.
pub proof fn law_cancel_items_span_one_operation(ops: Seq<Op>, at: int, blkno: u64)
    requires
        0 <= at < ops.len(),
        le16_at(ops[at].data@, 0) == XFS_LI_BUF,
    ensures
        is_cancel(ops[at].data@, blkno) <==> buf_item_at(ops, at) == Ok::<
            (BufItemView, usize),
            Error,
        >((BufItemView { blkno, runs: Seq::empty() }, 1)) && le16_at(
            ops[at].data@,
            BLF_FLAGS as int,
        ) & BLF_CANCEL != 0,
{
    let runs = runs_of(buf_map(ops[at].data@));
    if is_cancel(ops[at].data@, blkno) {
        assert(ops.subrange(at + 1, at + 1).len() == 0);
        assert(runs =~= Seq::empty());
    }
}

/// Whether some item from operation `at` on is a cancel item for a block.
pub open spec fn cancels_from(ops: Seq<Op>, at: int, blkno: u64) -> bool
    decreases ops.len() - at,
    when 0 <= at <= ops.len()
    via cancels_from_advances
{
    let first = first_item(ops, at);
    first < ops.len() && (is_cancel(ops[first].data@, blkno) || match item_span(ops, first) {
        Some(size) => cancels_from(ops, first + size, blkno),
        None => false,
    })
}

#[via_fn]
proof fn cancels_from_advances(ops: Seq<Op>, at: int, blkno: u64) {
    lemma_first_item(ops, at);
}

/// Whether some item of the transaction behind the one at `at` is a cancel
/// item for a block.
pub open spec fn cancelled(ops: Seq<Op>, at: int, blkno: u64) -> bool {
    match item_span(ops, at) {
        Some(size) => cancels_from(ops, at + size, blkno),
        None => false,
    }
}

/// A block's items are cancelled exactly if one of the items behind them is
/// a cancel item for the block.
pub proof fn law_cancelled_by_a_later_item(ops: Seq<Op>, at: int, blkno: u64)
    requires
        0 <= at < ops.len(),
    ensures
        cancelled(ops, at, blkno) <==> exists|k: int|
            item_span(ops, at) is Some && #[trigger] is_item(ops, at + item_span(ops, at)->0, k)
                && is_cancel(ops[k].data@, blkno),
{
    if let Some(size) = item_span(ops, at) {
        lemma_cancels_from(ops, at + size, blkno);
    }
}

/// The same of all the items from an operation on.
proof fn lemma_cancels_from(ops: Seq<Op>, at: int, blkno: u64)
    requires
        0 <= at <= ops.len(),
    ensures
        cancels_from(ops, at, blkno) <==> exists|k: int|
            #[trigger] is_item(ops, at, k) && is_cancel(ops[k].data@, blkno),
    decreases ops.len() - at,
{
    lemma_first_item(ops, at);
    let first = first_item(ops, at);
    if first < ops.len() {
        assert(is_item(ops, at, first));
        if let Some(size) = item_span(ops, first) {
            lemma_cancels_from(ops, first + size, blkno);
        }
    }
    if cancels_from(ops, at, blkno) {
        if !is_cancel(ops[first].data@, blkno) {
            let size = item_span(ops, first)->0;
            let k = choose|k: int| #[trigger]
                is_item(ops, first + size, k) && is_cancel(ops[k].data@, blkno);
            assert(is_item(ops, at, k));
        }
    }
    if exists|k: int| #[trigger] is_item(ops, at, k) && is_cancel(ops[k].data@, blkno) {
        let k = choose|k: int| #[trigger] is_item(ops, at, k) && is_cancel(ops[k].data@, blkno);
        if k != first {
            let size = item_span(ops, first)->0;
            assert(is_item(ops, first + size, k));
        }
    }
}

/// Whether `data` is part of the frame around a transaction's items.
fn frames(data: &[u8]) -> (r: bool)
    ensures
        r == is_frame(data@),
{
    data.len() < 2 || data.len() == TRANS_HEADER_SIZE && le32(data, 0) == XFS_TRANS_HEADER_MAGIC
}

/// The first operation from `at` on that is an item's.
pub fn find_item(ops: &[Op], at: usize) -> (r: usize)
    requires
        at <= ops.len(),
    ensures
        r == first_item(ops@, at as int),
        at <= r <= ops.len(),
        r < ops.len() ==> ops@[r as int].data@.len() >= 2,
{
    let mut i: usize = at;
    while i < ops.len() && frames(&ops[i].data)
        invariant
            at <= i <= ops.len(),
            first_item(ops@, at as int) == first_item(ops@, i as int),
        decreases ops.len() - i,
    {
        i += 1;
    }
    i
}

/// Whether `data` is the format of a cancel item for a block.
fn cancels(data: &[u8], blkno: u64) -> (r: bool)
    ensures
        r == is_cancel(data@, blkno),
{
    if data.len() < BLF_HEADER_SIZE || le16(data, 0) != XFS_LI_BUF || le16(data, BLF_SIZE) != 1
        || le16(data, BLF_FLAGS) & BLF_CANCEL == 0 || le64(data, BLF_BLKNO) != blkno || blkno
        > i64::MAX as u64 {
        return false;
    }
    let need: u64 = BLF_HEADER_SIZE as u64 + 4 * le32(data, BLF_MAP_SIZE) as u64;
    if (data.len() as u64) < need {
        return false;
    }
    let map = vstd::slice::slice_subrange(data, BLF_HEADER_SIZE, need as usize);
    assert(map@ == buf_map(data@));
    bitmap_runs(map).len() == 0
}

/// Whether some item from operation `at` on is a cancel item for a block.
pub fn is_cancelled_from(ops: &[Op], at: usize, blkno: u64) -> (r: bool)
    requires
        at <= ops.len(),
    ensures
        r == cancels_from(ops@, at as int, blkno),
{
    let mut i: usize = at;
    loop
        invariant
            i <= ops.len(),
            cancels_from(ops@, at as int, blkno) == cancels_from(ops@, i as int, blkno),
        decreases ops.len() - i,
    {
        let first: usize = find_item(ops, i);
        if first >= ops.len() {
            return false;
        }
        let data = &ops[first].data;
        if cancels(data, blkno) {
            return true;
        }
        let kind: u16 = le16(data, 0);
        let known = kind == XFS_LI_BUF && data.len() >= BLF_HEADER_SIZE || kind == XFS_LI_INODE
            && data.len() >= INODE_LOG_FORMAT_SIZE;
        if !known {
            return false;
        }
        let size: usize = le16(data, BLF_SIZE) as usize;
        if size == 0 || size > ops.len() - first {
            return false;
        }
        i = first + size;
    }
}

} // verus!
