//! Writes held in memory over a device that never sees them.
//!
//! Reads fall through to the device below except where something was
//! written; writes stay here. That is how a transaction's changes can be
//! read back before anything reaches the disk, and how an image that may
//! not be changed can be mounted to be written.
//!
//! The unit is 512 bytes: the smallest sector XFS supports, so a page is
//! never split across two of the device's own units.

use vstd::prelude::*;
use std::collections::HashMap;
use crate::bytes::patched;

verus! {

broadcast use vstd::std_specs::hash::group_hash_axioms;

/// The unit in which writes are remembered.
pub const PAGE: usize = 512;

/// The part of a request that falls into one page: the span within the
/// request and the span within the page.
#[derive(Debug, Clone, Copy, PartialEq, Eq)]
pub struct PageSpan {
    pub index: u64,
    pub request_start: usize,
    pub request_end: usize,
    pub page_start: usize,
    pub page_end: usize,
}

/// The page that holds byte `at` of the device.
pub open spec fn page_of(at: int) -> int {
    at / 512
}

/// The first page that a request covers.
pub open spec fn first_page(offset: u64) -> int {
    page_of(offset as int)
}

/// How many pages a request covers.
pub open spec fn page_count(offset: u64, len: nat) -> int {
    (offset + len + 511) / 512 - first_page(offset)
}

/// The part of a request that falls into page `index`.
pub open spec fn span_in(offset: u64, len: nat, index: int) -> PageSpan {
    let base = index * 512;
    let end = offset + len;
    let from = if offset < base {
        base
    } else {
        offset as int
    };
    let to = if end < base + 512 {
        end
    } else {
        base + 512
    };
    PageSpan {
        index: index as u64,
        request_start: (from - offset) as usize,
        request_end: (to - offset) as usize,
        page_start: (from - base) as usize,
        page_end: (to - base) as usize,
    }
}

/// The parts of a request, page by page.
pub open spec fn page_spans(offset: u64, len: nat) -> Seq<PageSpan> {
    Seq::new(
        page_count(offset, len) as nat,
        |k: int| span_in(offset, len, first_page(offset) + k),
    )
}

/// The pages that a request covers, and which part of it falls into each.
///
/// Reading and writing need the same arithmetic in opposite directions, so
/// there is one of it.
pub fn pages(offset: u64, len: usize) -> (r: Vec<PageSpan>)
    requires
        offset + len <= u64::MAX - 511,
    ensures
        r@ == page_spans(offset, len as nat),
{
    let end: u64 = offset + len as u64;
    let last: u64 = (end + 511) / PAGE as u64;
    let mut index: u64 = offset / PAGE as u64;
    let mut spans: Vec<PageSpan> = Vec::new();
    assert(first_page(offset) == index && index <= last) by {
        assert(offset as int / 512 <= (end + 511) / 512) by (nonlinear_arith)
            requires
                offset <= end,
        ;
    }
    while index < last
        invariant
            end == offset + len,
            end <= u64::MAX - 511,
            last == (end + 511) / 512,
            first_page(offset) <= index <= last,
            spans@ == page_spans(offset, len as nat).take(index - first_page(offset)),
        decreases last - index,
    {
        let base: u64 = index * PAGE as u64;
        let from: u64 = if offset < base {
            base
        } else {
            offset
        };
        let to: u64 = if end < base + PAGE as u64 {
            end
        } else {
            base + PAGE as u64
        };
        let span = PageSpan {
            index,
            request_start: (from - offset) as usize,
            request_end: (to - offset) as usize,
            page_start: (from - base) as usize,
            page_end: (to - base) as usize,
        };
        assert(span == span_in(offset, len as nat, index as int));
        spans.push(span);
        index += 1;
        assert(spans@ =~= page_spans(offset, len as nat).take(index - first_page(offset)));
    }
    assert(spans@ =~= page_spans(offset, len as nat));
    spans
}

/// The parts of a request tile it: they follow one another without gap or
/// overlap, each is as long in its page as in the request and fits the
/// page, and byte `i` of the request is byte `(offset + i) % 512` of page
/// `(offset + i) / 512`.
pub proof fn law_pages_tile_the_request(offset: u64, len: usize)
    requires
        offset + len <= u64::MAX - 511,
    ensures
        ({
            let spans = page_spans(offset, len as nat);
            &&& forall|k: int|
                0 <= k < spans.len() ==> {
                    let span = #[trigger] spans[k];
                    &&& span.index == first_page(offset) + k
                    &&& span.request_start <= span.request_end <= len
                    &&& span.page_start <= span.page_end <= 512
                    &&& span.request_end - span.request_start == span.page_end - span.page_start
                    &&& offset + span.request_start == span.index * 512 + span.page_start
                }
            &&& spans.len() > 0 ==> spans[0].request_start == 0 && spans.last().request_end == len
            &&& spans.len() == 0 ==> len == 0
            &&& forall|k: int|
                0 < k < spans.len() ==> (#[trigger] spans[k]).request_start == spans[k
                    - 1].request_end
            &&& forall|i: int|
                0 <= i < len ==> {
                    let k = #[trigger] page_of(offset + i) - first_page(offset);
                    &&& 0 <= k < spans.len()
                    &&& spans[k].request_start <= i < spans[k].request_end
                    &&& spans[k].page_start + (i - spans[k].request_start) == (offset + i) % 512
                }
        }),
{
}

/// The pages written over a device.
///
/// The device below is not part of it: reads and writes are given what they
/// need of it, so nothing here can reach it.
pub struct OverlayDevice {
    written: HashMap<u64, [u8; 512]>,
}

/// A request over pages, answered from what lies below except where a page
/// was written.
pub open spec fn overlaid(held: Map<u64, [u8; 512]>, offset: u64, below: Seq<u8>) -> Seq<u8> {
    Seq::new(
        below.len(),
        |i: int|
            {
                let index = page_of(offset + i) as u64;
                if held.contains_key(index) {
                    held[index]@[(offset + i) % 512]
                } else {
                    below[i]
                }
            },
    )
}

/// What page `index` holds before a write reaches it: the page as it was
/// written last or, if it never was, what the device below answers.
pub open spec fn page_before<E, F: Fn(u64) -> Result<[u8; 512], E>>(
    held: Map<u64, [u8; 512]>,
    below: F,
    index: u64,
    page: [u8; 512],
) -> bool {
    if held.contains_key(index) {
        page == held[index]
    } else {
        call_ensures(below, ((index * 512) as u64,), Ok(page))
    }
}

/// Page `index` with its part of a write patched in.
pub open spec fn page_after(page: Seq<u8>, offset: u64, data: Seq<u8>, index: int) -> Seq<u8> {
    let span = span_in(offset, data.len(), index);
    patched(
        page,
        span.page_start as int,
        data.subrange(span.request_start as int, span.request_end as int),
    )
}

/// Whether page `index` holds its part of a write, over what it held before.
pub open spec fn page_written<E, F: Fn(u64) -> Result<[u8; 512], E>>(
    before: Map<u64, [u8; 512]>,
    after: Map<u64, [u8; 512]>,
    offset: u64,
    data: Seq<u8>,
    below: F,
    index: u64,
) -> bool {
    &&& after.contains_key(index)
    &&& exists|page: [u8; 512]| #[trigger]
        page_before(before, below, index, page) && after[index]@ == page_after(
            page@,
            offset,
            data,
            index as int,
        )
}

/// Whether the first `k` pages of a write are written and everything else
/// is held as it was.
pub open spec fn pages_written<E, F: Fn(u64) -> Result<[u8; 512], E>>(
    before: Map<u64, [u8; 512]>,
    after: Map<u64, [u8; 512]>,
    offset: u64,
    data: Seq<u8>,
    below: F,
    k: int,
) -> bool {
    &&& forall|index: u64|
        first_page(offset) <= index < first_page(offset) + k ==> #[trigger] page_written(
            before,
            after,
            offset,
            data,
            below,
            index,
        )
    &&& forall|index: u64|
        #![trigger after.contains_key(index)]
        #![trigger before.contains_key(index)]
        !(first_page(offset) <= index < first_page(offset) + k) ==> {
            &&& after.contains_key(index) == before.contains_key(index)
            &&& before.contains_key(index) ==> after[index] == before[index]
        }
}

/// Copy part of `data` into a page.
fn patch_page(page: &mut [u8; 512], at: usize, data: &[u8], from: usize, to: usize)
    requires
        from <= to <= data.len(),
        at + (to - from) <= 512,
    ensures
        final(page)@ == patched(old(page)@, at as int, data@.subrange(from as int, to as int)),
{
    let ghost before = page@;
    let mut i: usize = from;
    while i < to
        invariant
            from <= i <= to <= data.len(),
            at + (to - from) <= 512,
            before == old(page)@,
            forall|k: int|
                0 <= k < 512 ==> page@[k] == (if at <= k < at + (i - from) {
                    data@[from + (k - at)]
                } else {
                    before[k]
                }),
        decreases to - i,
    {
        page[at + (i - from)] = data[i];
        i += 1;
    }
    assert(page@ =~= patched(before, at as int, data@.subrange(from as int, to as int)));
}

impl OverlayDevice {
    /// The pages that were written, by index.
    pub closed spec fn view(&self) -> Map<u64, [u8; 512]> {
        self.written@
    }

    /// An overlay that nothing was written to.
    pub fn new() -> (r: Self)
        ensures
            r@ == Map::<u64, [u8; 512]>::empty(),
    {
        OverlayDevice { written: HashMap::new() }
    }

    /// Turn `buf`, which holds what the device below has at `offset`, into
    /// what is there with the written pages over it.
    pub fn read_over(&self, offset: u64, buf: &mut [u8])
        requires
            offset + old(buf).len() <= u64::MAX - 511,
        ensures
            final(buf)@ == overlaid(self@, offset, old(buf)@),
    {
        let ghost below = buf@;
        let len: usize = buf.len();
        let spans = pages(offset, len);
        let mut k: usize = 0;
        proof {
            law_pages_tile_the_request(offset, len);
        }
        while k < spans.len()
            invariant
                k <= spans@.len(),
                spans@ == page_spans(offset, len as nat),
                offset + len <= u64::MAX - 511,
                below == old(buf)@,
                len == below.len(),
                buf@.len() == len,
                forall|i: int|
                    0 <= i < len ==> #[trigger] buf@[i] == (if page_of(offset + i) < first_page(
                        offset,
                    ) + k {
                        overlaid(self@, offset, below)[i]
                    } else {
                        below[i]
                    }),
            decreases spans@.len() - k,
        {
            let span = spans[k];
            proof {
                law_pages_tile_the_request(offset, len);
            }
            if let Some(page) = self.written.get(&span.index) {
                let mut i: usize = span.request_start;
                while i < span.request_end
                    invariant
                        span.request_start <= i <= span.request_end <= len,
                        span.page_start <= span.page_end <= 512,
                        span.request_end - span.request_start == span.page_end - span.page_start,
                        len == buf@.len(),
                        len == buf.len(),
                        len == below.len(),
                        offset + len <= u64::MAX - 511,
                        offset + span.request_start == span.index * 512 + span.page_start,
                        span.index == first_page(offset) + k,
                        self@.contains_key(span.index),
                        *page == self@[span.index],
                        forall|j: int|
                            0 <= j < len ==> #[trigger] buf@[j] == (if page_of(offset + j)
                                < first_page(offset) + k || span.request_start <= j < i {
                                overlaid(self@, offset, below)[j]
                            } else {
                                below[j]
                            }),
                    decreases span.request_end - i,
                {
                    assert(page_of(offset + i) == span.index);
                    buf[i] = page[span.page_start + (i - span.request_start)];
                    i += 1;
                }
            }
            k += 1;
        }
        assert(buf@ =~= overlaid(self@, offset, below));
    }

    /// Write `data` at `offset`, into memory. `below` answers with the page
    /// that the device below has at a device offset.
    ///
    /// A page that is written in part still has to read back whole, so one
    /// that was never written is filled from below before it is patched. If
    /// the device below fails to answer, the pages before that one stay
    /// written.
    pub fn write_at<E, F: Fn(u64) -> Result<[u8; 512], E>>(
        &mut self,
        offset: u64,
        data: &[u8],
        below: F,
    ) -> (r: Result<(), E>)
        requires
            offset + data.len() <= u64::MAX - 511,
            forall|at: u64| call_requires(below, (at,)),
        ensures
            match r {
                Ok(()) => pages_written(
                    old(self)@,
                    final(self)@,
                    offset,
                    data@,
                    below,
                    page_count(offset, data@.len()),
                ),
                Err(e) => exists|k: int|
                    {
                        &&& 0 <= k < page_count(offset, data@.len())
                        &&& #[trigger] pages_written(
                            old(self)@,
                            final(self)@,
                            offset,
                            data@,
                            below,
                            k,
                        )
                        &&& !old(self)@.contains_key((first_page(offset) + k) as u64)
                        &&& call_ensures(
                            below,
                            (((first_page(offset) + k) * 512) as u64,),
                            Err::<[u8; 512], E>(e),
                        )
                    },
            },
    {
        let ghost before = self@;
        let len: usize = data.len();
        let spans = pages(offset, len);
        let mut k: usize = 0;
        while k < spans.len()
            invariant
                k <= spans@.len(),
                spans@ == page_spans(offset, len as nat),
                offset + len <= u64::MAX - 511,
                len == data@.len(),
                len == data.len(),
                before == old(self)@,
                forall|at: u64| call_requires(below, (at,)),
                pages_written(before, self@, offset, data@, below, k as int),
            decreases spans@.len() - k,
        {
            let span = spans[k];
            proof {
                law_pages_tile_the_request(offset, len);
                assert(span == span_in(offset, len as nat, first_page(offset) + k));
                assert(span.index * 512 + 512 <= u64::MAX);
            }
            let held = match self.written.get(&span.index) {
                Some(page) => Some(*page),
                None => None,
            };
            let mut page = match held {
                Some(page) => page,
                None => match below(span.index * PAGE as u64) {
                    Ok(page) => page,
                    Err(e) => {
                        return Err(e);
                    },
                },
            };
            let ghost filled = page;
            assert(page_before(before, below, span.index, filled));
            patch_page(&mut page, span.page_start, data, span.request_start, span.request_end);
            let ghost mid = self@;
            self.written.insert(span.index, page);
            proof {
                let after = self@;
                assert(after[span.index]@ == page_after(
                    filled@,
                    offset,
                    data@,
                    span.index as int,
                ));
                assert(page_written(before, after, offset, data@, below, span.index));
                assert forall|index: u64|
                    first_page(offset) <= index < first_page(offset) + k
                        + 1 implies #[trigger] page_written(
                    before,
                    after,
                    offset,
                    data@,
                    below,
                    index,
                ) by {
                    if index != span.index {
                        assert(page_written(before, mid, offset, data@, below, index));
                        assert(after[index] == mid[index]);
                    }
                }
            }
            k += 1;
        }
        Ok(())
    }
}

/// The byte at `at` of a device that holds `base`, with written pages over
/// it.
pub open spec fn byte_at(held: Map<u64, [u8; 512]>, base: spec_fn(int) -> u8, at: int) -> u8 {
    let index = page_of(at) as u64;
    if held.contains_key(index) {
        held[index]@[at % 512]
    } else {
        base(at)
    }
}

/// Whether a device always answers with what it holds.
pub open spec fn answers_with<E, F: Fn(u64) -> Result<[u8; 512], E>>(
    below: F,
    base: spec_fn(int) -> u8,
) -> bool {
    forall|at: u64, page: [u8; 512], i: int|
        #![trigger call_ensures(below, (at,), Ok::<[u8; 512], E>(page)), page@[i]]
        call_ensures(below, (at,), Ok::<[u8; 512], E>(page)) && 0 <= i < 512 ==> page@[i] == base(
            at + i,
        )
}

/// What a request reads is the device with the written pages over it, byte
/// by byte.
pub proof fn law_reads_see_the_overlay(
    held: Map<u64, [u8; 512]>,
    base: spec_fn(int) -> u8,
    offset: u64,
    below: Seq<u8>,
    i: int,
)
    requires
        0 <= i < below.len(),
        below[i] == base(offset + i),
    ensures
        overlaid(held, offset, below)[i] == byte_at(held, base, offset + i),
{
}

/// A range of which no page was written reads as the device below has it.
pub proof fn law_unwritten_range_reads_through(
    held: Map<u64, [u8; 512]>,
    offset: u64,
    below: Seq<u8>,
)
    requires
        forall|i: int|
            0 <= i < below.len() ==> !held.contains_key(#[trigger] page_of(offset + i) as u64),
    ensures
        overlaid(held, offset, below) == below,
{
    assert(overlaid(held, offset, below) =~= below);
}

/// A write reads back as written and changes nothing else: after its first
/// `k` pages are written, every byte of the request in those pages is the
/// byte that was written there, and every other byte of the device is what
/// it was, whatever the device below holds. A write that succeeded wrote
/// all its pages.
pub proof fn law_write_reads_back<E, F: Fn(u64) -> Result<[u8; 512], E>>(
    before: Map<u64, [u8; 512]>,
    after: Map<u64, [u8; 512]>,
    offset: u64,
    data: Seq<u8>,
    below: F,
    k: int,
    base: spec_fn(int) -> u8,
    at: int,
)
    requires
        offset + data.len() <= u64::MAX - 511,
        data.len() <= usize::MAX,
        0 <= k <= page_count(offset, data.len()),
        pages_written(before, after, offset, data, below, k),
        answers_with(below, base),
        0 <= at <= u64::MAX,
    ensures
        byte_at(after, base, at) == (if offset <= at < offset + data.len() && page_of(at)
            < first_page(offset) + k {
            data[at - offset]
        } else {
            byte_at(before, base, at)
        }),
        k == page_count(offset, data.len()) && offset <= at < offset + data.len() ==> page_of(at)
            < first_page(offset) + k,
{
    let index = page_of(at) as u64;
    if offset <= at < offset + data.len() {
        assert(first_page(offset) <= page_of(at) < first_page(offset) + page_count(
            offset,
            data.len(),
        ));
    }
    if first_page(offset) <= index < first_page(offset) + k {
        assert(page_written(before, after, offset, data, below, index));
        let page = choose|page: [u8; 512]| #[trigger]
            page_before(before, below, index, page) && after[index]@ == page_after(
                page@,
                offset,
                data,
                index as int,
            );
        lemma_page_after(page@, offset, data, at);
        if !before.contains_key(index) {
            lemma_page_from_below(below, base, page, at);
        }
    } else {
        assert(after.contains_key(index) == before.contains_key(index));
    }
}

/// A read over pages gives, for each byte of the request, the byte of the
/// page that it falls into, if that page is held, and otherwise what lies
/// below. Pages are 512 bytes, counted from the start of the device.
pub proof fn law_read_goes_page_by_page(
    held: Map<u64, [u8; 512]>,
    offset: u64,
    below: Seq<u8>,
    i: int,
)
    requires
        0 <= i < below.len(),
        offset + below.len() <= u64::MAX,
    ensures
        overlaid(held, offset, below).len() == below.len(),
        ({
            let index = ((offset + i) / 512) as u64;
            overlaid(held, offset, below)[i] == if held.contains_key(index) {
                held[index]@[(offset + i) % 512]
            } else {
                below[i]
            }
        }),
{
}

/// A read after a write that succeeded gives the bytes that were written,
/// wherever the two overlap, and everywhere else what it gave before; so
/// does a read after a write that failed, except that nothing from the page
/// on at which it failed was written.
pub proof fn law_read_after_write<E, F: Fn(u64) -> Result<[u8; 512], E>>(
    before: Map<u64, [u8; 512]>,
    after: Map<u64, [u8; 512]>,
    offset: u64,
    data: Seq<u8>,
    below: F,
    base: spec_fn(int) -> u8,
    from: u64,
    under: Seq<u8>,
    i: int,
)
    requires
        offset + data.len() <= u64::MAX - 511,
        data.len() <= usize::MAX,
        answers_with(below, base),
        0 <= i < under.len(),
        from + under.len() <= u64::MAX,
        under[i] == base(from + i),
    ensures
        pages_written(
            before,
            after,
            offset,
            data,
            below,
            page_count(offset, data.len()),
        ) ==> overlaid(after, from, under)[i] == if offset <= from + i < offset + data.len() {
            data[from + i - offset]
        } else {
            overlaid(before, from, under)[i]
        },
        forall|k: int|
            0 <= k < page_count(offset, data.len()) && #[trigger] pages_written(
                before,
                after,
                offset,
                data,
                below,
                k,
            ) ==> overlaid(after, from, under)[i] == if offset <= from + i < offset + data.len()
                && from + i < (offset as int / 512 + k) * 512 {
                data[from + i - offset]
            } else {
                overlaid(before, from, under)[i]
            },
{
    let n = page_count(offset, data.len());
    law_reads_see_the_overlay(before, base, from, under, i);
    law_reads_see_the_overlay(after, base, from, under, i);
    if pages_written(before, after, offset, data, below, n) {
        law_write_reads_back(before, after, offset, data, below, n, base, from + i);
    }
    assert forall|k: int|
        0 <= k < n && #[trigger] pages_written(
            before,
            after,
            offset,
            data,
            below,
            k,
        ) implies overlaid(after, from, under)[i] == if offset <= from + i < offset + data.len()
        && from + i < (offset as int / 512 + k) * 512 {
        data[from + i - offset]
    } else {
        overlaid(before, from, under)[i]
    } by {
        law_write_reads_back(before, after, offset, data, below, k, base, from + i);
    }
}

/// The pages of a request are the 512-byte pages that it touches, one after
/// the other.
pub proof fn law_request_covers_the_pages_it_touches(offset: u64, len: usize, k: int)
    requires
        offset + len <= u64::MAX - 511,
        0 <= k < page_spans(offset, len as nat).len(),
    ensures
        ({
            let span = page_spans(offset, len as nat)[k];
            let base = (offset as int / 512 + k) * 512;
            let from = if offset < base {
                base
            } else {
                offset as int
            };
            let to = if offset + len < base + 512 {
                offset + len
            } else {
                base + 512
            };
            &&& span.index * 512 == base
            &&& span.request_start == from - offset
            &&& span.request_end == to - offset
            &&& span.page_start == from - base
            &&& span.page_end == to - base
            &&& page_spans(offset, len as nat).len() == (offset + len + 511) / 512 - offset as int
                / 512
        }),
{
}

/// What one byte of a page holds once its part of a write is patched in.
proof fn lemma_page_after(page: Seq<u8>, offset: u64, data: Seq<u8>, at: int)
    requires
        page.len() == 512,
        offset + data.len() <= u64::MAX - 511,
        data.len() <= usize::MAX,
        0 <= at,
        first_page(offset) <= page_of(at) < first_page(offset) + page_count(offset, data.len()),
    ensures
        page_after(page, offset, data, page_of(at))[at % 512] == (if offset <= at < offset
            + data.len() {
            data[at - offset]
        } else {
            page[at % 512]
        }),
{
    let span = span_in(offset, data.len(), page_of(at));
    law_pages_tile_the_request(offset, data.len() as usize);
    assert(span == page_spans(offset, data.len())[page_of(at) - first_page(offset)]);
}

/// One byte of a page that the device below answered with.
proof fn lemma_page_from_below<E, F: Fn(u64) -> Result<[u8; 512], E>>(
    below: F,
    base: spec_fn(int) -> u8,
    page: [u8; 512],
    at: int,
)
    requires
        answers_with(below, base),
        0 <= at <= u64::MAX,
        call_ensures(below, ((page_of(at) * 512) as u64,), Ok::<[u8; 512], E>(page)),
    ensures
        page@[at % 512] == base(at),
{
    assert(page@[at % 512] == base((page_of(at) * 512) as u64 + at % 512));
}

} // verus!
