//! Metadata blocks whose checksum can be restamped.
//!
//! A v5 block's checksum covers the block with the checksum field zeroed,
//! over a sector for allocation group headers and over a filesystem block
//! for everything else. Restamping is only right if the offset and the span
//! are the ones the writer used, so a kind is recognised by its magic and
//! by its stored checksum coming out of the block's own bytes.

use vstd::prelude::*;
use crate::bmbt::{CRC as BMBT_CRC, LSN as BMBT_LSN, XFS_BMAP_CRC_MAGIC, XFS_BMAP_MAGIC};
use crate::bytes::{lemma_patched, patched, put};
use crate::checksum::{
    crc32c_of, crc32c_with_zeroed_crc, law_checksum_ignores_its_own_field, with_zeroed_crc,
};
use crate::endian::{
    be16, be16_at, be32, be32_at, be64_at, be64_bytes, le32, le32_at, le32_bytes,
    lemma_be64_reads_back, lemma_le32_reads_back, lemma_same_bytes_same_field, to_be64, to_le32,
};
use crate::format::blocks::{
    AGF_CRC, AGF_LSN, AGI_CRC, AGI_LSN, ALLOC_BTREE_CRC, ALLOC_BTREE_LSN, DA_BLK_CRC, DA_BLK_LSN,
    DA_BLK_MAGIC, DIR3_BLK_CRC, DIR3_BLK_LSN, DIR3_BLK_MAGIC, XFS_ABTB_CRC_MAGIC, XFS_ABTB_MAGIC,
    XFS_ABTC_CRC_MAGIC, XFS_ABTC_MAGIC, XFS_AGF_MAGIC, XFS_AGI_MAGIC, XFS_DA3_NODE_MAGIC,
    XFS_DIR3_BLOCK_MAGIC, XFS_DIR3_DATA_MAGIC, XFS_DIR3_FREE_MAGIC, XFS_DIR3_LEAF1_MAGIC,
    XFS_DIR3_LEAFN_MAGIC,
};
use crate::superblock::Superblock;

verus! {

/// A block's type marker: where it sits, and how wide it is.
///
/// Index blocks lead with two sibling pointers, so their magic is a `u16`
/// further into the header; every other kind opens with a `u32`.
#[allow(inconsistent_fields)]
#[derive(Debug, Clone, Copy, PartialEq, Eq)]
pub enum Magic {
    Be32 { off: usize, value: u32 },
    Be16 { off: usize, value: u16 },
}

impl Magic {
    /// How far into a block the marker reaches.
    pub open spec fn end(self) -> int {
        match self {
            Magic::Be32 { off, .. } => off + 4,
            Magic::Be16 { off, .. } => off + 2,
        }
    }

    /// Where the marker starts.
    pub open spec fn start(self) -> int {
        match self {
            Magic::Be32 { off, .. } => off as int,
            Magic::Be16 { off, .. } => off as int,
        }
    }

    /// Whether a block carries the marker.
    pub open spec fn marks(self, buf: Seq<u8>) -> bool {
        &&& self.end() <= buf.len()
        &&& match self {
            Magic::Be32 { off, value } => be32_at(buf, off as int) == value,
            Magic::Be16 { off, value } => be16_at(buf, off as int) == value,
        }
    }

    /// Whether `buf` carries the marker.
    pub fn is_at(&self, buf: &[u8]) -> (r: bool)
        requires
            self.end() <= usize::MAX,
        ensures
            r == self.marks(buf@),
    {
        match self {
            Magic::Be32 { off, value } => buf.len() >= *off + 4 && be32(buf, *off) == *value,
            Magic::Be16 { off, value } => buf.len() >= *off + 2 && be16(buf, *off) == *value,
        }
    }

    /// How far into a block the marker reaches.
    pub fn reach(&self) -> (r: usize)
        requires
            self.end() <= usize::MAX,
        ensures
            r == self.end(),
    {
        match self {
            Magic::Be32 { off, .. } => *off + 4,
            Magic::Be16 { off, .. } => *off + 2,
        }
    }
}

/// How much of a block its checksum covers.
#[derive(Debug, Clone, Copy, PartialEq, Eq)]
pub enum Span {
    Sector,
    FsBlock,
}

/// A kind of block whose checksum can be restamped: its marker, where its
/// checksum and its sequence number sit, and what the checksum covers.
#[derive(Debug, Clone, Copy, PartialEq, Eq)]
pub struct CrcKind {
    pub magic: Magic,
    pub crc_off: usize,
    pub lsn_off: usize,
    pub span: Span,
}

/// The larger of two lengths.
pub open spec fn larger(a: int, b: int) -> int {
    if a < b {
        b
    } else {
        a
    }
}

impl CrcKind {
    /// A kind's fields are within anything that can be held in memory.
    pub open spec fn valid(self) -> bool {
        &&& self.magic.end() <= usize::MAX
        &&& self.crc_off + 4 < usize::MAX
        &&& self.lsn_off + 8 <= usize::MAX
    }

    /// The length of the header that this kind needs intact.
    pub open spec fn header(self) -> int {
        larger(larger(self.magic.end(), self.crc_off + 4), self.lsn_off + 8)
    }

    /// How many of `len` bytes the checksum of this kind covers.
    pub open spec fn covered(self, len: nat, sb: Superblock) -> int {
        let full = match self.span {
            Span::Sector => sb.sectsize as int,
            Span::FsBlock => sb.blocksize as int,
        };
        if full < len {
            full
        } else {
            len as int
        }
    }

    /// The checksum that the bytes of a block have.
    pub open spec fn checksum(self, buf: Seq<u8>, sb: Superblock) -> u32 {
        crc32c_of(with_zeroed_crc(buf.take(self.covered(buf.len(), sb)), self.crc_off as int))
    }

    /// Whether a block is of this kind: it carries the marker, and the
    /// checksum it stores is the one its bytes have.
    pub open spec fn describes(self, buf: Seq<u8>, sb: Superblock) -> bool {
        &&& self.header() <= buf.len()
        &&& self.magic.marks(buf)
        &&& self.crc_off + 4 < self.covered(buf.len(), sb)
        &&& le32_at(buf, self.crc_off as int) == self.checksum(buf, sb)
    }

    /// A block with this sequence number stamped into it, and then the
    /// checksum that its bytes have.
    pub open spec fn restamped(self, buf: Seq<u8>, sb: Superblock, lsn: u64) -> Seq<u8> {
        let numbered = if self.lsn_off + 8 <= buf.len() {
            patched(buf, self.lsn_off as int, be64_bytes(lsn))
        } else {
            buf
        };
        patched(numbered, self.crc_off as int, le32_bytes(self.checksum(numbered, sb)))
    }

    /// How many bytes of `buf` the checksum of this kind covers.
    pub fn span(&self, buf: &[u8], sb: &Superblock) -> (r: usize)
        ensures
            r == self.covered(buf@.len(), *sb),
            r <= buf@.len(),
    {
        let full: usize = match self.span {
            Span::Sector => sb.sectsize as usize,
            Span::FsBlock => sb.blocksize as usize,
        };
        if full < buf.len() {
            full
        } else {
            buf.len()
        }
    }

    /// The length of the header that this kind needs intact, so that a
    /// short buffer is not read past its end.
    pub fn reach(&self) -> (r: usize)
        requires
            self.valid(),
        ensures
            r == self.header(),
    {
        let mut r: usize = self.magic.reach();
        if r < self.crc_off + 4 {
            r = self.crc_off + 4;
        }
        if r < self.lsn_off + 8 {
            r = self.lsn_off + 8;
        }
        r
    }

    /// Whether `buf` is a block of this kind.
    ///
    /// The magic decides the kind; the checksum then decides that this
    /// kind's offsets are the ones the writer used.
    pub fn matches(&self, buf: &[u8], sb: &Superblock) -> (r: bool)
        requires
            self.valid(),
        ensures
            r == self.describes(buf@, *sb),
    {
        if buf.len() < self.reach() {
            return false;
        }
        if !self.magic.is_at(buf) {
            return false;
        }
        let span: usize = self.span(buf, sb);
        if span <= self.crc_off + 4 {
            return false;
        }
        let covered = vstd::slice::slice_subrange(buf, 0, span);
        assert(covered@ =~= buf@.take(span as int));
        le32(buf, self.crc_off) == crc32c_with_zeroed_crc(covered, self.crc_off)
    }

    /// Stamp a sequence number in, then recompute the checksum over what
    /// the block now says. Stamping afterwards would leave a checksum over
    /// bytes that are no longer there.
    pub fn restamp(&self, buf: &mut Vec<u8>, sb: &Superblock, lsn: u64)
        requires
            self.valid(),
            self.crc_off + 4 <= self.covered(old(buf)@.len(), *sb),
        ensures
            final(buf)@ == self.restamped(old(buf)@, *sb, lsn),
    {
        if buf.len() >= self.lsn_off + 8 {
            put(buf, self.lsn_off, &to_be64(lsn));
        }
        let span: usize = self.span(buf, sb);
        let ghost numbered = buf@;
        let covered = vstd::slice::slice_subrange(buf, 0, span);
        assert(covered@ =~= numbered.take(span as int));
        let crc = crc32c_with_zeroed_crc(covered, self.crc_off);
        put(buf, self.crc_off, &to_le32(crc));
    }
}

/// A kind that opens with a 32-bit magic.
pub open spec fn leading(value: u32, crc_off: usize, lsn_off: usize, span: Span) -> CrcKind {
    CrcKind { magic: Magic::Be32 { off: 0, value }, crc_off, lsn_off, span }
}

/// A kind whose 16-bit magic stands behind two sibling pointers.
pub open spec fn indexed(value: u16) -> CrcKind {
    CrcKind {
        magic: Magic::Be16 { off: DA_BLK_MAGIC, value },
        crc_off: DA_BLK_CRC,
        lsn_off: DA_BLK_LSN,
        span: Span::FsBlock,
    }
}

/// The kinds whose checksum layout is known, in the order in which they are
/// tried.
pub open spec fn kinds() -> Seq<CrcKind> {
    seq![
        leading(XFS_AGF_MAGIC, AGF_CRC, AGF_LSN, Span::Sector),
        leading(XFS_AGI_MAGIC, AGI_CRC, AGI_LSN, Span::Sector),
        leading(XFS_ABTB_CRC_MAGIC, ALLOC_BTREE_CRC, ALLOC_BTREE_LSN, Span::FsBlock),
        leading(XFS_ABTB_MAGIC, ALLOC_BTREE_CRC, ALLOC_BTREE_LSN, Span::FsBlock),
        leading(XFS_ABTC_CRC_MAGIC, ALLOC_BTREE_CRC, ALLOC_BTREE_LSN, Span::FsBlock),
        leading(XFS_ABTC_MAGIC, ALLOC_BTREE_CRC, ALLOC_BTREE_LSN, Span::FsBlock),
        leading(XFS_BMAP_CRC_MAGIC, BMBT_CRC, BMBT_LSN, Span::FsBlock),
        leading(XFS_BMAP_MAGIC, BMBT_CRC, BMBT_LSN, Span::FsBlock),
        leading(XFS_DIR3_DATA_MAGIC, DIR3_BLK_CRC, DIR3_BLK_LSN, Span::FsBlock),
        leading(XFS_DIR3_BLOCK_MAGIC, DIR3_BLK_CRC, DIR3_BLK_LSN, Span::FsBlock),
        leading(XFS_DIR3_FREE_MAGIC, DIR3_BLK_CRC, DIR3_BLK_LSN, Span::FsBlock),
        indexed(XFS_DIR3_LEAF1_MAGIC),
        indexed(XFS_DIR3_LEAFN_MAGIC),
        indexed(XFS_DA3_NODE_MAGIC),
    ]
}

/// The first of some kinds that describes a block.
pub open spec fn first_of(kinds: Seq<CrcKind>, buf: Seq<u8>, sb: Superblock) -> Option<CrcKind>
    decreases kinds.len(),
{
    if kinds.len() == 0 {
        None
    } else if kinds[0].describes(buf, sb) {
        Some(kinds[0])
    } else {
        first_of(kinds.drop_first(), buf, sb)
    }
}

/// The kind of a block, if its checksum layout is known.
pub open spec fn kind(buf: Seq<u8>, sb: Superblock) -> Option<CrcKind> {
    first_of(kinds(), buf, sb)
}

/// A kind that opens with a 32-bit magic.
fn leading_kind(value: u32, crc_off: usize, lsn_off: usize, span: Span) -> (r: CrcKind)
    ensures
        r == leading(value, crc_off, lsn_off, span),
{
    CrcKind { magic: Magic::Be32 { off: DIR3_BLK_MAGIC, value }, crc_off, lsn_off, span }
}

/// A kind whose 16-bit magic stands behind two sibling pointers.
fn indexed_kind(value: u16) -> (r: CrcKind)
    ensures
        r == indexed(value),
{
    CrcKind {
        magic: Magic::Be16 { off: DA_BLK_MAGIC, value },
        crc_off: DA_BLK_CRC,
        lsn_off: DA_BLK_LSN,
        span: Span::FsBlock,
    }
}

/// The kinds whose checksum layout is known, in the order in which they are
/// tried.
pub fn crc_kinds() -> (r: Vec<CrcKind>)
    ensures
        r@ == kinds(),
        forall|k: int| 0 <= k < r@.len() ==> (#[trigger] r@[k]).valid(),
{
    let r = vec![
        leading_kind(XFS_AGF_MAGIC, AGF_CRC, AGF_LSN, Span::Sector),
        leading_kind(XFS_AGI_MAGIC, AGI_CRC, AGI_LSN, Span::Sector),
        leading_kind(XFS_ABTB_CRC_MAGIC, ALLOC_BTREE_CRC, ALLOC_BTREE_LSN, Span::FsBlock),
        leading_kind(XFS_ABTB_MAGIC, ALLOC_BTREE_CRC, ALLOC_BTREE_LSN, Span::FsBlock),
        leading_kind(XFS_ABTC_CRC_MAGIC, ALLOC_BTREE_CRC, ALLOC_BTREE_LSN, Span::FsBlock),
        leading_kind(XFS_ABTC_MAGIC, ALLOC_BTREE_CRC, ALLOC_BTREE_LSN, Span::FsBlock),
        leading_kind(XFS_BMAP_CRC_MAGIC, BMBT_CRC, BMBT_LSN, Span::FsBlock),
        leading_kind(XFS_BMAP_MAGIC, BMBT_CRC, BMBT_LSN, Span::FsBlock),
        leading_kind(XFS_DIR3_DATA_MAGIC, DIR3_BLK_CRC, DIR3_BLK_LSN, Span::FsBlock),
        leading_kind(XFS_DIR3_BLOCK_MAGIC, DIR3_BLK_CRC, DIR3_BLK_LSN, Span::FsBlock),
        leading_kind(XFS_DIR3_FREE_MAGIC, DIR3_BLK_CRC, DIR3_BLK_LSN, Span::FsBlock),
        indexed_kind(XFS_DIR3_LEAF1_MAGIC),
        indexed_kind(XFS_DIR3_LEAFN_MAGIC),
        indexed_kind(XFS_DA3_NODE_MAGIC),
    ];
    assert(r@ =~= kinds());
    r
}

/// The kind of `buf`, if its checksum layout is known.
pub fn kind_of(buf: &[u8], sb: &Superblock) -> (r: Option<CrcKind>)
    ensures
        r == kind(buf@, *sb),
        r matches Some(k) ==> k.valid() && k.describes(buf@, *sb),
{
    let all = crc_kinds();
    let mut i: usize = 0;
    assert(all@.skip(0) =~= all@);
    while i < all.len()
        invariant
            i <= all@.len(),
            all@ == kinds(),
            forall|k: int| 0 <= k < all@.len() ==> (#[trigger] all@[k]).valid(),
            kind(buf@, *sb) == first_of(all@.skip(i as int), buf@, *sb),
        decreases all@.len() - i,
    {
        let k = all[i];
        assert(all@.skip(i as int)[0] == k);
        assert(all@.skip(i as int).drop_first() =~= all@.skip(i + 1));
        if k.matches(buf, sb) {
            return Some(k);
        }
        i += 1;
    }
    None
}

/// Every kind's header is laid out so that its fields do not overlap, and
/// the magic comes before the other two.
pub proof fn law_kinds_are_laid_out(k: int)
    requires
        0 <= k < kinds().len(),
    ensures
        ({
            let kind = kinds()[k];
            &&& kind.valid()
            &&& kind.crc_off + 4 <= kind.lsn_off || kind.lsn_off + 8 <= kind.crc_off
            &&& kind.magic.end() <= kind.crc_off
            &&& kind.magic.end() <= kind.lsn_off
        }),
{
}

/// The kind that a block is found to be is one of the known ones, and it
/// describes the block.
pub proof fn law_kind_is_known(buf: Seq<u8>, sb: Superblock)
    ensures
        kind(buf, sb) matches Some(k) ==> kinds().contains(k) && k.describes(buf, sb),
        kind(buf, sb) is None ==> forall|i: int|
            0 <= i < kinds().len() ==> !(#[trigger] kinds()[i]).describes(buf, sb),
{
    lemma_first_is_known(kinds(), buf, sb);
}

/// The same of any list of kinds.
proof fn lemma_first_is_known(list: Seq<CrcKind>, buf: Seq<u8>, sb: Superblock)
    ensures
        first_of(list, buf, sb) matches Some(k) ==> list.contains(k) && k.describes(buf, sb),
        first_of(list, buf, sb) is None ==> forall|i: int|
            0 <= i < list.len() ==> !(#[trigger] list[i]).describes(buf, sb),
    decreases list.len(),
{
    if list.len() > 0 {
        let rest = list.drop_first();
        lemma_first_is_known(rest, buf, sb);
        assert forall|k: CrcKind| rest.contains(k) implies list.contains(k) by {
            let j = choose|j: int| 0 <= j < rest.len() && rest[j] == k;
            assert(list[j + 1] == k);
        }
        if first_of(list, buf, sb) is None {
            assert forall|i: int| 0 <= i < list.len() implies !(#[trigger] list[i]).describes(
                buf,
                sb,
            ) by {
                if i > 0 {
                    assert(rest[i - 1] == list[i]);
                }
            }
        }
    }
}

/// A restamped block carries the sequence number it was given and a
/// checksum that verifies, and differs from the block as it was nowhere
/// else.
pub proof fn law_restamped_block_verifies(k: CrcKind, buf: Seq<u8>, sb: Superblock, lsn: u64)
    requires
        kinds().contains(k),
        k.header() <= buf.len(),
        k.crc_off + 4 < k.covered(buf.len(), sb),
    ensures
        ({
            let after = k.restamped(buf, sb, lsn);
            &&& after.len() == buf.len()
            &&& be64_at(after, k.lsn_off as int) == lsn
            &&& le32_at(after, k.crc_off as int) == k.checksum(after, sb)
            &&& k.magic.marks(buf) ==> k.describes(after, sb)
            &&& forall|i: int|
                0 <= i < buf.len() && !(k.lsn_off <= i < k.lsn_off + 8) && !(k.crc_off <= i
                    < k.crc_off + 4) ==> after[i] == buf[i]
        }),
{
    let at = choose|at: int| 0 <= at < kinds().len() && kinds()[at] == k;
    law_kinds_are_laid_out(at);
    let numbered = patched(buf, k.lsn_off as int, be64_bytes(lsn));
    let crc = k.checksum(numbered, sb);
    let after = k.restamped(buf, sb, lsn);
    lemma_patched(buf, k.lsn_off as int, be64_bytes(lsn));
    lemma_patched(numbered, k.crc_off as int, le32_bytes(crc));
    assert(after.subrange(k.lsn_off as int, k.lsn_off + 8) =~= be64_bytes(lsn));
    lemma_be64_reads_back(after, k.lsn_off as int, lsn);
    lemma_le32_reads_back(after, k.crc_off as int, crc);
    let n = k.covered(buf.len(), sb);
    assert(after.take(n) =~= patched(numbered.take(n), k.crc_off as int, le32_bytes(crc)));
    law_checksum_ignores_its_own_field(numbered.take(n), k.crc_off as int, le32_bytes(crc));
    lemma_same_bytes_same_field(after, buf, k.magic.start());
}

} // verus!
