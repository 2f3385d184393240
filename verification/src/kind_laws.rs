//! Which blocks are recognised, and what restamping one writes where.
//!
//! The offsets stand here as the formats have them, so that a block that is
//! restamped is restamped where its own readers look.

use vstd::prelude::*;
use crate::apply_laws::{in_runs, is_stamp, law_buffer_item_lands};
use crate::bytes::{lemma_patched, patched};
use crate::checksum::{
    crc32c_of, law_checksum_ignores_its_own_field, law_only_the_field_is_zeroed, with_zeroed_crc,
};
use crate::crc_kind::{first_of, kind, kinds, law_kind_is_known, CrcKind, Magic, Span};
use crate::endian::{
    be16_at, be32_at, be64_at, be64_bytes, le32_at, le32_bytes, lemma_be64_reads_back,
    lemma_le32_reads_back,
};
use crate::error::{BlockFault, Error};
use crate::log_item::{buf_item_at, BufItemView};
use crate::log_write::Op;
use crate::superblock::Superblock;
use crate::task::block_applied;

verus! {

/// The smaller of two lengths.
pub open spec fn smaller(a: int, b: int) -> int {
    if a < b {
        a
    } else {
        b
    }
}

/// Whether the checksum that a block stores at `crc`, little-endian, is the
/// CRC32C of its first `n` bytes with the four bytes of the checksum taken
/// to be zero.
pub open spec fn verifies(buf: Seq<u8>, crc: int, n: int) -> bool {
    &&& crc + 4 < n <= buf.len()
    &&& le32_at(buf, crc) == crc32c_of(
        Seq::new(
            n as nat,
            |i: int|
                if crc <= i < crc + 4 {
                    0u8
                } else {
                    buf[i]
                },
        ),
    )
}

/// Whether a block that opens with its magic keeps its checksum at `crc`,
/// over its first `n` bytes, and its sequence number at `lsn`.
///
/// That is "XAGF" and "XAGI", over a sector; "AB3B", "ABTB", "AB3C" and
/// "ABTC"; "BMA3" and "BMAP"; and "XDD3", "XDB3" and "XDF3".
pub open spec fn leading_format(buf: Seq<u8>, sb: Superblock, crc: int, lsn: int, n: int) -> bool {
    let magic = be32_at(buf, 0);
    let sector = smaller(sb.sectsize as int, buf.len() as int);
    let block = smaller(sb.blocksize as int, buf.len() as int);
    &&& buf.len() >= 4
    &&& {
        ||| magic == 0x5841_4746 && crc == 216 && lsn == 208 && n == sector
        ||| magic == 0x5841_4749 && crc == 312 && lsn == 320 && n == sector
        ||| {
            &&& magic == 0x4142_3342 || magic == 0x4142_5442 || magic == 0x4142_3343 || magic
                == 0x4142_5443
            &&& crc == 52 && lsn == 24 && n == block
        }
        ||| (magic == 0x424d_4133 || magic == 0x424d_4150) && crc == 64 && lsn == 32 && n == block
        ||| {
            &&& magic == 0x5844_4433 || magic == 0x5844_4233 || magic == 0x5844_4633
            &&& crc == 4 && lsn == 16 && n == block
        }
    }
}

/// Whether a block whose 16-bit magic stands behind two sibling pointers
/// keeps its checksum at `crc`, over its first `n` bytes, and its sequence
/// number at `lsn`: the leaves and nodes of a directory index.
pub open spec fn index_format(buf: Seq<u8>, sb: Superblock, crc: int, lsn: int, n: int) -> bool {
    let magic = be16_at(buf, 8);
    &&& buf.len() >= 10
    &&& magic == 0x3df1 || magic == 0x3dff || magic == 0x3ebe
    &&& crc == 12 && lsn == 24 && n == smaller(sb.blocksize as int, buf.len() as int)
}

/// Whether a block has the fields of a format: they are within it, and the
/// checksum verifies.
pub open spec fn fields_hold(buf: Seq<u8>, crc: int, lsn: int, n: int) -> bool {
    &&& lsn + 8 <= buf.len()
    &&& verifies(buf, crc, n)
}

/// What a kind says of a block's checksum is what [`verifies`] says.
proof fn lemma_checksum_verifies(k: CrcKind, buf: Seq<u8>, sb: Superblock)
    requires
        k.crc_off + 4 < k.covered(buf.len(), sb),
    ensures
        verifies(buf, k.crc_off as int, k.covered(buf.len(), sb)) <==> le32_at(
            buf,
            k.crc_off as int,
        ) == k.checksum(buf, sb),
        k.covered(buf.len(), sb) == match k.span {
            Span::Sector => smaller(sb.sectsize as int, buf.len() as int),
            Span::FsBlock => smaller(sb.blocksize as int, buf.len() as int),
        },
{
    let n = k.covered(buf.len(), sb);
    let crc = k.crc_off as int;
    let whole = Seq::new(
        n as nat,
        |i: int|
            if crc <= i < crc + 4 {
                0u8
            } else {
                buf[i]
            },
    );
    law_only_the_field_is_zeroed(buf.take(n), crc);
    assert(with_zeroed_crc(buf.take(n), crc) =~= whole);
}

/// The first kind that describes a block stands before all others that do.
proof fn lemma_first_of_several(list: Seq<CrcKind>, buf: Seq<u8>, sb: Superblock, i: int)
    requires
        0 <= i < list.len(),
        list[i].describes(buf, sb),
    ensures
        exists|j: int|
            0 <= j <= i && first_of(list, buf, sb) == Some(#[trigger] list[j]) && list[j].describes(
                buf,
                sb,
            ),
    decreases list.len(),
{
    if list[0].describes(buf, sb) {
        assert(first_of(list, buf, sb) == Some(list[0]));
    } else {
        let rest = list.drop_first();
        assert(rest[i - 1] == list[i]);
        lemma_first_of_several(rest, buf, sb, i - 1);
        let j = choose|j: int|
            0 <= j <= i - 1 && first_of(rest, buf, sb) == Some(#[trigger] rest[j])
                && rest[j].describes(buf, sb);
        assert(list[j + 1] == rest[j]);
    }
}

/// What a known kind says is what its format says.
#[verifier::rlimit(40)]
proof fn lemma_kind_is_its_format(j: int, buf: Seq<u8>, sb: Superblock)
    requires
        0 <= j < kinds().len(),
    ensures
        kinds().len() == 14,
        ({
            let k = kinds()[j];
            let n = match k.span {
                Span::Sector => smaller(sb.sectsize as int, buf.len() as int),
                Span::FsBlock => smaller(sb.blocksize as int, buf.len() as int),
            };
            let crc = k.crc_off as int;
            let lsn = k.lsn_off as int;
            &&& k.covered(buf.len(), sb) == n
            &&& k.describes(buf, sb) ==> {
                &&& fields_hold(buf, crc, lsn, n)
                &&& j < 11 ==> leading_format(buf, sb, crc, lsn, n)
                &&& j >= 11 ==> index_format(buf, sb, crc, lsn, n)
            }
        }),
{
    let k = kinds()[j];
    if k.describes(buf, sb) {
        lemma_checksum_verifies(k, buf, sb);
    }
}

/// A block with the fields of a leading format is described by the kind of
/// that format.
#[verifier::rlimit(40)]
proof fn lemma_leading_is_described(buf: Seq<u8>, sb: Superblock, crc: int, lsn: int, n: int) -> (j:
    int)
    requires
        leading_format(buf, sb, crc, lsn, n),
        fields_hold(buf, crc, lsn, n),
    ensures
        0 <= j < 11,
        kinds()[j].describes(buf, sb),
        forall|i: int|
            0 <= i < 11 && #[trigger] kinds()[i].describes(buf, sb) ==> kinds()[i].crc_off == crc
                && kinds()[i].lsn_off == lsn && kinds()[i].covered(buf.len(), sb) == n,
{
    let magic = be32_at(buf, 0);
    let j: int = if magic == 0x5841_4746 {
        0
    } else if magic == 0x5841_4749 {
        1
    } else if magic == 0x4142_3342 {
        2
    } else if magic == 0x4142_5442 {
        3
    } else if magic == 0x4142_3343 {
        4
    } else if magic == 0x4142_5443 {
        5
    } else if magic == 0x424d_4133 {
        6
    } else if magic == 0x424d_4150 {
        7
    } else if magic == 0x5844_4433 {
        8
    } else if magic == 0x5844_4233 {
        9
    } else {
        10
    };
    let k = kinds()[j];
    assert(k.magic == Magic::Be32 { off: 0, value: magic });
    assert(k.crc_off == crc && k.lsn_off == lsn && k.covered(buf.len(), sb) == n);
    lemma_checksum_verifies(k, buf, sb);
    assert(k.describes(buf, sb));
    j
}

/// A block with the fields of an index format is described by the kind of
/// that format.
proof fn lemma_index_is_described(buf: Seq<u8>, sb: Superblock, crc: int, lsn: int, n: int) -> (j:
    int)
    requires
        index_format(buf, sb, crc, lsn, n),
        fields_hold(buf, crc, lsn, n),
    ensures
        11 <= j < 14,
        kinds()[j].describes(buf, sb),
{
    let magic = be16_at(buf, 8);
    let j: int = if magic == 0x3df1 {
        11
    } else if magic == 0x3dff {
        12
    } else {
        13
    };
    let k = kinds()[j];
    assert(k.magic == Magic::Be16 { off: 8, value: magic });
    assert(k.crc_off == crc && k.lsn_off == lsn && k.covered(buf.len(), sb) == n);
    lemma_checksum_verifies(k, buf, sb);
    assert(k.describes(buf, sb));
    j
}

/// A block is recognised exactly if it has the magic of a format and the
/// checksum verifies as that format keeps it, and then it is taken to be of
/// that format: its checksum and its sequence number are looked for where
/// the format has them. A magic that the block opens with decides before
/// one that stands further in.
#[verifier::rlimit(40)]
pub proof fn law_block_is_taken_for_its_format(
    buf: Seq<u8>,
    sb: Superblock,
    crc: int,
    lsn: int,
    n: int,
)
    ensures
        kind(buf, sb) matches Some(k) ==> {
            let covered = match k.span {
                Span::Sector => smaller(sb.sectsize as int, buf.len() as int),
                Span::FsBlock => smaller(sb.blocksize as int, buf.len() as int),
            };
            &&& fields_hold(buf, k.crc_off as int, k.lsn_off as int, covered)
            &&& leading_format(buf, sb, k.crc_off as int, k.lsn_off as int, covered)
                || index_format(buf, sb, k.crc_off as int, k.lsn_off as int, covered)
        },
        (leading_format(buf, sb, crc, lsn, n) || index_format(buf, sb, crc, lsn, n))
            && fields_hold(buf, crc, lsn, n) ==> kind(buf, sb) is Some,
        leading_format(buf, sb, crc, lsn, n) && fields_hold(buf, crc, lsn, n) ==> kind(
            buf,
            sb,
        )->0.crc_off == crc && kind(buf, sb)->0.lsn_off == lsn && kind(buf, sb)->0.covered(
            buf.len(),
            sb,
        ) == n,
{
    law_kind_is_known(buf, sb);
    if let Some(k) = kind(buf, sb) {
        let j = choose|j: int| 0 <= j < kinds().len() && kinds()[j] == k;
        lemma_kind_is_its_format(j, buf, sb);
    }
    if fields_hold(buf, crc, lsn, n) {
        if leading_format(buf, sb, crc, lsn, n) {
            let i = lemma_leading_is_described(buf, sb, crc, lsn, n);
            lemma_first_of_several(kinds(), buf, sb, i);
        } else if index_format(buf, sb, crc, lsn, n) {
            let i = lemma_index_is_described(buf, sb, crc, lsn, n);
            lemma_first_of_several(kinds(), buf, sb, i);
        }
    }
}

/// Restamping writes the sequence number, big-endian, and then the checksum
/// of what the block says with it, and nothing else.
#[verifier::rlimit(40)]
pub proof fn law_restamping_writes_two_fields(
    k: CrcKind,
    buf: Seq<u8>,
    sb: Superblock,
    lsn: u64,
    n: int,
)
    requires
        n == match k.span {
            Span::Sector => smaller(sb.sectsize as int, buf.len() as int),
            Span::FsBlock => smaller(sb.blocksize as int, buf.len() as int),
        },
        k.crc_off + 4 < n,
        k.lsn_off + 8 <= buf.len(),
        k.crc_off + 4 <= k.lsn_off || k.lsn_off + 8 <= k.crc_off,
    ensures
        ({
            let after = k.restamped(buf, sb, lsn);
            &&& after.len() == buf.len()
            &&& be64_at(after, k.lsn_off as int) == lsn
            &&& verifies(after, k.crc_off as int, n)
            &&& forall|i: int|
                0 <= i < buf.len() && !(k.lsn_off <= i < k.lsn_off + 8) && !(k.crc_off <= i
                    < k.crc_off + 4) ==> #[trigger] after[i] == buf[i]
        }),
{
    let numbered = patched(buf, k.lsn_off as int, be64_bytes(lsn));
    let crc = k.checksum(numbered, sb);
    let after = k.restamped(buf, sb, lsn);
    lemma_patched(buf, k.lsn_off as int, be64_bytes(lsn));
    lemma_patched(numbered, k.crc_off as int, le32_bytes(crc));
    assert(after.subrange(k.lsn_off as int, k.lsn_off + 8) =~= be64_bytes(lsn));
    lemma_be64_reads_back(after, k.lsn_off as int, lsn);
    lemma_le32_reads_back(after, k.crc_off as int, crc);
    assert(after.take(n) =~= patched(numbered.take(n), k.crc_off as int, le32_bytes(crc)));
    law_checksum_ignores_its_own_field(numbered.take(n), k.crc_off as int, le32_bytes(crc));
    lemma_checksum_verifies(k, after, sb);
}

/// A buffer item applied to a block of a known format leaves the
/// transaction's sequence number and a checksum that verifies where that
/// format keeps them. The identity of the block, its UUID and its address
/// among it, changes only if the item says so: every other byte outside the
/// item's runs is as it was. A block of no known format is refused.
#[verifier::rlimit(40)]
pub proof fn law_applied_block_keeps_to_its_format(
    sb: Superblock,
    ops: Seq<Op>,
    at: int,
    item: BufItemView,
    size: usize,
    buf: Seq<u8>,
    lsn: u64,
    crc_at: int,
    lsn_at: int,
    n: int,
)
    requires
        0 <= at < ops.len(),
        buf_item_at(ops, at) == Ok::<(BufItemView, usize), Error>((item, size)),
    ensures
        ({
            let outcome = block_applied(sb, item, ops.subrange(at + 1, at + size), buf, lsn);
            let leads = leading_format(buf, sb, crc_at, lsn_at, n) && fields_hold(
                buf,
                crc_at,
                lsn_at,
                n,
            );
            &&& outcome matches Ok(after) ==> {
                &&& after.len() == buf.len()
                &&& leads ==> {
                    &&& be64_at(after, lsn_at) == lsn
                    &&& verifies(after, crc_at, n)
                    &&& forall|i: int|
                        0 <= i < buf.len() && !in_runs(item.runs, i) && !(lsn_at <= i < lsn_at + 8)
                            && !(crc_at <= i < crc_at + 4) ==> #[trigger] after[i] == buf[i]
                }
                &&& {
                    let k = kind(buf, sb)->0;
                    let covered = match k.span {
                        Span::Sector => smaller(sb.sectsize as int, buf.len() as int),
                        Span::FsBlock => smaller(sb.blocksize as int, buf.len() as int),
                    };
                    &&& kind(buf, sb) is Some
                    &&& be64_at(after, k.lsn_off as int) == lsn
                    &&& verifies(after, k.crc_off as int, covered)
                }
            }
            &&& kind(buf, sb) is None ==> outcome == Err::<Seq<u8>, Error>(
                Error::BadSuperblock(
                    BlockFault::UnknownChecksumKind { blkno: item.blkno, magic: be32_at(buf, 0) },
                ),
            )
        }),
{
    let outcome = block_applied(sb, item, ops.subrange(at + 1, at + size), buf, lsn);
    if let Ok(after) = outcome {
        law_buffer_item_lands(sb, ops, at, item, size, buf, lsn, after);
        law_block_is_taken_for_its_format(buf, sb, crc_at, lsn_at, n);
        let k = kind(buf, sb)->0;
        lemma_checksum_verifies(k, after, sb);
        assert forall|i: int|
            0 <= i < buf.len() && !in_runs(item.runs, i) && !(k.lsn_off <= i < k.lsn_off + 8) && !(
            k.crc_off <= i < k.crc_off + 4) implies #[trigger] after[i] == buf[i] by {
            assert(!is_stamp(k, i));
        }
    }
}

/// A block is of a kind exactly if the kind's fields are within it, it
/// carries the kind's magic, big-endian and of the width that the kind says,
/// and the checksum verifies over a sector or a filesystem block, as the
/// kind says, or over all there is if that is less.
pub proof fn law_kind_describes_what_it_says(k: CrcKind, buf: Seq<u8>, sb: Superblock)
    ensures
        ({
            let n = match k.span {
                Span::Sector => smaller(sb.sectsize as int, buf.len() as int),
                Span::FsBlock => smaller(sb.blocksize as int, buf.len() as int),
            };
            k.describes(buf, sb) <==> {
                &&& k.lsn_off + 8 <= buf.len()
                &&& verifies(buf, k.crc_off as int, n)
                &&& match k.magic {
                    Magic::Be32 { off, value } => off + 4 <= buf.len() && be32_at(buf, off as int)
                        == value,
                    Magic::Be16 { off, value } => off + 2 <= buf.len() && be16_at(buf, off as int)
                        == value,
                }
            }
        }),
{
    if k.crc_off + 4 < k.covered(buf.len(), sb) {
        lemma_checksum_verifies(k, buf, sb);
    }
}

/// A block that is too short to hold a kind's sequence number gets none:
/// only the checksum is written.
pub proof fn law_short_block_gets_no_number(
    k: CrcKind,
    buf: Seq<u8>,
    sb: Superblock,
    lsn: u64,
    n: int,
)
    requires
        n == match k.span {
            Span::Sector => smaller(sb.sectsize as int, buf.len() as int),
            Span::FsBlock => smaller(sb.blocksize as int, buf.len() as int),
        },
        k.crc_off + 4 < n,
        k.lsn_off + 8 > buf.len(),
    ensures
        ({
            let after = k.restamped(buf, sb, lsn);
            &&& after.len() == buf.len()
            &&& verifies(after, k.crc_off as int, n)
            &&& forall|i: int|
                0 <= i < buf.len() && !(k.crc_off <= i < k.crc_off + 4) ==> #[trigger] after[i]
                    == buf[i]
        }),
{
    let crc = k.checksum(buf, sb);
    let after = k.restamped(buf, sb, lsn);
    lemma_patched(buf, k.crc_off as int, le32_bytes(crc));
    lemma_le32_reads_back(after, k.crc_off as int, crc);
    assert(after.take(n) =~= patched(buf.take(n), k.crc_off as int, le32_bytes(crc)));
    law_checksum_ignores_its_own_field(buf.take(n), k.crc_off as int, le32_bytes(crc));
    lemma_checksum_verifies(k, after, sb);
}

} // verus!
