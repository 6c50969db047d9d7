//! On-disk records, field by field.
use crate::blobchunk::ChunkIndex;
use crate::bytes;
use crate::inode;
use crate::metadata;
use crate::metadata::{ErofsDirent, ErofsInode, ErofsSuperblock};
use crate::ondisk;
use vstd::prelude::*;

verus! {

// ---------------------------------------------------------------------------
// Integers
// ---------------------------------------------------------------------------

/// The two bytes of an integer are its digits to the base 256, lowest first.
pub proof fn law_two_digits(v: u16)
    ensures
        bytes::le16(v).len() == 2,
        bytes::le16(v)[0] + 256 * bytes::le16(v)[1] == v,
{
}

/// The four bytes of an integer are its digits to the base 256, lowest first.
pub proof fn law_four_digits(v: u32)
    ensures
        bytes::le32(v).len() == 4,
        bytes::le32(v)[0] + 256 * bytes::le32(v)[1] + 65536 * bytes::le32(v)[2] + 16777216
            * bytes::le32(v)[3] == v,
{
}

/// The eight bytes of an integer are the four of its low half and the four of
/// its high half.
pub proof fn law_eight_digits(v: u64)
    ensures
        bytes::le64(v).len() == 8,
        bytes::le64(v).subrange(0, 4) == bytes::le32((v % 0x1_0000_0000) as u32),
        bytes::le64(v).subrange(4, 8) == bytes::le32((v / 0x1_0000_0000) as u32),
{
    assert(bytes::le64(v).subrange(0, 4) =~= bytes::le32((v % 0x1_0000_0000) as u32));
    assert(bytes::le64(v).subrange(4, 8) =~= bytes::le32((v / 0x1_0000_0000) as u32));
}

/// Reading an integer adds up its digits to the base 256.
pub proof fn law_digits_are_read(s: Seq<u8>, at: int)
    ensures
        bytes::get16(s, at) == s[at] + 256 * s[at + 1],
        bytes::get32(s, at) == s[at] + 256 * s[at + 1] + 65536 * s[at + 2] + 16777216 * s[at + 3],
        bytes::get64(s, at) == s[at] + 256 * s[at + 1] + 65536 * s[at + 2] + 16777216 * s[at + 3]
            + 0x1_0000_0000 * (s[at + 4] + 256 * s[at + 5] + 65536 * s[at + 6] + 16777216 * s[at
            + 7]),
{
}

/// Copying changes the bytes that are copied to, and no others.
pub proof fn law_splice(s: Seq<u8>, at: int, b: Seq<u8>, i: int)
    requires
        0 <= at <= s.len() - b.len(),
        0 <= i < s.len(),
    ensures
        bytes::splice(s, at, b).len() == s.len(),
        bytes::splice(s, at, b).subrange(at, at + b.len()) == b,
        i < at || i >= at + b.len() ==> bytes::splice(s, at, b)[i] == s[i],
{
    assert(bytes::splice(s, at, b).subrange(at, at + b.len()) =~= b);
}

/// Dividing and rounding up gives the least number of parts that suffices.
pub proof fn law_least_parts(a: int, b: int)
    requires
        a >= 0,
        b > 0,
    ensures
        ondisk::ceil_div(a, b) >= 0,
        ondisk::ceil_div(a, b) * b >= a,
        ondisk::ceil_div(a, b) > 0 ==> (ondisk::ceil_div(a, b) - 1) * b < a,
        a == 0 <==> ondisk::ceil_div(a, b) == 0,
{
    let x = a + b - 1;
    let q = x / b;
    vstd::arithmetic::div_mod::lemma_fundamental_div_mod(x, b);
    vstd::arithmetic::div_mod::lemma_mod_bound(x, b);
    vstd::arithmetic::mul::lemma_mul_is_commutative(b, q);
    vstd::arithmetic::mul::lemma_mul_is_distributive_sub_other_way(b, q, 1);
    vstd::arithmetic::div_mod::lemma_div_pos_is_pos(x, b);
    if a == 0 {
        vstd::arithmetic::div_mod::lemma_small_mod((b - 1) as nat, b as nat);
        vstd::arithmetic::div_mod::lemma_basic_div(b - 1, b);
    }
    if q == 0 {
        assert(q * b == 0) by (nonlinear_arith)
            requires
                q == 0,
        ;
    }
}

// ---------------------------------------------------------------------------
// Written records
// ---------------------------------------------------------------------------

/// Where the fields of a compact inode are; everything else is zero.
#[verifier::spinoff_prover]
#[verifier::rlimit(40)]
pub proof fn law_compact_inode_fields(
    i_format: u16,
    i_mode: u16,
    i_nb: u16,
    i_size: u32,
    i_mtime: u32,
    i_u: u32,
    i_ino: u32,
    i_uid: u16,
    i_gid: u16,
)
    ensures
        ({
            let b = ondisk::compact_inode(
                i_format,
                i_mode,
                i_nb,
                i_size,
                i_mtime,
                i_u,
                i_ino,
                i_uid,
                i_gid,
            );
            &&& b.len() == 32
            &&& b.subrange(0, 2) == bytes::le16(i_format)
            &&& b[2] == 0 && b[3] == 0
            &&& b.subrange(4, 6) == bytes::le16(i_mode)
            &&& b.subrange(6, 8) == bytes::le16(i_nb)
            &&& b.subrange(8, 12) == bytes::le32(i_size)
            &&& b.subrange(12, 16) == bytes::le32(i_mtime)
            &&& b.subrange(16, 20) == bytes::le32(i_u)
            &&& b.subrange(20, 24) == bytes::le32(i_ino)
            &&& b.subrange(24, 26) == bytes::le16(i_uid)
            &&& b.subrange(26, 28) == bytes::le16(i_gid)
            &&& b[28] == 0 && b[29] == 0 && b[30] == 0 && b[31] == 0
        }),
{
    let b = ondisk::compact_inode(i_format, i_mode, i_nb, i_size, i_mtime, i_u, i_ino, i_uid, i_gid);
    assert(b.subrange(0, 2) =~= bytes::le16(i_format));
    assert(b.subrange(4, 6) =~= bytes::le16(i_mode));
    assert(b.subrange(6, 8) =~= bytes::le16(i_nb));
    assert(b.subrange(8, 12) =~= bytes::le32(i_size));
    assert(b.subrange(12, 16) =~= bytes::le32(i_mtime));
    assert(b.subrange(16, 20) =~= bytes::le32(i_u));
    assert(b.subrange(20, 24) =~= bytes::le32(i_ino));
    assert(b.subrange(24, 26) =~= bytes::le16(i_uid));
    assert(b.subrange(26, 28) =~= bytes::le16(i_gid));
}

/// Where the fields of an extended inode are; everything else is zero.
#[verifier::spinoff_prover]
#[verifier::rlimit(40)]
pub proof fn law_extended_inode_fields(
    i_format: u16,
    i_mode: u16,
    i_nb: u16,
    i_size: u64,
    i_u: u32,
    i_ino: u32,
    i_uid: u32,
    i_gid: u32,
    i_mtime: u64,
    i_mtime_nsec: u32,
    i_nlink: u32,
)
    ensures
        ({
            let b = ondisk::extended_inode(
                i_format,
                i_mode,
                i_nb,
                i_size,
                i_u,
                i_ino,
                i_uid,
                i_gid,
                i_mtime,
                i_mtime_nsec,
                i_nlink,
            );
            &&& b.len() == 64
            &&& b.subrange(0, 2) == bytes::le16(i_format)
            &&& b[2] == 0 && b[3] == 0
            &&& b.subrange(4, 6) == bytes::le16(i_mode)
            &&& b.subrange(6, 8) == bytes::le16(i_nb)
            &&& b.subrange(8, 16) == bytes::le64(i_size)
            &&& b.subrange(16, 20) == bytes::le32(i_u)
            &&& b.subrange(20, 24) == bytes::le32(i_ino)
            &&& b.subrange(24, 28) == bytes::le32(i_uid)
            &&& b.subrange(28, 32) == bytes::le32(i_gid)
            &&& b.subrange(32, 40) == bytes::le64(i_mtime)
            &&& b.subrange(40, 44) == bytes::le32(i_mtime_nsec)
            &&& b.subrange(44, 48) == bytes::le32(i_nlink)
            &&& forall|i: int| 48 <= i < 64 ==> #[trigger] b[i] == 0
        }),
{
    let b = ondisk::extended_inode(
        i_format,
        i_mode,
        i_nb,
        i_size,
        i_u,
        i_ino,
        i_uid,
        i_gid,
        i_mtime,
        i_mtime_nsec,
        i_nlink,
    );
    assert(b.subrange(0, 2) =~= bytes::le16(i_format));
    assert(b.subrange(4, 6) =~= bytes::le16(i_mode));
    assert(b.subrange(6, 8) =~= bytes::le16(i_nb));
    assert(b.subrange(8, 16) =~= bytes::le64(i_size));
    assert(b.subrange(16, 20) =~= bytes::le32(i_u));
    assert(b.subrange(20, 24) =~= bytes::le32(i_ino));
    assert(b.subrange(24, 28) =~= bytes::le32(i_uid));
    assert(b.subrange(28, 32) =~= bytes::le32(i_gid));
    assert(b.subrange(32, 40) =~= bytes::le64(i_mtime));
    assert(b.subrange(40, 44) =~= bytes::le32(i_mtime_nsec));
    assert(b.subrange(44, 48) =~= bytes::le32(i_nlink));
}

/// Where the fields of a chunk index are; a hole is all ones.
pub proof fn law_chunk_index_fields(blkaddr: u64, device_id: u16)
    ensures
        ({
            let b = ondisk::chunk_index(blkaddr, device_id);
            &&& b.len() == 8
            &&& blkaddr != 0xFFFF_FFFF_FFFF_FFFF ==> {
                &&& b.subrange(0, 2) == bytes::le16(((blkaddr / 0x1_0000_0000) % 0x1_0000) as u16)
                &&& b.subrange(2, 4) == bytes::le16(device_id)
                &&& b.subrange(4, 8) == bytes::le32((blkaddr % 0x1_0000_0000) as u32)
            }
            &&& blkaddr == 0xFFFF_FFFF_FFFF_FFFF ==> forall|i: int|
                0 <= i < 8 ==> #[trigger] b[i] == 0xFF
        }),
{
    let b = ondisk::chunk_index(blkaddr, device_id);
    if blkaddr != 0xFFFF_FFFF_FFFF_FFFF {
        assert(b.subrange(0, 2) =~= bytes::le16(
            ((blkaddr / 0x1_0000_0000) % 0x1_0000) as u16,
        ));
        assert(b.subrange(2, 4) =~= bytes::le16(device_id));
        assert(b.subrange(4, 8) =~= bytes::le32((blkaddr % 0x1_0000_0000) as u32));
    }
}

/// Where the fields of a directory entry and of a device slot are; everything
/// else is zero. A slot stores the low half of the block count.
pub proof fn law_dirent_and_slot_fields(nid: u64, nameoff: u16, file_type: u8, blocks: u64)
    ensures
        ({
            let b = ondisk::dirent(nid, nameoff, file_type);
            &&& b.len() == 12
            &&& b.subrange(0, 8) == bytes::le64(nid)
            &&& b.subrange(8, 10) == bytes::le16(nameoff)
            &&& b[10] == file_type
            &&& b[11] == 0
        }),
        ({
            let b = ondisk::device_slot(blocks);
            &&& b.len() == 128
            &&& b.subrange(64, 68) == bytes::le32((blocks % 0x1_0000_0000) as u32)
            &&& forall|i: int| 0 <= i < 128 && !(64 <= i < 68) ==> #[trigger] b[i] == 0
        }),
{
    let b = ondisk::dirent(nid, nameoff, file_type);
    assert(b.subrange(0, 8) =~= bytes::le64(nid));
    assert(b.subrange(8, 10) =~= bytes::le16(nameoff));
    let d = ondisk::device_slot(blocks);
    assert(d.subrange(64, 68) =~= bytes::le32((blocks % 0x1_0000_0000) as u32));
}

/// Where the fields of the superblock are; everything else is zero. The checksum
/// flag is taken out, and nothing else of the feature bits.
#[verifier::spinoff_prover]
#[verifier::rlimit(60)]
pub proof fn law_superblock_fields(
    feature_compat: u32,
    feature_incompat: u32,
    root_nid: u16,
    inos: u64,
    epoch: u64,
    blocks: u64,
    meta_blkaddr: u32,
    extra_devices: u16,
    devt_slotoff: u16,
    uuid: Seq<u8>,
)
    requires
        uuid.len() == 16,
    ensures
        ({
            let b = ondisk::superblock(
                feature_compat,
                feature_incompat,
                root_nid,
                inos,
                epoch,
                blocks,
                meta_blkaddr,
                extra_devices,
                devt_slotoff,
                uuid,
            );
            &&& b.len() == 128
            &&& b.subrange(0, 4) == bytes::le32(0xE0F5_E1E2)
            &&& b.subrange(8, 12) == bytes::le32((feature_compat - feature_compat % 2) as u32)
            &&& b[12] == 12 && b[13] == 0
            &&& b.subrange(14, 16) == bytes::le16(root_nid)
            &&& b.subrange(16, 24) == bytes::le64(inos)
            &&& b.subrange(24, 32) == bytes::le64(epoch)
            &&& b.subrange(36, 40) == bytes::le32((blocks % 0x1_0000_0000) as u32)
            &&& b.subrange(40, 44) == bytes::le32(meta_blkaddr)
            &&& b.subrange(48, 64) == uuid
            &&& b.subrange(80, 84) == bytes::le32(feature_incompat)
            &&& b.subrange(86, 88) == bytes::le16(extra_devices)
            &&& b.subrange(88, 90) == bytes::le16(devt_slotoff)
            &&& forall|i: int|
                (4 <= i < 8 || 32 <= i < 36 || 44 <= i < 48 || 64 <= i < 80 || 84 <= i < 86 || 90
                    <= i < 128) ==> #[trigger] b[i] == 0
        }),
{
    let b = ondisk::superblock(
        feature_compat,
        feature_incompat,
        root_nid,
        inos,
        epoch,
        blocks,
        meta_blkaddr,
        extra_devices,
        devt_slotoff,
        uuid,
    );
    assert(feature_compat & !1u32 == feature_compat - feature_compat % 2) by (bit_vector);
    assert(b.subrange(0, 4) =~= bytes::le32(0xE0F5_E1E2));
    assert(b.subrange(8, 12) =~= bytes::le32((feature_compat - feature_compat % 2) as u32));
    assert(b.subrange(14, 16) =~= bytes::le16(root_nid));
    assert(b.subrange(16, 24) =~= bytes::le64(inos));
    assert(b.subrange(24, 32) =~= bytes::le64(epoch));
    assert(b.subrange(36, 40) =~= bytes::le32((blocks % 0x1_0000_0000) as u32));
    assert(b.subrange(40, 44) =~= bytes::le32(meta_blkaddr));
    assert(b.subrange(48, 64) =~= uuid);
    assert(b.subrange(80, 84) =~= bytes::le32(feature_incompat));
    assert(b.subrange(86, 88) =~= bytes::le16(extra_devices));
    assert(b.subrange(88, 90) =~= bytes::le16(devt_slotoff));
}

// ---------------------------------------------------------------------------
// Read records
// ---------------------------------------------------------------------------

/// A superblock is read from its fields, whatever stands in the other bytes.
#[verifier::spinoff_prover]
#[verifier::rlimit(40)]
pub proof fn law_superblock_reads_fields(s: Seq<u8>, at: int, sb: ErofsSuperblock)
    requires
        0 <= at <= s.len() - 128,
        s.subrange(at, at + 4) == bytes::le32(sb.magic),
        s.subrange(at + 8, at + 12) == bytes::le32(sb.feature_compat),
        s[at + 12] == sb.blkszbits,
        sb.root_nid < 0x1_0000,
        s.subrange(at + 14, at + 16) == bytes::le16(sb.root_nid as u16),
        s.subrange(at + 16, at + 24) == bytes::le64(sb.inos),
        s.subrange(at + 24, at + 32) == bytes::le64(sb.epoch),
        sb.blocks < 0x1_0000_0000,
        s.subrange(at + 36, at + 40) == bytes::le32(sb.blocks as u32),
        s.subrange(at + 40, at + 44) == bytes::le32(sb.meta_blkaddr),
        s.subrange(at + 44, at + 48) == bytes::le32(sb.xattr_blkaddr),
        s.subrange(at + 80, at + 84) == bytes::le32(sb.feature_incompat),
        s.subrange(at + 86, at + 88) == bytes::le16(sb.extra_devices),
        s.subrange(at + 88, at + 90) == bytes::le16(sb.devt_slotoff),
    ensures
        metadata::superblock_at(s, at) == sb,
{
    bytes::lemma_get32(s, at, sb.magic);
    bytes::lemma_get32(s, at + 8, sb.feature_compat);
    bytes::lemma_get16(s, at + 14, sb.root_nid as u16);
    bytes::lemma_get64(s, at + 16, sb.inos);
    bytes::lemma_get64(s, at + 24, sb.epoch);
    bytes::lemma_get32(s, at + 36, sb.blocks as u32);
    bytes::lemma_get32(s, at + 40, sb.meta_blkaddr);
    bytes::lemma_get32(s, at + 44, sb.xattr_blkaddr);
    bytes::lemma_get32(s, at + 80, sb.feature_incompat);
    bytes::lemma_get16(s, at + 86, sb.extra_devices);
    bytes::lemma_get16(s, at + 88, sb.devt_slotoff);
}

/// An extended inode, which has an odd format, is read from its fields,
/// whatever stands in the other bytes.
#[verifier::spinoff_prover]
#[verifier::rlimit(40)]
pub proof fn law_extended_inode_reads_fields(s: Seq<u8>, at: int, n: ErofsInode)
    requires
        0 <= at <= s.len() - 64,
        n.format % 2 == 1,
        s.subrange(at, at + 2) == bytes::le16(n.format),
        s.subrange(at + 2, at + 4) == bytes::le16(n.xattr_icount),
        s.subrange(at + 4, at + 6) == bytes::le16(n.mode),
        s.subrange(at + 6, at + 8) == bytes::le16(n.nb),
        s.subrange(at + 8, at + 16) == bytes::le64(n.size),
        s.subrange(at + 16, at + 20) == bytes::le32(n.u),
        s.subrange(at + 20, at + 24) == bytes::le32(n.ino),
        s.subrange(at + 24, at + 28) == bytes::le32(n.uid),
        s.subrange(at + 28, at + 32) == bytes::le32(n.gid),
        s.subrange(at + 32, at + 40) == bytes::le64(n.raw_mtime),
        s.subrange(at + 40, at + 44) == bytes::le32(n.mtime_nsec),
        s.subrange(at + 44, at + 48) == bytes::le32(n.nlink),
    ensures
        metadata::inode_at(s, at) == n,
{
    bytes::lemma_get16(s, at, n.format);
    bytes::lemma_get16(s, at + 2, n.xattr_icount);
    bytes::lemma_get16(s, at + 4, n.mode);
    bytes::lemma_get16(s, at + 6, n.nb);
    bytes::lemma_get64(s, at + 8, n.size);
    bytes::lemma_get32(s, at + 16, n.u);
    bytes::lemma_get32(s, at + 20, n.ino);
    bytes::lemma_get32(s, at + 24, n.uid);
    bytes::lemma_get32(s, at + 28, n.gid);
    bytes::lemma_get64(s, at + 32, n.raw_mtime);
    bytes::lemma_get32(s, at + 40, n.mtime_nsec);
    bytes::lemma_get32(s, at + 44, n.nlink);
}

/// A compact inode, which has an even format, is read from its fields, whatever
/// stands in the other bytes. Bit 4 of the format says that it has one link.
#[verifier::spinoff_prover]
#[verifier::rlimit(40)]
pub proof fn law_compact_inode_reads_fields(s: Seq<u8>, at: int, n: ErofsInode)
    requires
        0 <= at <= s.len() - 32,
        n.format % 2 == 0,
        n.size < 0x1_0000_0000,
        n.uid < 0x1_0000,
        n.gid < 0x1_0000,
        n.raw_mtime < 0x1_0000_0000,
        n.mtime_nsec == 0,
        n.nlink == (if n.format % 32 >= 16 {
            1
        } else {
            n.nb as u32
        }),
        s.subrange(at, at + 2) == bytes::le16(n.format),
        s.subrange(at + 2, at + 4) == bytes::le16(n.xattr_icount),
        s.subrange(at + 4, at + 6) == bytes::le16(n.mode),
        s.subrange(at + 6, at + 8) == bytes::le16(n.nb),
        s.subrange(at + 8, at + 12) == bytes::le32(n.size as u32),
        s.subrange(at + 12, at + 16) == bytes::le32(n.raw_mtime as u32),
        s.subrange(at + 16, at + 20) == bytes::le32(n.u),
        s.subrange(at + 20, at + 24) == bytes::le32(n.ino),
        s.subrange(at + 24, at + 26) == bytes::le16(n.uid as u16),
        s.subrange(at + 26, at + 28) == bytes::le16(n.gid as u16),
    ensures
        metadata::inode_at(s, at) == n,
{
    bytes::lemma_get16(s, at, n.format);
    bytes::lemma_get16(s, at + 2, n.xattr_icount);
    bytes::lemma_get16(s, at + 4, n.mode);
    bytes::lemma_get16(s, at + 6, n.nb);
    bytes::lemma_get32(s, at + 8, n.size as u32);
    bytes::lemma_get32(s, at + 12, n.raw_mtime as u32);
    bytes::lemma_get32(s, at + 16, n.u);
    bytes::lemma_get32(s, at + 20, n.ino);
    bytes::lemma_get16(s, at + 24, n.uid as u16);
    bytes::lemma_get16(s, at + 26, n.gid as u16);
}

/// A chunk index and a directory entry are read from their fields, whatever
/// stands in the other bytes. Eight bytes of ones are a hole.
#[verifier::spinoff_prover]
#[verifier::rlimit(40)]
pub proof fn law_small_records_read_fields(s: Seq<u8>, at: int, ci: ChunkIndex, d: ErofsDirent)
    requires
        0 <= at <= s.len() - 12,
    ensures
        ci.blkaddr < 0x1_0000_0000_0000 && !(ci.blkaddr == 0xFFFF_FFFF_FFFF && ci.device_id
            == 0xFFFF) && s.subrange(at, at + 2) == bytes::le16(
            (ci.blkaddr / 0x1_0000_0000) as u16,
        ) && s.subrange(at + 2, at + 4) == bytes::le16(ci.device_id) && s.subrange(at + 4, at + 8)
            == bytes::le32((ci.blkaddr % 0x1_0000_0000) as u32) ==> metadata::chunk_index_at(s, at)
            == ci,
        (forall|i: int| at <= i < at + 8 ==> #[trigger] s[i] == 0xFF) ==> metadata::chunk_index_at(
            s,
            at,
        ).blkaddr == 0xFFFF_FFFF_FFFF_FFFF,
        s.subrange(at, at + 8) == bytes::le64(d.nid) && s.subrange(at + 8, at + 10) == bytes::le16(
            d.nameoff,
        ) && s[at + 10] == d.file_type ==> metadata::dirent_at(s, at) == d,
{
    if ci.blkaddr < 0x1_0000_0000_0000 && s.subrange(at, at + 2) == bytes::le16(
        (ci.blkaddr / 0x1_0000_0000) as u16,
    ) && s.subrange(at + 2, at + 4) == bytes::le16(ci.device_id) && s.subrange(at + 4, at + 8)
        == bytes::le32((ci.blkaddr % 0x1_0000_0000) as u32) {
        bytes::lemma_get16(s, at, (ci.blkaddr / 0x1_0000_0000) as u16);
        bytes::lemma_get16(s, at + 2, ci.device_id);
        bytes::lemma_get32(s, at + 4, (ci.blkaddr % 0x1_0000_0000) as u32);
    }
    if s.subrange(at, at + 8) == bytes::le64(d.nid) && s.subrange(at + 8, at + 10) == bytes::le16(
        d.nameoff,
    ) {
        bytes::lemma_get64(s, at, d.nid);
        bytes::lemma_get16(s, at + 8, d.nameoff);
    }
}

/// What the fields of an inode say: bits 1 to 3 of the format are the data
/// layout, an odd format has a header of 64 bytes and an even one of 32, the
/// first xattr count stands for 12 bytes and each further one for 4, a start
/// block has the high half `nb` and the low half `u`, and a compact inode counts
/// its time from the epoch.
pub proof fn law_inode_accessors(n: ErofsInode, epoch: u64)
    ensures
        n.spec_data_layout() < 8,
        n.format % 16 == n.format % 2 + 2 * n.spec_data_layout(),
        n.spec_header_size() == 32 + 32 * (n.format % 2),
        n.xattr_icount == 0 ==> n.spec_xattr_size() == 0,
        n.xattr_icount > 0 ==> n.spec_xattr_size() == 8 + 4 * n.xattr_icount,
        n.spec_chunk_format() == n.u % 0x1_0000,
        n.spec_startblk() / 0x1_0000_0000 == n.nb,
        n.spec_startblk() % 0x1_0000_0000 == n.u,
        n.format % 2 == 1 ==> n.spec_mtime(epoch) == n.raw_mtime,
        n.format % 2 == 0 ==> (n.spec_mtime(epoch) - epoch - n.raw_mtime) % 0x1_0000_0000_0000_0000
            == 0,
{
    assert(12 + 4 * (n.xattr_icount - 1) <= usize::MAX);
}

// ---------------------------------------------------------------------------
// Serialized inodes
// ---------------------------------------------------------------------------

/// The file type in directory entries depends on the top four bits of the mode
/// alone.
pub proof fn law_file_types(mode: u16)
    ensures
        mode / 4096 == 8 ==> inode::file_type_of(mode) == 1,
        mode / 4096 == 4 ==> inode::file_type_of(mode) == 2,
        mode / 4096 == 2 ==> inode::file_type_of(mode) == 3,
        mode / 4096 == 6 ==> inode::file_type_of(mode) == 4,
        mode / 4096 == 1 ==> inode::file_type_of(mode) == 5,
        mode / 4096 == 12 ==> inode::file_type_of(mode) == 6,
        mode / 4096 == 10 ==> inode::file_type_of(mode) == 7,
        ({
            let t = mode / 4096;
            !(t == 8 || t == 4 || t == 2 || t == 6 || t == 1 || t == 12 || t == 10)
                ==> inode::file_type_of(mode) == 0
        }),
{
    assert(mode & 0o170000 == mode / 4096 * 4096) by (bit_vector);
}

/// The chunk format is 32 and the number of bits that chunks have over blocks.
pub proof fn law_chunk_format(chunkbits: u32, blkszbits: u32)
    requires
        blkszbits <= chunkbits < blkszbits + 32,
    ensures
        inode::chunk_format_bits(chunkbits, blkszbits) == 32 + chunkbits - blkszbits,
{
    let bits: u16 = (chunkbits - blkszbits) as u16;
    assert(bits < 32 ==> (0x20u16 | bits) == 32 + bits) by (bit_vector);
}

/// What stands behind the header of a serialized inode: the chunk indexes of a
/// regular file one behind the other, the target of a symbolic link, and for
/// anything else nothing. The size in the metadata area is the length of all.
pub proof fn law_inode_tail(m: inode::InodeModel, epoch: u64, chunkbits: u32)
    ensures
        ({
            let b = m.to_bytes(epoch, chunkbits);
            let base = if m.is_extended {
                64int
            } else {
                32int
            };
            &&& b.len() == m.meta_size()
            &&& match m.data {
                inode::DataModel::RegularFile { chunk_indexes } => {
                    &&& b.len() == base + 8 * chunk_indexes.len()
                    &&& forall|i: int|
                        0 <= i < chunk_indexes.len() ==> b.subrange(
                            base + 8 * i,
                            base + 8 * i + 8,
                        ) == ondisk::chunk_index(
                            (#[trigger] chunk_indexes[i]).blkaddr,
                            chunk_indexes[i].device_id,
                        )
                },
                inode::DataModel::Symlink { target } => {
                    &&& b.len() == base + target.len()
                    &&& b.subrange(base, base + target.len()) == target
                },
                _ => b.len() == base,
            }
        }),
{
    let b = m.to_bytes(epoch, chunkbits);
    let base = if m.is_extended {
        64int
    } else {
        32int
    };
    lemma_header_len(m, epoch, chunkbits);
    match m.data {
        inode::DataModel::RegularFile { chunk_indexes } => {
            let table = inode::chunk_index_table(chunk_indexes);
            assert forall|i: int| 0 <= i < chunk_indexes.len() implies b.subrange(
                base + 8 * i,
                base + 8 * i + 8,
            ) == ondisk::chunk_index(
                (#[trigger] chunk_indexes[i]).blkaddr,
                chunk_indexes[i].device_id,
            ) by {
                let index = ondisk::chunk_index(
                    chunk_indexes[i].blkaddr,
                    chunk_indexes[i].device_id,
                );
                law_chunk_index_fields(chunk_indexes[i].blkaddr, chunk_indexes[i].device_id);
                assert forall|k: int| 0 <= k < 8 implies b[base + 8 * i + k] == #[trigger] index[k] by {
                    assert((8 * i + k) / 8 == i && (8 * i + k) % 8 == k);
                    assert(b[base + (8 * i + k)] == table[8 * i + k]);
                }
                assert(b.subrange(base + 8 * i, base + 8 * i + 8) =~= index);
            }
        },
        inode::DataModel::Symlink { target } => {
            assert(b.subrange(base, base + target.len()) =~= target);
        },
        _ => {},
    }
}

proof fn lemma_header_len(m: inode::InodeModel, epoch: u64, chunkbits: u32)
    ensures
        m.header(epoch, chunkbits).len() == (if m.is_extended {
            64int
        } else {
            32int
        }),
{
}

/// The number that the format of an inode has for its kind of data: twice the
/// data layout, which is 4 for chunks, 2 for inline data and 0 otherwise.
proof fn lemma_kind_format(m: inode::InodeModel)
    ensures
        ({
            let twice = match m.data {
                inode::DataModel::RegularFile { .. } => 8int,
                inode::DataModel::Symlink { .. } => 4int,
                _ => 0int,
            };
            &&& ondisk::extended_format(m.datalayout()) == twice + 1
            &&& ondisk::compact_format(m.datalayout(), !(m.data is Directory)) == twice + (
            if m.data is Directory {
                0int
            } else {
                16int
            })
        }),
{
    assert((4u16 << 1u16) | 16u16 == 24) by (bit_vector);
    assert((2u16 << 1u16) | 16u16 == 20) by (bit_vector);
    assert((0u16 << 1u16) | 16u16 == 16) by (bit_vector);
    assert((0u16 << 1u16) | 0u16 == 0) by (bit_vector);
    assert(1u16 | (4u16 << 1u16) == 9) by (bit_vector);
    assert(1u16 | (2u16 << 1u16) == 5) by (bit_vector);
    assert(1u16 | (0u16 << 1u16) == 1) by (bit_vector);
}

/// A serialized extended inode starts with the attributes of the inode, each
/// whole. The format says the kind of data; devices, FIFOs and sockets have no
/// size; a directory has its start block and a device its number.
#[verifier::spinoff_prover]
#[verifier::rlimit(40)]
pub proof fn law_extended_inode_bytes(m: inode::InodeModel, epoch: u64, chunkbits: u32)
    requires
        m.is_extended,
        12 <= chunkbits < 44,
    ensures
        ({
            let b = m.to_bytes(epoch, chunkbits);
            &&& b.len() >= 64
            &&& b.subrange(4, 6) == bytes::le16(m.mode)
            &&& b.subrange(20, 24) == bytes::le32(m.ino)
            &&& b.subrange(24, 28) == bytes::le32(m.uid)
            &&& b.subrange(28, 32) == bytes::le32(m.gid)
            &&& b.subrange(32, 40) == bytes::le64(m.mtime)
            &&& b.subrange(40, 44) == bytes::le32(m.mtime_nsec)
            &&& b.subrange(44, 48) == bytes::le32(m.nlink)
            &&& match m.data {
                inode::DataModel::RegularFile { .. } => {
                    &&& b.subrange(0, 2) == bytes::le16(9)
                    &&& b.subrange(6, 8) == bytes::le16(0)
                    &&& b.subrange(8, 16) == bytes::le64(m.size)
                    &&& b.subrange(16, 20) == bytes::le32((20 + chunkbits) as u32)
                },
                inode::DataModel::Symlink { .. } => {
                    &&& b.subrange(0, 2) == bytes::le16(5)
                    &&& b.subrange(6, 8) == bytes::le16(0)
                    &&& b.subrange(8, 16) == bytes::le64(m.size)
                    &&& b.subrange(16, 20) == bytes::le32(0)
                },
                inode::DataModel::Directory { startblk, .. } => {
                    &&& b.subrange(0, 2) == bytes::le16(1)
                    &&& b.subrange(6, 8) == bytes::le16(
                        (startblk / 0x1_0000_0000 % 0x1_0000) as u16,
                    )
                    &&& b.subrange(8, 16) == bytes::le64(m.size)
                    &&& b.subrange(16, 20) == bytes::le32((startblk % 0x1_0000_0000) as u32)
                },
                inode::DataModel::SpecialDev { rdev } => {
                    &&& b.subrange(0, 2) == bytes::le16(1)
                    &&& b.subrange(6, 8) == bytes::le16(0)
                    &&& b.subrange(8, 16) == bytes::le64(0)
                    &&& b.subrange(16, 20) == bytes::le32(rdev)
                },
                inode::DataModel::SpecialNoData => {
                    &&& b.subrange(0, 2) == bytes::le16(1)
                    &&& b.subrange(6, 8) == bytes::le16(0)
                    &&& b.subrange(8, 16) == bytes::le64(0)
                    &&& b.subrange(16, 20) == bytes::le32(0)
                },
            }
        }),
{
    let b = m.to_bytes(epoch, chunkbits);
    let h = m.header(epoch, chunkbits);
    law_chunk_format(chunkbits, 12);
    lemma_kind_format(m);
    lemma_header_len(m, epoch, chunkbits);
    lemma_in_header(h, m.tail());
    law_extended_inode_fields(
        ondisk::extended_format(m.datalayout()),
        m.mode,
        m.i_nb(),
        m.i_size(),
        m.i_u(chunkbits),
        m.ino,
        m.uid,
        m.gid,
        m.mtime,
        m.mtime_nsec,
        m.nlink,
    );
}

/// What stands in the header stands in the whole.
proof fn lemma_in_header(h: Seq<u8>, tail: Seq<u8>)
    ensures
        forall|i: int, j: int|
            0 <= i <= j <= h.len() ==> #[trigger] (h + tail).subrange(i, j) == h.subrange(i, j),
{
    assert forall|i: int, j: int| 0 <= i <= j <= h.len() implies #[trigger] (h + tail).subrange(
        i,
        j,
    ) == h.subrange(i, j) by {
        assert((h + tail).subrange(i, j) =~= h.subrange(i, j));
    }
}

/// A serialized compact inode starts with the attributes of the inode: the low
/// half of the size, of the owner and of the group, and the seconds after the
/// epoch, in 32 bits. All but directories carry the mark for one link.
#[verifier::spinoff_prover]
#[verifier::rlimit(40)]
pub proof fn law_compact_inode_bytes(m: inode::InodeModel, epoch: u64, chunkbits: u32)
    requires
        !m.is_extended,
        12 <= chunkbits < 44,
    ensures
        ({
            let b = m.to_bytes(epoch, chunkbits);
            &&& b.len() >= 32
            &&& b.subrange(4, 6) == bytes::le16(m.mode)
            &&& b.subrange(12, 16) == bytes::le32(((m.mtime - epoch) % 0x1_0000_0000) as u32)
            &&& b.subrange(20, 24) == bytes::le32(m.ino)
            &&& b.subrange(24, 26) == bytes::le16((m.uid % 0x1_0000) as u16)
            &&& b.subrange(26, 28) == bytes::le16((m.gid % 0x1_0000) as u16)
            &&& match m.data {
                inode::DataModel::RegularFile { .. } => {
                    &&& b.subrange(0, 2) == bytes::le16(24)
                    &&& b.subrange(6, 8) == bytes::le16(0)
                    &&& b.subrange(8, 12) == bytes::le32((m.size % 0x1_0000_0000) as u32)
                    &&& b.subrange(16, 20) == bytes::le32((20 + chunkbits) as u32)
                },
                inode::DataModel::Symlink { .. } => {
                    &&& b.subrange(0, 2) == bytes::le16(20)
                    &&& b.subrange(6, 8) == bytes::le16(0)
                    &&& b.subrange(8, 12) == bytes::le32((m.size % 0x1_0000_0000) as u32)
                    &&& b.subrange(16, 20) == bytes::le32(0)
                },
                inode::DataModel::Directory { startblk, .. } => {
                    &&& b.subrange(0, 2) == bytes::le16(0)
                    &&& b.subrange(6, 8) == bytes::le16(
                        (startblk / 0x1_0000_0000 % 0x1_0000) as u16,
                    )
                    &&& b.subrange(8, 12) == bytes::le32((m.size % 0x1_0000_0000) as u32)
                    &&& b.subrange(16, 20) == bytes::le32((startblk % 0x1_0000_0000) as u32)
                },
                inode::DataModel::SpecialDev { rdev } => {
                    &&& b.subrange(0, 2) == bytes::le16(16)
                    &&& b.subrange(6, 8) == bytes::le16(0)
                    &&& b.subrange(8, 12) == bytes::le32(0)
                    &&& b.subrange(16, 20) == bytes::le32(rdev)
                },
                inode::DataModel::SpecialNoData => {
                    &&& b.subrange(0, 2) == bytes::le16(16)
                    &&& b.subrange(6, 8) == bytes::le16(0)
                    &&& b.subrange(8, 12) == bytes::le32(0)
                    &&& b.subrange(16, 20) == bytes::le32(0)
                },
            }
        }),
{
    let b = m.to_bytes(epoch, chunkbits);
    let h = m.header(epoch, chunkbits);
    law_chunk_format(chunkbits, 12);
    lemma_kind_format(m);
    lemma_header_len(m, epoch, chunkbits);
    lemma_in_header(h, m.tail());
    law_compact_inode_fields(
        ondisk::compact_format(m.datalayout(), !(m.data is Directory)),
        m.mode,
        m.i_nb(),
        bytes::low32(m.i_size()),
        inode::mtime_delta(m.mtime, epoch),
        m.i_u(chunkbits),
        m.ino,
        (m.uid % 0x1_0000) as u16,
        (m.gid % 0x1_0000) as u16,
    );
}

} // verus!
