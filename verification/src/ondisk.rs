//! EROFS on-disk format: constants and serialization of the fixed-size records.
use crate::bytes;
use vstd::prelude::*;

verus! {

// Superblock magic and position
pub const EROFS_SUPER_MAGIC_V1: u32 = 0xE0F5_E1E2;

pub const EROFS_SUPER_OFFSET: u64 = 1024;

/// Size of the superblock without extension slots.
pub const EROFS_SB_BASE_SIZE: usize = 128;

// Block and slot sizes
pub const EROFS_BLOCK_SIZE: u32 = 4096;

pub const EROFS_BLKSZBITS: u8 = 12;

pub const EROFS_ISLOTBITS: u32 = 5;

pub const EROFS_SLOTSIZE: u32 = 32;

// Compatible feature flags
pub const EROFS_FEATURE_COMPAT_SB_CHKSUM: u32 = 0x0000_0001;

pub const EROFS_FEATURE_COMPAT_MTIME: u32 = 0x0000_0002;

// Incompatible feature flags
pub const EROFS_FEATURE_INCOMPAT_CHUNKED_FILE: u32 = 0x0000_0004;

pub const EROFS_FEATURE_INCOMPAT_DEVICE_TABLE: u32 = 0x0000_0008;

// Inode data layouts (bits 1 to 3 of i_format)
pub const EROFS_INODE_FLAT_PLAIN: u16 = 0;

pub const EROFS_INODE_FLAT_INLINE: u16 = 2;

pub const EROFS_INODE_CHUNK_BASED: u16 = 4;

// Bits of i_format
pub const EROFS_INODE_LAYOUT_COMPACT: u16 = 0;

pub const EROFS_INODE_LAYOUT_EXTENDED: u16 = 1;

pub const EROFS_I_VERSION_BIT: u16 = 0;

pub const EROFS_I_DATALAYOUT_BIT: u16 = 1;

/// Set in compact inodes of anything but a directory.
pub const EROFS_I_NLINK_1_BIT: u16 = 4;

/// Chunk format flag: the inode is followed by chunk indexes.
pub const EROFS_CHUNK_FORMAT_INDEXES: u16 = 0x0020;

// Record sizes
pub const EROFS_INODE_COMPACT_SIZE: usize = 32;

pub const EROFS_INODE_EXTENDED_SIZE: usize = 64;

pub const EROFS_CHUNK_INDEX_SIZE: usize = 8;

pub const EROFS_DIRENT_SIZE: usize = 12;

pub const EROFS_DEVICESLOT_SIZE: usize = 128;

// File types in directory entries
pub const EROFS_FT_REG_FILE: u8 = 1;

pub const EROFS_FT_DIR: u8 = 2;

pub const EROFS_FT_CHRDEV: u8 = 3;

pub const EROFS_FT_BLKDEV: u8 = 4;

pub const EROFS_FT_FIFO: u8 = 5;

pub const EROFS_FT_SOCK: u8 = 6;

pub const EROFS_FT_SYMLINK: u8 = 7;

/// Block address of a hole.
pub const EROFS_NULL_ADDR: u64 = 0xFFFF_FFFF_FFFF_FFFF;

// ---------------------------------------------------------------------------
// i_format
// ---------------------------------------------------------------------------

/// `i_format` of a compact inode: the data layout above the version bit, which
/// is clear, and the "one link" bit.
pub open spec fn compact_format(datalayout: u16, nlink_1: bool) -> u16 {
    (datalayout << 1u16) | (if nlink_1 {
        16u16
    } else {
        0u16
    })
}

/// `i_format` of an extended inode: the data layout above the version bit,
/// which is set.
pub open spec fn extended_format(datalayout: u16) -> u16 {
    1u16 | (datalayout << 1u16)
}

/// The data layout that an `i_format` names.
pub open spec fn format_layout(i_format: u16) -> u16 {
    i_format / 2 % 8
}

/// Both kinds of `i_format` give their data layout back, and differ in the
/// version bit; the compact one keeps its "one link" bit.
pub proof fn law_i_format_fields(datalayout: u16, nlink_1: bool)
    requires
        datalayout < 8,
    ensures
        format_layout(compact_format(datalayout, nlink_1)) == datalayout,
        format_layout(extended_format(datalayout)) == datalayout,
        compact_format(datalayout, nlink_1) % 2 == EROFS_INODE_LAYOUT_COMPACT,
        extended_format(datalayout) % 2 == EROFS_INODE_LAYOUT_EXTENDED,
        (compact_format(datalayout, nlink_1) / 16 % 2 == 1) == nlink_1,
{
    assert(datalayout < 8 ==> (datalayout << 1u16) | 16u16 == 2 * datalayout + 16) by (bit_vector);
    assert(datalayout < 8 ==> (datalayout << 1u16) | 0u16 == 2 * datalayout) by (bit_vector);
    assert(datalayout < 8 ==> 1u16 | (datalayout << 1u16) == 2 * datalayout + 1) by (bit_vector);
}

/// Compute `i_format` for a compact inode.
pub fn compact_i_format(datalayout: u16, nlink_1: bool) -> (r: u16)
    ensures
        r == compact_format(datalayout, nlink_1),
        datalayout < 8 ==> r == 2 * datalayout + (if nlink_1 {
            16int
        } else {
            0int
        }),
{
    let mut fmt: u16 = datalayout << 1u16;
    proof {
        assert(datalayout < 8 ==> (datalayout << 1u16) | 16u16 == 2 * datalayout + 16)
            by (bit_vector);
        assert(datalayout < 8 ==> (datalayout << 1u16) == 2 * datalayout) by (bit_vector);
        assert(fmt | 0u16 == fmt) by (bit_vector);
    }
    if nlink_1 {
        fmt = fmt | 16u16;
    }
    fmt
}

/// Compute `i_format` for an extended inode.
pub fn extended_i_format(datalayout: u16) -> (r: u16)
    ensures
        r == extended_format(datalayout),
        datalayout < 8 ==> r == 2 * datalayout + 1,
{
    assert(datalayout < 8 ==> 1u16 | (datalayout << 1u16) == 2 * datalayout + 1) by (bit_vector);
    EROFS_INODE_LAYOUT_EXTENDED | (datalayout << 1u16)
}

// ---------------------------------------------------------------------------
// Inodes
// ---------------------------------------------------------------------------

/// The 32 bytes of a compact inode.
pub open spec fn compact_inode(
    i_format: u16,
    i_mode: u16,
    i_nb: u16,
    i_size: u32,
    i_mtime: u32,
    i_u: u32,
    i_ino: u32,
    i_uid: u16,
    i_gid: u16,
) -> Seq<u8> {
    bytes::le16(i_format) + bytes::zeros(2) + bytes::le16(i_mode) + bytes::le16(i_nb)
        + bytes::le32(i_size) + bytes::le32(i_mtime) + bytes::le32(i_u) + bytes::le32(i_ino)
        + bytes::le16(i_uid) + bytes::le16(i_gid) + bytes::zeros(4)
}

/// Serialize a compact inode.
///
/// | bytes  | field          |                                        |
/// |--------|----------------|----------------------------------------|
/// | 0..2   | i_format       |                                        |
/// | 2..4   | i_xattr_icount | 0                                      |
/// | 4..6   | i_mode         |                                        |
/// | 6..8   | i_nb           | startblk_hi / nlink / blocks_hi        |
/// | 8..12  | i_size         |                                        |
/// | 12..16 | i_mtime        | seconds after the epoch                |
/// | 16..20 | i_u            | startblk_lo / rdev / chunk info        |
/// | 20..24 | i_ino          | inode number for `stat`                |
/// | 24..26 | i_uid          |                                        |
/// | 26..28 | i_gid          |                                        |
/// | 28..32 | reserved       | 0                                      |
pub fn serialize_inode_compact(
    i_format: u16,
    i_mode: u16,
    i_nb: u16,
    i_size: u32,
    i_mtime: u32,
    i_u: u32,
    i_ino: u32,
    i_uid: u16,
    i_gid: u16,
) -> (r: [u8; EROFS_INODE_COMPACT_SIZE])
    ensures
        r@ == compact_inode(i_format, i_mode, i_nb, i_size, i_mtime, i_u, i_ino, i_uid, i_gid),
{
    let mut buf: [u8; EROFS_INODE_COMPACT_SIZE] = [0u8; EROFS_INODE_COMPACT_SIZE];
    bytes::put(&mut buf, 0, &bytes::u16_le(i_format));
    bytes::put(&mut buf, 4, &bytes::u16_le(i_mode));
    bytes::put(&mut buf, 6, &bytes::u16_le(i_nb));
    bytes::put(&mut buf, 8, &bytes::u32_le(i_size));
    bytes::put(&mut buf, 12, &bytes::u32_le(i_mtime));
    bytes::put(&mut buf, 16, &bytes::u32_le(i_u));
    bytes::put(&mut buf, 20, &bytes::u32_le(i_ino));
    bytes::put(&mut buf, 24, &bytes::u16_le(i_uid));
    bytes::put(&mut buf, 26, &bytes::u16_le(i_gid));
    assert(buf@ =~= compact_inode(
        i_format,
        i_mode,
        i_nb,
        i_size,
        i_mtime,
        i_u,
        i_ino,
        i_uid,
        i_gid,
    ));
    buf
}

/// The 64 bytes of an extended inode.
pub open spec fn extended_inode(
    i_format: u16,
    i_mode: u16,
    i_nb: u16,
    i_size: u64,
    i_u: u32,
    i_ino: u32,
    i_uid: u32,
    i_gid: u32,
    i_mtime: u64,
    i_mtime_nsec: u32,
    i_nlink: u32,
) -> Seq<u8> {
    bytes::le16(i_format) + bytes::zeros(2) + bytes::le16(i_mode) + bytes::le16(i_nb)
        + bytes::le64(i_size) + bytes::le32(i_u) + bytes::le32(i_ino) + bytes::le32(i_uid)
        + bytes::le32(i_gid) + bytes::le64(i_mtime) + bytes::le32(i_mtime_nsec) + bytes::le32(
        i_nlink,
    ) + bytes::zeros(16)
}

/// Serialize an extended inode.
///
/// | bytes  | field          |                                 |
/// |--------|----------------|---------------------------------|
/// | 0..2   | i_format       |                                 |
/// | 2..4   | i_xattr_icount | 0                               |
/// | 4..6   | i_mode         |                                 |
/// | 6..8   | i_nb           | startblk_hi / blocks_hi         |
/// | 8..16  | i_size         |                                 |
/// | 16..20 | i_u            | startblk_lo / rdev / chunk info |
/// | 20..24 | i_ino          | inode number for `stat`         |
/// | 24..28 | i_uid          |                                 |
/// | 28..32 | i_gid          |                                 |
/// | 32..40 | i_mtime        | absolute time                   |
/// | 40..44 | i_mtime_nsec   |                                 |
/// | 44..48 | i_nlink        |                                 |
/// | 48..64 | reserved       | 0                               |
pub fn serialize_inode_extended(
    i_format: u16,
    i_mode: u16,
    i_nb: u16,
    i_size: u64,
    i_u: u32,
    i_ino: u32,
    i_uid: u32,
    i_gid: u32,
    i_mtime: u64,
    i_mtime_nsec: u32,
    i_nlink: u32,
) -> (r: [u8; EROFS_INODE_EXTENDED_SIZE])
    ensures
        r@ == extended_inode(
            i_format,
            i_mode,
            i_nb,
            i_size,
            i_u,
            i_ino,
            i_uid,
            i_gid,
            i_mtime,
            i_mtime_nsec,
            i_nlink,
        ),
{
    let mut buf: [u8; EROFS_INODE_EXTENDED_SIZE] = [0u8; EROFS_INODE_EXTENDED_SIZE];
    bytes::put(&mut buf, 0, &bytes::u16_le(i_format));
    bytes::put(&mut buf, 4, &bytes::u16_le(i_mode));
    bytes::put(&mut buf, 6, &bytes::u16_le(i_nb));
    bytes::put(&mut buf, 8, &bytes::u64_le(i_size));
    bytes::put(&mut buf, 16, &bytes::u32_le(i_u));
    bytes::put(&mut buf, 20, &bytes::u32_le(i_ino));
    bytes::put(&mut buf, 24, &bytes::u32_le(i_uid));
    bytes::put(&mut buf, 28, &bytes::u32_le(i_gid));
    bytes::put(&mut buf, 32, &bytes::u64_le(i_mtime));
    bytes::put(&mut buf, 40, &bytes::u32_le(i_mtime_nsec));
    bytes::put(&mut buf, 44, &bytes::u32_le(i_nlink));
    assert(buf@ =~= extended_inode(
        i_format,
        i_mode,
        i_nb,
        i_size,
        i_u,
        i_ino,
        i_uid,
        i_gid,
        i_mtime,
        i_mtime_nsec,
        i_nlink,
    ));
    buf
}

// ---------------------------------------------------------------------------
// Chunk indexes, directory entries, device slots
// ---------------------------------------------------------------------------

/// Bits 32 to 47 of a block address.
pub open spec fn blkaddr_hi(blkaddr: u64) -> u16 {
    ((blkaddr / 0x1_0000_0000) % 0x1_0000) as u16
}

/// The 8 bytes of a chunk index: all ones for a hole, otherwise the low 48 bits
/// of the block address around the device id.
pub open spec fn chunk_index(blkaddr: u64, device_id: u16) -> Seq<u8> {
    if blkaddr == EROFS_NULL_ADDR {
        Seq::new(8, |i: int| 0xFFu8)
    } else {
        bytes::le16(blkaddr_hi(blkaddr)) + bytes::le16(device_id) + bytes::le32(
            bytes::low32(blkaddr),
        )
    }
}

/// Serialize a chunk index.
///
/// | bytes | field       |
/// |-------|-------------|
/// | 0..2  | startblk_hi |
/// | 2..4  | device_id   |
/// | 4..8  | startblk_lo |
pub fn serialize_chunk_index(blkaddr: u64, device_id: u16) -> (r: [u8; EROFS_CHUNK_INDEX_SIZE])
    ensures
        r@ == chunk_index(blkaddr, device_id),
{
    if blkaddr == EROFS_NULL_ADDR {
        let buf: [u8; EROFS_CHUNK_INDEX_SIZE] = [0xFFu8; EROFS_CHUNK_INDEX_SIZE];
        assert(buf@ =~= chunk_index(blkaddr, device_id));
        buf
    } else {
        let mut buf: [u8; EROFS_CHUNK_INDEX_SIZE] = [0u8; EROFS_CHUNK_INDEX_SIZE];
        bytes::put(&mut buf, 0, &bytes::u16_le(bytes::high_u16(blkaddr)));
        bytes::put(&mut buf, 2, &bytes::u16_le(device_id));
        bytes::put(&mut buf, 4, &bytes::u32_le(bytes::low_u32(blkaddr)));
        assert(buf@ =~= chunk_index(blkaddr, device_id));
        buf
    }
}

/// The 12 bytes of a directory entry.
pub open spec fn dirent(nid: u64, nameoff: u16, file_type: u8) -> Seq<u8> {
    bytes::le64(nid) + bytes::le16(nameoff) + seq![file_type, 0u8]
}

/// Serialize a directory entry.
///
/// | bytes  | field     |   |
/// |--------|-----------|---|
/// | 0..8   | nid       |   |
/// | 8..10  | nameoff   |   |
/// | 10..11 | file_type |   |
/// | 11..12 | reserved  | 0 |
pub fn serialize_dirent(nid: u64, nameoff: u16, file_type: u8) -> (r: [u8; EROFS_DIRENT_SIZE])
    ensures
        r@ == dirent(nid, nameoff, file_type),
{
    let mut buf: [u8; EROFS_DIRENT_SIZE] = [0u8; EROFS_DIRENT_SIZE];
    bytes::put(&mut buf, 0, &bytes::u64_le(nid));
    bytes::put(&mut buf, 8, &bytes::u16_le(nameoff));
    buf[10] = file_type;
    assert(buf@ =~= dirent(nid, nameoff, file_type));
    buf
}

/// The 128 bytes of a device slot. Only the low half of the block count is
/// stored.
pub open spec fn device_slot(blocks: u64) -> Seq<u8> {
    bytes::zeros(64) + bytes::le32(bytes::low32(blocks)) + bytes::zeros(60)
}

/// Serialize a device slot.
///
/// | bytes   | field      |   |
/// |---------|------------|---|
/// | 0..64   | tag        | 0 |
/// | 64..68  | blocks_lo  |   |
/// | 68..72  | uniaddr_lo | 0 |
/// | 72..76  | blocks_hi  | 0 |
/// | 76..78  | uniaddr_hi | 0 |
/// | 78..128 | reserved   | 0 |
pub fn serialize_device_slot(blocks: u64) -> (r: [u8; EROFS_DEVICESLOT_SIZE])
    ensures
        r@ == device_slot(blocks),
{
    let mut buf: [u8; EROFS_DEVICESLOT_SIZE] = [0u8; EROFS_DEVICESLOT_SIZE];
    bytes::put(&mut buf, 64, &bytes::u32_le(bytes::low_u32(blocks)));
    assert(buf@ =~= device_slot(blocks));
    buf
}

// ---------------------------------------------------------------------------
// Superblock
// ---------------------------------------------------------------------------

/// The 128 bytes of the superblock, with a zero checksum and the checksum
/// feature switched off.
pub open spec fn superblock(
    feature_compat: u32,
    feature_incompat: u32,
    root_nid: u16,
    inos: u64,
    epoch: u64,
    blocks: u64,
    meta_blkaddr: u32,
    extra_devices: u16,
    devt_slotoff: u16,
    uuid: Seq<u8>,
) -> Seq<u8> {
    bytes::le32(EROFS_SUPER_MAGIC_V1) + bytes::zeros(4) + bytes::le32(
        feature_compat & !EROFS_FEATURE_COMPAT_SB_CHKSUM,
    ) + seq![EROFS_BLKSZBITS, 0u8] + bytes::le16(root_nid) + bytes::le64(inos) + bytes::le64(epoch)
        + bytes::zeros(4) + bytes::le32(bytes::low32(blocks)) + bytes::le32(meta_blkaddr)
        + bytes::zeros(4) + uuid + bytes::zeros(16) + bytes::le32(feature_incompat) + bytes::zeros(
        2,
    ) + bytes::le16(extra_devices) + bytes::le16(devt_slotoff) + bytes::zeros(38)
}

/// Serialize the superblock, without extension slots.
///
/// | bytes   | field            |                                  |
/// |---------|------------------|----------------------------------|
/// | 0..4    | magic            |                                  |
/// | 4..8    | checksum         | 0                                |
/// | 8..12   | feature_compat   | without the checksum flag        |
/// | 12      | blkszbits        |                                  |
/// | 13      | sb_extslots      | 0                                |
/// | 14..16  | root nid         |                                  |
/// | 16..24  | inos             |                                  |
/// | 24..32  | epoch            |                                  |
/// | 32..36  | fixed_nsec       | 0                                |
/// | 36..40  | blocks           | low half                         |
/// | 40..44  | meta_blkaddr     |                                  |
/// | 44..48  | xattr_blkaddr    | 0                                |
/// | 48..64  | uuid             |                                  |
/// | 64..80  | volume name      | 0                                |
/// | 80..84  | feature_incompat |                                  |
/// | 84..86  | compression      | 0                                |
/// | 86..88  | extra_devices    |                                  |
/// | 88..90  | devt_slotoff     |                                  |
/// | 90..128 | unused           | 0                                |
pub fn serialize_superblock(
    feature_compat: u32,
    feature_incompat: u32,
    root_nid: u16,
    inos: u64,
    epoch: u64,
    blocks: u64,
    meta_blkaddr: u32,
    extra_devices: u16,
    devt_slotoff: u16,
    uuid: &[u8; 16],
) -> (r: [u8; EROFS_SB_BASE_SIZE])
    ensures
        r@ == superblock(
            feature_compat,
            feature_incompat,
            root_nid,
            inos,
            epoch,
            blocks,
            meta_blkaddr,
            extra_devices,
            devt_slotoff,
            uuid@,
        ),
{
    let mut buf: [u8; EROFS_SB_BASE_SIZE] = [0u8; EROFS_SB_BASE_SIZE];
    bytes::put(&mut buf, 0, &bytes::u32_le(EROFS_SUPER_MAGIC_V1));
    bytes::put(&mut buf, 8, &bytes::u32_le(feature_compat & !EROFS_FEATURE_COMPAT_SB_CHKSUM));
    buf[12] = EROFS_BLKSZBITS;
    bytes::put(&mut buf, 14, &bytes::u16_le(root_nid));
    bytes::put(&mut buf, 16, &bytes::u64_le(inos));
    bytes::put(&mut buf, 24, &bytes::u64_le(epoch));
    bytes::put(&mut buf, 36, &bytes::u32_le(bytes::low_u32(blocks)));
    bytes::put(&mut buf, 40, &bytes::u32_le(meta_blkaddr));
    bytes::put(&mut buf, 48, uuid);
    bytes::put(&mut buf, 80, &bytes::u32_le(feature_incompat));
    bytes::put(&mut buf, 86, &bytes::u16_le(extra_devices));
    bytes::put(&mut buf, 88, &bytes::u16_le(devt_slotoff));
    assert(buf@ =~= superblock(
        feature_compat,
        feature_incompat,
        root_nid,
        inos,
        epoch,
        blocks,
        meta_blkaddr,
        extra_devices,
        devt_slotoff,
        uuid@,
    ));
    buf
}

// ---------------------------------------------------------------------------
// Rounding
// ---------------------------------------------------------------------------

/// `a` is a power of two.
pub open spec fn is_power_of_two(a: int) -> bool {
    exists|k: nat| a == vstd::arithmetic::power2::pow2(k)
}

/// Round `val` up to the next multiple of `align`, a power of two.
pub fn round_up(val: usize, align: usize) -> (r: usize)
    requires
        is_power_of_two(align as int),
        val + align <= usize::MAX,
    ensures
        r as int % align as int == 0,
        val <= r < val + align,
{
    proof {
        let k = choose|k: nat| align as int == vstd::arithmetic::power2::pow2(k);
        let x: usize = (val + align - 1) as usize;
        let m: usize = (align - 1) as usize;
        vstd::arithmetic::power2::lemma_pow2_pos(k);
        if k >= usize::BITS {
            vstd::layout::unsigned_int_max_values();
            vstd::arithmetic::power2::lemma_pow2(usize::BITS as nat);
            if k > usize::BITS {
                vstd::arithmetic::power2::lemma_pow2_strictly_increases(usize::BITS as nat, k);
            }
            assert(false);
        }
        vstd::bits::lemma_usize_low_bits_mask_is_mod(x, k);
        assert(vstd::bits::low_bits_mask(k) == align - 1);
        assert(x & !m == x - (x & m)) by (bit_vector);
        vstd::arithmetic::div_mod::lemma_fundamental_div_mod(x as int, align as int);
        vstd::arithmetic::div_mod::lemma_mod_multiples_basic(
            x as int / align as int,
            align as int,
        );
        vstd::arithmetic::mul::lemma_mul_is_commutative(
            align as int,
            x as int / align as int,
        );
        vstd::arithmetic::div_mod::lemma_mod_bound(x as int, align as int);
    }
    (val + align - 1) & !(align - 1)
}

/// `a / b`, rounded up.
pub open spec fn ceil_div(a: int, b: int) -> int {
    (a + b - 1) / b
}

/// Divide and round up.
pub fn div_ceil(a: u64, b: u64) -> (r: u64)
    requires
        b > 0,
    ensures
        r == ceil_div(a as int, b as int),
{
    let q: u64 = a / b;
    let rem: u64 = a % b;
    proof {
        vstd::arithmetic::div_mod::lemma_fundamental_div_mod(a as int, b as int);
        vstd::arithmetic::mul::lemma_mul_is_commutative(b as int, q as int);
        if rem == 0 {
            vstd::arithmetic::div_mod::lemma_fundamental_div_mod_converse(
                a + b - 1,
                b as int,
                q as int,
                b - 1,
            );
        } else {
            vstd::arithmetic::mul::lemma_mul_is_distributive_add_other_way(b as int, q as int, 1);
            vstd::arithmetic::div_mod::lemma_fundamental_div_mod_converse(
                a + b - 1,
                b as int,
                q + 1,
                rem - 1,
            );
            vstd::arithmetic::mul::lemma_mul_inequality(1, b as int, q as int);
        }
    }
    if rem == 0 {
        q
    } else {
        q + 1
    }
}

} // verus!
