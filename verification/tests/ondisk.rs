use mkfs_erofs::blobchunk::{chunk_bits, ChunkIndex};
use mkfs_erofs::bytes::{high_u16, high_u32, low_u32, read_u16, read_u32, read_u64};
use mkfs_erofs::inode::{
    chunk_format, inode_meta_size, mode_to_file_type, serialize_inode, DirEntry, InodeData,
    InodeInfo,
};
use mkfs_erofs::metadata::{parse_chunk_index, ErofsDirent, ErofsInode, ErofsSuperblock};
use mkfs_erofs::ondisk::{
    compact_i_format, div_ceil, extended_i_format, round_up, serialize_chunk_index,
    serialize_device_slot, serialize_dirent, serialize_inode_compact, serialize_inode_extended,
    serialize_superblock, EROFS_FEATURE_COMPAT_MTIME, EROFS_FEATURE_COMPAT_SB_CHKSUM,
    EROFS_FEATURE_INCOMPAT_CHUNKED_FILE, EROFS_FEATURE_INCOMPAT_DEVICE_TABLE,
    EROFS_INODE_CHUNK_BASED, EROFS_INODE_FLAT_INLINE, EROFS_INODE_FLAT_PLAIN, EROFS_NULL_ADDR,
    EROFS_SUPER_MAGIC_V1,
};

#[test]
fn integers_are_little_endian() {
    let b = [0x01u8, 0x02, 0x03, 0x04, 0x05, 0x06, 0x07, 0x08];
    assert_eq!(read_u16(&b, 1), 0x0302);
    assert_eq!(read_u32(&b, 2), 0x0605_0403);
    assert_eq!(read_u64(&b, 0), 0x0807_0605_0403_0201);
    assert_eq!(low_u32(0x0001_0203_0405_0607), 0x0405_0607);
    assert_eq!(high_u32(0x0001_0203_0405_0607), 0x0001_0203);
    assert_eq!(high_u16(0x0001_0203_0405_0607), 0x0203);
}

#[test]
fn i_format_combines_its_bits() {
    assert_eq!(compact_i_format(EROFS_INODE_FLAT_PLAIN, false), 0);
    assert_eq!(compact_i_format(EROFS_INODE_FLAT_INLINE, true), 0x14);
    assert_eq!(compact_i_format(EROFS_INODE_CHUNK_BASED, true), 0x18);
    assert_eq!(extended_i_format(EROFS_INODE_CHUNK_BASED), 9);
    assert_eq!(extended_i_format(EROFS_INODE_FLAT_INLINE), 5);
}

#[test]
fn rounding() {
    assert_eq!(round_up(0, 8), 0);
    assert_eq!(round_up(1, 8), 8);
    assert_eq!(round_up(8, 8), 8);
    assert_eq!(round_up(4097, 4096), 8192);
    assert_eq!(round_up(5, 1), 5);
    assert_eq!(div_ceil(0, 4096), 0);
    assert_eq!(div_ceil(1, 4096), 1);
    assert_eq!(div_ceil(4096, 4096), 1);
    assert_eq!(div_ceil(u64::MAX, 2), 0x8000_0000_0000_0000);
    assert_eq!(div_ceil(u64::MAX, 1), u64::MAX);
}

#[test]
fn compact_inode_bytes() {
    let b = serialize_inode_compact(
        0x18, 0o100644, 0x0102, 0x1122_3344, 0x5566_7788, 0x99AA_BBCC, 7, 0x0A0B, 0x0C0D,
    );
    assert_eq!(
        b,
        [
            0x18, 0x00, 0x00, 0x00, 0xA4, 0x81, 0x02, 0x01, 0x44, 0x33, 0x22, 0x11, 0x88, 0x77,
            0x66, 0x55, 0xCC, 0xBB, 0xAA, 0x99, 0x07, 0x00, 0x00, 0x00, 0x0B, 0x0A, 0x0D, 0x0C,
            0x00, 0x00, 0x00, 0x00,
        ]
    );
}

#[test]
fn extended_inode_bytes() {
    let b = serialize_inode_extended(
        9,
        0o100600,
        1,
        0x1_0000_0002,
        0x28,
        3,
        70000,
        80000,
        0x0102_0304_0506_0708,
        999_999_999,
        2,
    );
    let mut expected = [0u8; 64];
    expected[0] = 9;
    expected[4..6].copy_from_slice(&0o100600u16.to_le_bytes());
    expected[6] = 1;
    expected[8..16].copy_from_slice(&0x1_0000_0002u64.to_le_bytes());
    expected[16] = 0x28;
    expected[20] = 3;
    expected[24..28].copy_from_slice(&70000u32.to_le_bytes());
    expected[28..32].copy_from_slice(&80000u32.to_le_bytes());
    expected[32..40].copy_from_slice(&0x0102_0304_0506_0708u64.to_le_bytes());
    expected[40..44].copy_from_slice(&999_999_999u32.to_le_bytes());
    expected[44] = 2;
    assert_eq!(b, expected);
}

#[test]
fn chunk_index_bytes() {
    assert_eq!(serialize_chunk_index(0x0102_0304_0506, 1), [2, 1, 1, 0, 6, 5, 4, 3]);
    assert_eq!(serialize_chunk_index(0, 0), [0; 8]);
    assert_eq!(serialize_chunk_index(EROFS_NULL_ADDR, 1), [0xFF; 8]);
}

#[test]
fn dirent_bytes() {
    assert_eq!(
        serialize_dirent(0x0102_0304_0506_0708, 0x0A0B, 2),
        [8, 7, 6, 5, 4, 3, 2, 1, 0x0B, 0x0A, 2, 0]
    );
}

#[test]
fn device_slot_bytes() {
    let mut expected = [0u8; 128];
    expected[64] = 2;
    assert_eq!(serialize_device_slot(0x1_0000_0002), expected);
    expected[64..68].copy_from_slice(&[0x04, 0x03, 0x02, 0x01]);
    assert_eq!(serialize_device_slot(0x0102_0304), expected);
    assert_eq!(serialize_device_slot(0x0000_0005_0102_0304)[72..76], [0u8; 4]);
}

#[test]
fn superblock_bytes() {
    let uuid = [0xABu8; 16];
    let b = serialize_superblock(
        EROFS_FEATURE_COMPAT_SB_CHKSUM | EROFS_FEATURE_COMPAT_MTIME,
        EROFS_FEATURE_INCOMPAT_CHUNKED_FILE | EROFS_FEATURE_INCOMPAT_DEVICE_TABLE,
        36,
        5,
        1_700_000_000,
        0x3_0000_0009,
        1,
        1,
        9,
        &uuid,
    );
    let mut expected = [0u8; 128];
    expected[0..4].copy_from_slice(&[0xE2, 0xE1, 0xF5, 0xE0]);
    expected[8] = 2;
    expected[12] = 12;
    expected[14] = 36;
    expected[16] = 5;
    expected[24..32].copy_from_slice(&1_700_000_000u64.to_le_bytes());
    expected[36] = 9;
    expected[40] = 1;
    expected[48..64].copy_from_slice(&uuid);
    expected[80] = 12;
    expected[86] = 1;
    expected[88] = 9;
    assert_eq!(b, expected);
}

#[test]
fn superblock_is_read_back() {
    let b = serialize_superblock(3, 12, 36, 5, 77, 0x3_0000_0009, 1, 1, 9, &[0u8; 16]);
    let mut image = vec![0u8; 10];
    image.extend_from_slice(&b);
    let sb = ErofsSuperblock::parse(&image, 10);
    assert_eq!(
        sb,
        ErofsSuperblock {
            magic: EROFS_SUPER_MAGIC_V1,
            feature_compat: 2,
            blkszbits: 12,
            root_nid: 36,
            inos: 5,
            epoch: 77,
            blocks: 9,
            meta_blkaddr: 1,
            xattr_blkaddr: 0,
            feature_incompat: 12,
            extra_devices: 1,
            devt_slotoff: 9,
        }
    );
}

#[test]
fn chunk_index_is_read_back() {
    for (blkaddr, device_id) in [(0u64, 0u16), (0x0102_0304_0506, 1), (0xFFFF_FFFF_FFFF, 1)] {
        let mut data = vec![0xEEu8; 3];
        data.extend_from_slice(&serialize_chunk_index(blkaddr, device_id));
        assert_eq!(parse_chunk_index(&data, 3), ChunkIndex { blkaddr, device_id });
    }
    let hole = serialize_chunk_index(EROFS_NULL_ADDR, 1);
    assert_eq!(parse_chunk_index(&hole, 0).blkaddr, EROFS_NULL_ADDR);
}

#[test]
fn dirent_is_read_back() {
    let b = serialize_dirent(0x0102_0304_0506_0708, 0x0A0B, 2);
    assert_eq!(
        ErofsDirent::parse(&b, 0),
        ErofsDirent { nid: 0x0102_0304_0506_0708, nameoff: 0x0A0B, file_type: 2 }
    );
}

fn inode(is_extended: bool, data: InodeData) -> InodeInfo {
    InodeInfo {
        mode: 0o100644,
        uid: 1000,
        gid: 100,
        size: 5000,
        mtime: 1_700_000_010,
        mtime_nsec: 42,
        nlink: 1,
        ino: 9,
        nid: 0,
        meta_offset: 0,
        is_extended,
        data,
    }
}

fn two_chunks() -> InodeData {
    InodeData::RegularFile {
        chunk_indexes: vec![
            ChunkIndex { blkaddr: 3, device_id: 1 },
            ChunkIndex { blkaddr: EROFS_NULL_ADDR, device_id: 1 },
        ],
    }
}

#[test]
fn file_types_by_mode() {
    for (mode, file_type) in [
        (0o100644u16, 1u8),
        (0o040755, 2),
        (0o020600, 3),
        (0o060600, 4),
        (0o010600, 5),
        (0o140600, 6),
        (0o120777, 7),
        (0o000644, 0),
    ] {
        assert_eq!(mode_to_file_type(mode), file_type);
    }
}

#[test]
fn chunk_formats() {
    assert_eq!(chunk_format(12, 12), 0x20);
    assert_eq!(chunk_format(20, 12), 0x28);
}

#[test]
fn chunk_sizes() {
    assert_eq!(chunk_bits(4096), Some(12));
    assert_eq!(chunk_bits(1048576), Some(20));
    assert_eq!(chunk_bits(0x8000_0000), Some(31));
    assert_eq!(chunk_bits(2048), None);
    assert_eq!(chunk_bits(0), None);
    assert_eq!(chunk_bits(4097), None);
    assert_eq!(chunk_bits(12288), None);
    assert_eq!(chunk_bits(u32::MAX), None);
}

#[test]
fn sizes_of_serialized_inodes() {
    let target = InodeData::Symlink { target: vec![b'x'; 11] };
    let dir = InodeData::Directory {
        children: vec![DirEntry { name: String::from("a"), file_type: 1, inode_idx: 1 }],
        startblk: 0,
        dir_data_size: 0,
        parent_nid: 0,
    };
    let empty = InodeData::RegularFile { chunk_indexes: Vec::new() };
    assert_eq!(inode_meta_size(&inode(false, two_chunks()), 12, 12), 48);
    assert_eq!(inode_meta_size(&inode(true, two_chunks()), 12, 12), 80);
    assert_eq!(inode_meta_size(&inode(false, target), 12, 12), 43);
    assert_eq!(inode_meta_size(&inode(true, dir), 12, 12), 64);
    assert_eq!(inode_meta_size(&inode(false, empty), 12, 12), 32);
    assert_eq!(inode_meta_size(&inode(false, InodeData::SpecialNoData), 12, 12), 32);
}

#[test]
fn compact_file_inode_bytes() {
    let b = serialize_inode(&inode(false, two_chunks()), 1_700_000_000, 20);
    let mut expected = serialize_inode_compact(
        0x18, 0o100644, 0, 5000, 10, 0x28, 9, 1000, 100,
    )
    .to_vec();
    expected.extend_from_slice(&[0, 0, 1, 0, 3, 0, 0, 0]);
    expected.extend_from_slice(&[0xFF; 8]);
    assert_eq!(b, expected);
}

#[test]
fn extended_file_inode_bytes() {
    let b = serialize_inode(&inode(true, two_chunks()), 1_700_000_000, 12);
    let mut expected = serialize_inode_extended(
        9, 0o100644, 0, 5000, 0x20, 9, 1000, 100, 1_700_000_010, 42, 1,
    )
    .to_vec();
    expected.extend_from_slice(&[0, 0, 1, 0, 3, 0, 0, 0]);
    expected.extend_from_slice(&[0xFF; 8]);
    assert_eq!(b, expected);
}

#[test]
fn symlink_inode_bytes() {
    let mut info = inode(false, InodeData::Symlink { target: b"to/there".to_vec() });
    info.mode = 0o120777;
    info.size = 8;
    let b = serialize_inode(&info, 1_700_000_000, 12);
    let mut expected =
        serialize_inode_compact(0x14, 0o120777, 0, 8, 10, 0, 9, 1000, 100).to_vec();
    expected.extend_from_slice(b"to/there");
    assert_eq!(b, expected);
}

#[test]
fn directory_and_device_inode_bytes() {
    let mut dir = inode(
        false,
        InodeData::Directory {
            children: Vec::new(),
            startblk: 0x0002_0000_0003,
            dir_data_size: 30,
            parent_nid: 36,
        },
    );
    dir.mode = 0o040755;
    dir.size = 30;
    assert_eq!(
        serialize_inode(&dir, 1_700_000_000, 12),
        serialize_inode_compact(0, 0o040755, 2, 30, 10, 3, 9, 1000, 100).to_vec()
    );
    let dev = inode(true, InodeData::SpecialDev { rdev: 0x0103 });
    assert_eq!(
        serialize_inode(&dev, 0, 12),
        serialize_inode_extended(1, 0o100644, 0, 0, 0x0103, 9, 1000, 100, 1_700_000_010, 42, 1)
            .to_vec()
    );
    let fifo = inode(false, InodeData::SpecialNoData);
    assert_eq!(
        serialize_inode(&fifo, 1_700_000_000, 12),
        serialize_inode_compact(0x10, 0o100644, 0, 0, 10, 0, 9, 1000, 100).to_vec()
    );
}

#[test]
fn compact_fields_are_cut_off() {
    let mut info = inode(false, InodeData::SpecialNoData);
    info.uid = 0x1_0005;
    info.gid = 0x2_0006;
    info.mtime = 5;
    let b = serialize_inode(&info, 6, 12);
    assert_eq!(b, serialize_inode_compact(0x10, 0o100644, 0, 0, 0xFFFF_FFFF, 0, 9, 5, 6).to_vec());
}

#[test]
fn inodes_are_read_back() {
    let mut image = vec![0u8; 64];
    image.extend_from_slice(&serialize_inode(&inode(false, two_chunks()), 1_700_000_000, 20));
    let compact = ErofsInode::parse(&image, 64);
    assert_eq!(compact.mode, 0o100644);
    assert_eq!(compact.size, 5000);
    assert_eq!((compact.uid, compact.gid, compact.nlink, compact.ino), (1000, 100, 1, 9));
    assert_eq!(compact.mtime(1_700_000_000), 1_700_000_010);
    assert_eq!(compact.mtime_nsec, 0);
    assert_eq!(compact.data_layout(), EROFS_INODE_CHUNK_BASED);
    assert_eq!(compact.header_size(), 32);
    assert_eq!(compact.xattr_size(), 0);
    assert_eq!(compact.chunk_format(), 0x28);

    let b = serialize_inode(&inode(true, two_chunks()), 1_700_000_000, 20);
    let extended = ErofsInode::parse(&b, 0);
    assert_eq!(extended.size, 5000);
    assert_eq!((extended.uid, extended.gid, extended.nlink, extended.ino), (1000, 100, 1, 9));
    assert_eq!(extended.mtime(3), 1_700_000_010);
    assert_eq!(extended.mtime_nsec, 42);
    assert_eq!(extended.data_layout(), EROFS_INODE_CHUNK_BASED);
    assert_eq!(extended.header_size(), 64);
}

#[test]
fn start_blocks_have_48_bits() {
    let b = serialize_inode_compact(0, 0o040755, 2, 30, 10, 3, 9, 1000, 100);
    assert_eq!(ErofsInode::parse(&b, 0).startblk(), 0x0002_0000_0003);
}

#[test]
fn xattr_area_sizes() {
    let mut b = serialize_inode_compact(0x10, 0o100644, 0, 0, 0, 0, 1, 0, 0);
    b[2] = 1;
    assert_eq!(ErofsInode::parse(&b, 0).xattr_size(), 12);
    b[2] = 4;
    assert_eq!(ErofsInode::parse(&b, 0).xattr_size(), 24);
}
