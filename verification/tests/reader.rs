use mkfs_erofs::blobchunk::{BlobWriter, ChunkIndex};
use mkfs_erofs::fs::data::{FileRead, PreadCall, PreadFault, PreadLoop, ReadStep};
use mkfs_erofs::fs::meta::{find_entry, parse_dir_block, same_name};
use mkfs_erofs::fs::{ErofsReader, ReadError};
use mkfs_erofs::inode::{serialize_inode, InodeData, InodeInfo};
use mkfs_erofs::ondisk::{
    serialize_dirent, serialize_inode_compact, serialize_superblock, EROFS_NULL_ADDR,
};

const META: usize = 4096;

fn empty_image(blocks: usize) -> Vec<u8> {
    let mut image = vec![0u8; blocks * 4096];
    let sb = serialize_superblock(0, 0, 2, 5, 1000, blocks as u64, 1, 1, 9, &[0u8; 16]);
    put(&mut image, 1024, &sb);
    image
}

fn put(image: &mut [u8], at: usize, bytes: &[u8]) {
    image[at..at + bytes.len()].copy_from_slice(bytes);
}

fn put_inode(image: &mut [u8], nid: usize, bytes: &[u8]) {
    put(image, META + 32 * nid, bytes);
}

fn dir_block(entries: &[(u64, u8, &str)]) -> Vec<u8> {
    let mut names = Vec::new();
    let mut block = Vec::new();
    for (nid, file_type, name) in entries {
        let nameoff = 12 * entries.len() + names.len();
        block.extend_from_slice(&serialize_dirent(*nid, nameoff as u16, *file_type));
        names.extend_from_slice(name.as_bytes());
    }
    block.extend_from_slice(&names);
    block
}

fn pattern(seed: u8, len: usize) -> Vec<u8> {
    (0..len).map(|i| (i as u8).wrapping_mul(13).wrapping_add(seed)).collect()
}

fn info(mode: u16, size: u64, is_extended: bool, data: InodeData) -> InodeInfo {
    InodeInfo {
        mode,
        uid: 7,
        gid: 8,
        size,
        mtime: 1005,
        mtime_nsec: 6,
        nlink: 1,
        ino: 3,
        nid: 0,
        meta_offset: 0,
        is_extended,
        data,
    }
}

fn chunked(indexes: Vec<ChunkIndex>, size: u64) -> Vec<u8> {
    let data = InodeData::RegularFile { chunk_indexes: indexes };
    serialize_inode(&info(0o100644, size, false, data), 1000, 12)
}

#[test]
fn images_without_a_superblock_are_refused() {
    assert_eq!(ErofsReader::open(&[0u8; 1151]).err(), Some(ReadError::ImageTooSmall));
    assert_eq!(ErofsReader::open(&[0u8; 1152]).err(), Some(ReadError::BadMagic { magic: 0 }));
    assert_eq!(
        ErofsReader::superblock_from(&[0u8; 200], 100).err(),
        Some(ReadError::ImageTooSmall)
    );
    let image = empty_image(2);
    let reader = ErofsReader::open(&image).unwrap();
    assert_eq!(reader.sb().root_nid, 2);
    assert_eq!(reader.sb().inos, 5);
    assert_eq!(reader.sb().blocks, 2);
    assert_eq!(ErofsReader::superblock_from(&image, 1024), Ok(reader.sb()));
}

#[test]
fn slices_of_the_image() {
    let image = empty_image(2);
    let reader = ErofsReader::open(&image).unwrap();
    assert_eq!(reader.mmap_slice(1024, 4), Ok(&image[1024..1028]));
    assert_eq!(reader.mmap_slice(8192, 0), Ok(&image[8192..]));
    assert_eq!(
        reader.mmap_slice(8190, 3),
        Err(ReadError::OutOfBounds { offset: 8190, len: 3, image_len: 8192 })
    );
    assert_eq!(reader.mmap_slice(usize::MAX, 1), Err(ReadError::OffsetOverflow));
}

#[test]
fn inodes_by_nid() {
    let mut image = empty_image(2);
    put_inode(&mut image, 3, &chunked(Vec::new(), 0));
    let reader = ErofsReader::open(&image).unwrap();
    assert_eq!(reader.nid_to_offset(3), 4096 + 96);
    let inode = reader.inode(3).unwrap();
    assert_eq!((inode.mode, inode.uid, inode.gid, inode.ino), (0o100644, 7, 8, 3));
    assert_eq!(
        reader.inode(128).err(),
        Some(ReadError::OutOfBounds { offset: 8192, len: 32, image_len: 8192 })
    );
    assert!(reader.has_address(128));
    assert!(!reader.has_address(u64::MAX));
    assert_eq!(reader.inode(u64::MAX).err(), Some(ReadError::BadNid { nid: u64::MAX }));
}

#[test]
fn an_extended_inode_must_stand_in_the_image() {
    let mut image = empty_image(2);
    image[8160] = 1;
    let reader = ErofsReader::open(&image).unwrap();
    assert_eq!(
        reader.inode(127).err(),
        Some(ReadError::OutOfBounds { offset: 8160, len: 64, image_len: 8192 })
    );
}

#[test]
fn stored_files_are_read_back() {
    for (chunksize, chunkbits, is_extended) in [(4096u32, 12u32, false), (8192, 13, true)] {
        let mut file = pattern(1, 10000);
        file.extend_from_slice(&pattern(1, 9000));
        let mut writer = BlobWriter::new(chunksize);
        let mut blob = writer.write_file_chunks(&pattern(9, 5000)).blob_data;
        let written = writer.write_file_chunks(&file);
        blob.extend_from_slice(&written.blob_data);
        blob.extend_from_slice(&[0xEE; 4096]);
        let data = InodeData::RegularFile { chunk_indexes: written.indexes };
        let node = info(0o100644, file.len() as u64, is_extended, data);
        let mut image = empty_image(2);
        put_inode(&mut image, 5, &serialize_inode(&node, 1000, chunkbits));

        let reader = ErofsReader::open(&image).unwrap();
        let inode = reader.inode(5).unwrap();
        assert_eq!(reader.chunkbits(&inode), chunkbits);
        assert_eq!(reader.chunksize(&inode), chunksize as u64);
        for (offset, size) in [
            (0u64, 19000u32),
            (0, 1),
            (4095, 2),
            (8191, 8194),
            (18999, 1),
            (18999, 100),
            (19000, 5),
            (30000, 5),
            (100, 0),
        ] {
            assert!(reader.can_read(5, &inode, offset));
            let from = file.len().min(offset as usize);
            let to = file.len().min(offset as usize + size as usize);
            assert_eq!(
                reader.read_file_data_sync(5, &inode, offset, size, Some(&blob)),
                Ok(file[from..to].to_vec())
            );
        }
    }
}

#[test]
fn holes_and_chunks_of_the_image() {
    let mut image = empty_image(4);
    let block = pattern(5, 4096);
    put(&mut image, 3 * 4096, &block);
    let indexes = vec![
        ChunkIndex { blkaddr: EROFS_NULL_ADDR, device_id: 1 },
        ChunkIndex { blkaddr: 3, device_id: 0 },
    ];
    put_inode(&mut image, 5, &chunked(indexes, 8192));
    let reader = ErofsReader::open(&image).unwrap();
    let inode = reader.inode(5).unwrap();
    let mut expected = vec![0u8; 96];
    expected.extend_from_slice(&block[..104]);
    assert_eq!(reader.read_file_data_sync(5, &inode, 4000, 200, None), Ok(expected));
    let table = reader.chunk_indexes(5, &inode).unwrap();
    assert_eq!(ErofsReader::chunk_index_at(table, 1), ChunkIndex { blkaddr: 3, device_id: 0 });
}

#[test]
fn reads_that_fail() {
    let mut image = empty_image(2);
    let indexes =
        vec![ChunkIndex { blkaddr: 1, device_id: 1 }, ChunkIndex { blkaddr: 9, device_id: 0 }];
    put_inode(&mut image, 5, &chunked(indexes, 8192));
    put_inode(&mut image, 9, &serialize_inode_compact(0x12, 0o100644, 0, 50, 0, 0, 4, 0, 0));
    let reader = ErofsReader::open(&image).unwrap();
    let inode = reader.inode(5).unwrap();
    assert_eq!(
        reader.read_file_data_sync(5, &inode, 0, 10, None),
        Err(ReadError::BlobMissing)
    );
    let blob = vec![0u8; 4096 + 9];
    assert_eq!(
        reader.read_file_data_sync(5, &inode, 0, 10, Some(&blob)),
        Err(ReadError::BlobEof)
    );
    assert_eq!(reader.read_file_data_sync(5, &inode, 0, 9, Some(&blob)), Ok(vec![0u8; 9]));
    assert_eq!(
        reader.read_file_data_sync(5, &inode, 4096, 10, None),
        Err(ReadError::OutOfBounds { offset: 9 * 4096, len: 10, image_len: 8192 })
    );
    let odd = reader.inode(9).unwrap();
    assert_eq!(
        reader.read_file_data_sync(9, &odd, 0, 10, None),
        Err(ReadError::UnsupportedLayout { layout: 1 })
    );
    assert_eq!(reader.chunk_indexes(9, &odd), Err(ReadError::NotChunkBased));
}

#[test]
fn geometry_that_does_not_fit() {
    let mut image = empty_image(2);
    image[1024 + 12] = 40;
    let mut inode = serialize_inode_compact(0x18, 0o100644, 0, 50, 0, 0x38, 4, 0, 0);
    put_inode(&mut image, 5, &inode);
    inode[0] = 0;
    put_inode(&mut image, 6, &inode);
    let reader = ErofsReader::open(&image).unwrap();
    assert!(!reader.can_read(5, &reader.inode(5).unwrap(), 0));
    assert!(reader.can_read(5, &reader.inode(5).unwrap(), 50));
    assert!(reader.can_read(6, &reader.inode(6).unwrap(), 0));
}

#[test]
fn a_read_asks_for_blob_data() {
    let mut image = empty_image(2);
    let indexes = vec![
        ChunkIndex { blkaddr: EROFS_NULL_ADDR, device_id: 1 },
        ChunkIndex { blkaddr: 7, device_id: 1 },
    ];
    put_inode(&mut image, 5, &chunked(indexes, 8000));
    let reader = ErofsReader::open(&image).unwrap();
    let inode = reader.inode(5).unwrap();
    let mut chunks = match reader.read_file_data(5, &inode, 4090, 10) {
        Ok(FileRead::Chunks(chunks)) => chunks,
        _ => panic!("expected chunks"),
    };
    assert_eq!(chunks.step(), Ok(ReadStep::Advanced));
    assert_eq!(chunks.step(), Ok(ReadStep::Blob { offset: 7 * 4096, len: 4 }));
    chunks.supply(&[1, 2, 3, 4]);
    assert_eq!(chunks.step(), Ok(ReadStep::Done));
    assert_eq!(chunks.finish(), vec![0, 0, 0, 0, 0, 0, 1, 2, 3, 4]);
    match reader.read_file_data(5, &inode, 8000, 10) {
        Ok(FileRead::Data(data)) => assert!(data.is_empty()),
        _ => panic!("expected data"),
    }
}

#[test]
fn behind_the_last_index_is_zero() {
    let image = empty_image(2);
    let reader = ErofsReader::open(&image).unwrap();
    let table = [0xFFu8; 8];
    let chunks = mkfs_erofs::fs::data::ChunkReader {
        reader,
        ci_data: &table,
        chunksize: 4096,
        offset: 4000,
        buf_pos: 0,
        result: vec![0u8; 300],
    };
    assert_eq!(chunks.run(None), Ok(vec![0u8; 300]));
}

#[test]
fn flat_data() {
    let mut image = empty_image(5);
    let blocks = pattern(3, 8192);
    put(&mut image, 2 * 4096, &blocks);
    put_inode(&mut image, 4, &serialize_inode_compact(0x10, 0o100644, 0, 5000, 0, 2, 4, 0, 0));
    put_inode(&mut image, 8, &serialize_inode_compact(0x14, 0o100644, 0, 4100, 0, 2, 4, 0, 0));
    put_inode(&mut image, 9, b"tail");
    let reader = ErofsReader::open(&image).unwrap();

    let plain = reader.inode(4).unwrap();
    assert_eq!(
        reader.read_flat_data_vec(4, &plain, 4000, 1000),
        Ok(blocks[4000..5000].to_vec())
    );
    assert_eq!(
        reader.read_file_data_sync(4, &plain, 4999, 7, None),
        Ok(blocks[4999..5000].to_vec())
    );

    let inline = reader.inode(8).unwrap();
    let mut whole = blocks[..4096].to_vec();
    whole.extend_from_slice(b"tail");
    assert_eq!(reader.read_flat_data_vec(8, &inline, 0, 4100), Ok(whole.clone()));
    assert_eq!(reader.read_flat_data_vec(8, &inline, 4095, 3), Ok(whole[4095..4098].to_vec()));
    assert_eq!(reader.read_flat_data_vec(8, &inline, 4097, 3), Ok(b"ail".to_vec()));
}

#[test]
fn symlink_targets() {
    let mut image = empty_image(2);
    let target = InodeData::Symlink { target: b"over/there".to_vec() };
    put_inode(&mut image, 4, &serialize_inode(&info(0o120777, 10, false, target), 1000, 12));
    let target = InodeData::Symlink { target: b"x".to_vec() };
    put_inode(&mut image, 8, &serialize_inode(&info(0o120777, 1, true, target), 1000, 12));
    let reader = ErofsReader::open(&image).unwrap();
    assert_eq!(reader.read_symlink(4, &reader.inode(4).unwrap()), Ok(b"over/there".to_vec()));
    assert_eq!(reader.read_symlink(8, &reader.inode(8).unwrap()), Ok(b"x".to_vec()));
}

#[test]
fn directory_blocks() {
    let block = dir_block(&[(2, 2, "."), (2, 2, ".."), (7, 1, "file")]);
    let entries = parse_dir_block(&block).unwrap();
    let listed: Vec<(u64, u8, &[u8])> =
        entries.iter().map(|e| (e.nid, e.file_type, &e.name[..])).collect();
    assert_eq!(listed, vec![(2, 2, &b"."[..]), (2, 2, &b".."[..]), (7, 1, &b"file"[..])]);
    assert_eq!(find_entry(&entries, b".."), Some(2));
    assert_eq!(find_entry(&entries, b"file"), Some(7));
    assert_eq!(find_entry(&entries, b"fil"), None);

    let mut padded = block.clone();
    padded.resize(4096, 0);
    assert_eq!(parse_dir_block(&padded).unwrap()[2].name, b"file".to_vec());

    assert!(same_name(b"ab", b"ab"));
    assert!(!same_name(b"ab", b"ac"));
    assert!(!same_name(b"ab", b"a"));
}

#[test]
fn corrupt_directory_blocks() {
    let good = dir_block(&[(2, 2, "."), (2, 2, ".."), (7, 1, "file")]);
    assert_eq!(parse_dir_block(&good[..11]).err(), Some(ReadError::CorruptDirectory));
    for (at, value) in [(8usize, 0u8), (8, 35), (9, 0x10), (20, 36), (32, 200)] {
        let mut bad = good.clone();
        bad[at] = value;
        let outcome = parse_dir_block(&bad);
        if (at, value) == (20, 36) {
            assert_eq!(outcome.unwrap()[0].name, Vec::<u8>::new());
        } else {
            assert_eq!(outcome.err(), Some(ReadError::CorruptDirectory));
        }
    }
}

#[test]
fn directories_of_several_blocks() {
    let mut image = empty_image(5);
    let mut first = dir_block(&[(2, 2, "."), (2, 2, ".."), (7, 1, "a")]);
    first.resize(4096, 0);
    let second = dir_block(&[(9, 1, "b"), (11, 7, "c")]);
    put(&mut image, 2 * 4096, &first);
    put(&mut image, 3 * 4096, &second);
    let size = 4096 + second.len() as u32;
    put_inode(&mut image, 2, &serialize_inode_compact(0, 0o040755, 0, size, 0, 2, 1, 0, 0));
    put_inode(&mut image, 4, &serialize_inode_compact(0, 0o040755, 0, 0, 0, 0, 1, 0, 0));
    put_inode(&mut image, 6, &serialize_inode_compact(0, 0o040755, 0, 20, 0, 4, 1, 0, 0));
    let reader = ErofsReader::open(&image).unwrap();
    let root = reader.inode(2).unwrap();
    let names: Vec<Vec<u8>> =
        reader.read_dir_cached(2, &root).unwrap().into_iter().map(|e| e.name).collect();
    let expected: Vec<Vec<u8>> =
        [".", "..", "a", "b", "c"].iter().map(|n| n.as_bytes().to_vec()).collect();
    assert_eq!(names, expected);
    assert_eq!(reader.find_dir_entry(2, &root, b"a"), Ok(Some(7)));
    assert_eq!(reader.find_dir_entry(2, &root, b"c"), Ok(Some(11)));
    assert_eq!(reader.find_dir_entry(2, &root, b"d"), Ok(None));

    let empty = reader.inode(4).unwrap();
    assert!(reader.read_dir_cached(4, &empty).unwrap().is_empty());
    assert_eq!(reader.find_dir_entry(4, &empty, b"a"), Ok(None));

    let corrupt = reader.inode(6).unwrap();
    assert_eq!(reader.read_dir_cached(6, &corrupt).err(), Some(ReadError::CorruptDirectory));
    assert_eq!(
        reader.find_dir_entry(6, &corrupt, b"a"),
        Err(ReadError::CorruptDirectory)
    );
}

#[test]
fn short_preads_are_continued() {
    let mut read = PreadLoop::new(100, 10);
    assert_eq!(read.next_call(), Some(PreadCall { start: 0, len: 10, offset: 100 }));
    assert_eq!(read.returned(4), Ok(()));
    assert_eq!(read.next_call(), Some(PreadCall { start: 4, len: 6, offset: 104 }));
    assert_eq!(read.returned(-1), Err(PreadFault::Os));
    assert_eq!(read.returned(0), Err(PreadFault::Eof));
    assert_eq!(read.returned(6), Ok(()));
    assert_eq!(read.next_call(), None);
    assert_eq!(PreadLoop::new(5, 0).next_call(), None);
}

#[test]
fn a_device_holds_every_file() {
    let files = [pattern(1, 9000), pattern(2, 4096), pattern(1, 4096), Vec::new(), pattern(1, 9000)];
    let mut writer = BlobWriter::new(4096);
    let mut blob = Vec::new();
    let mut image = empty_image(2);
    for (i, file) in files.iter().enumerate() {
        let written = writer.write_file_chunks(file);
        blob.extend_from_slice(&written.blob_data);
        put_inode(&mut image, 4 * i, &chunked(written.indexes, file.len() as u64));
    }
    assert_eq!(blob.len() as u64, writer.total_blocks() * 4096);
    let reader = ErofsReader::open(&image).unwrap();
    for (i, file) in files.iter().enumerate() {
        let nid = 4 * i as u64;
        let inode = reader.inode(nid).unwrap();
        assert_eq!(
            reader.read_file_data_sync(nid, &inode, 0, 10000, Some(&blob)),
            Ok(file.clone())
        );
        let mut pieces = Vec::new();
        while pieces.len() < file.len() {
            let at = pieces.len() as u64;
            pieces.extend(reader.read_file_data_sync(nid, &inode, at, 1000, Some(&blob)).unwrap());
        }
        assert_eq!(&pieces, file);
    }
}

#[test]
fn a_read_far_behind_the_file_is_zero() {
    let mut image = empty_image(2);
    let indexes = vec![ChunkIndex { blkaddr: 7, device_id: 1 }];
    put_inode(&mut image, 5, &chunked(indexes, 4096));
    let reader = ErofsReader::open(&image).unwrap();
    let inode = reader.inode(5).unwrap();
    for offset in [4096u64, u64::MAX - 3, u64::MAX] {
        assert_eq!(
            reader.read_chunk_data_sync(5, &inode, offset, 10, None),
            Ok(vec![0u8; 10])
        );
    }
    let mut chunks = reader.read_chunk_data(5, &inode, u64::MAX - 3, 10).unwrap();
    assert_eq!(chunks.step(), Ok(ReadStep::Done));
    assert_eq!(chunks.finish(), vec![0u8; 10]);
}

#[test]
fn a_read_in_steps_agrees_with_one_in_memory() {
    let file = pattern(6, 9000);
    let mut writer = BlobWriter::new(4096);
    let written = writer.write_file_chunks(&file);
    let blob = written.blob_data;
    let mut image = empty_image(2);
    put_inode(&mut image, 5, &chunked(written.indexes, 9000));
    let reader = ErofsReader::open(&image).unwrap();
    let inode = reader.inode(5).unwrap();
    let mut chunks = reader.read_chunk_data(5, &inode, 100, 8500).unwrap();
    loop {
        match chunks.step() {
            Ok(ReadStep::Done) => break,
            Ok(ReadStep::Advanced) => {}
            Ok(ReadStep::Blob { offset, len }) => {
                let at = offset as usize;
                chunks.supply(&blob[at..at + len]);
            }
            Err(e) => panic!("{:?}", e),
        }
    }
    assert_eq!(
        Ok(chunks.finish()),
        reader.read_chunk_data_sync(5, &inode, 100, 8500, Some(&blob))
    );
}

fn xattr_entry(index: u8, name: &[u8], value: &[u8]) -> Vec<u8> {
    let mut entry = vec![name.len() as u8, index];
    entry.extend_from_slice(&(value.len() as u16).to_le_bytes());
    entry.extend_from_slice(name);
    entry.extend_from_slice(value);
    while entry.len() % 4 != 0 {
        entry.push(0);
    }
    entry
}

fn put_xattrs(image: &mut [u8], nid: usize, shared: &[u32], entries: &[u8]) {
    let count = 1 + shared.len() + entries.len() / 4;
    let mut inode = serialize_inode_compact(0x10, 0o100644, 0, 0, 0, 0, 4, 0, 0);
    inode[2..4].copy_from_slice(&(count as u16).to_le_bytes());
    let mut bytes = inode.to_vec();
    bytes.extend_from_slice(&[0, 0, 0, 0, shared.len() as u8, 0, 0, 0, 0, 0, 0, 0]);
    for id in shared {
        bytes.extend_from_slice(&id.to_le_bytes());
    }
    bytes.extend_from_slice(entries);
    put_inode(image, nid, &bytes);
}

fn names_and_values(reader: &ErofsReader, nid: u64) -> Result<Vec<(String, Vec<u8>)>, ReadError> {
    let inode = reader.inode(nid)?;
    let xattrs = reader.read_xattrs(nid, &inode)?;
    Ok(xattrs.into_iter().map(|x| (String::from_utf8(x.name).unwrap(), x.value)).collect())
}

#[test]
fn extended_attributes_of_an_inode() {
    let mut image = empty_image(4);
    put(&mut image, 1024 + 44, &[3, 0, 0, 0]);
    put(&mut image, 3 * 4096 + 40, &xattr_entry(6, b"selinux", b"label"));
    let mut entries = xattr_entry(1, b"a", b"first");
    entries.extend(xattr_entry(2, b"", b"x"));
    entries.extend(xattr_entry(3, b"", b""));
    entries.extend(xattr_entry(4, b"overlay.opaque", b"y"));
    entries.extend(xattr_entry(99, b"unknown", b"z"));
    put_xattrs(&mut image, 4, &[10], &entries);
    put_inode(&mut image, 40, &serialize_inode_compact(0x10, 0o100644, 0, 0, 0, 0, 4, 0, 0));
    let reader = ErofsReader::open(&image).unwrap();
    let expected: Vec<(String, Vec<u8>)> = vec![
        (String::from("user.a"), b"first".to_vec()),
        (String::from("system.posix_acl_access"), b"x".to_vec()),
        (String::from("system.posix_acl_default"), Vec::new()),
        (String::from("trusted.overlay.opaque"), b"y".to_vec()),
        (String::from("security.selinux"), b"label".to_vec()),
    ];
    assert_eq!(names_and_values(&reader, 4), Ok(expected));
    assert_eq!(names_and_values(&reader, 40), Ok(Vec::new()));
}

#[test]
fn corrupt_extended_attributes() {
    let mut image = empty_image(2);
    put_xattrs(&mut image, 4, &[], &[200, 1, 0, 0]);
    put_xattrs(&mut image, 10, &[1 << 20], &[]);
    put_xattrs(&mut image, 16, &[], &[0, 0, 0, 0]);
    image[META + 32 * 16 + 32 + 4] = 9;
    let reader = ErofsReader::open(&image).unwrap();
    assert_eq!(names_and_values(&reader, 4), Err(ReadError::CorruptXattrs));
    assert_eq!(
        names_and_values(&reader, 10),
        Err(ReadError::OutOfBounds { offset: 1 << 22, len: 4, image_len: 8192 })
    );
    assert_eq!(names_and_values(&reader, 16), Err(ReadError::CorruptXattrs));
}

#[test]
fn a_chunk_read_of_another_layout_is_refused() {
    let mut image = empty_image(2);
    put_inode(&mut image, 5, &serialize_inode_compact(0x10, 0o100644, 0, 50, 0, 0, 4, 0, 0));
    let reader = ErofsReader::open(&image).unwrap();
    let inode = reader.inode(5).unwrap();
    assert_eq!(
        reader.read_chunk_data_sync(5, &inode, 0, 10, None),
        Err(ReadError::NotChunkBased)
    );
}

#[test]
fn a_run_of_preads_fills_the_buffer() {
    let device = pattern(2, 100);
    for step in [1i64, 3, 7, 50] {
        let mut buf = vec![0xEEu8; 40];
        let mut state = PreadLoop::new(30, 40);
        while let Some(call) = state.next_call() {
            let n = step.min(call.len as i64);
            let from = call.offset as usize;
            buf[call.start..call.start + n as usize]
                .copy_from_slice(&device[from..from + n as usize]);
            assert_eq!(state.returned(n), Ok(()));
        }
        assert_eq!(buf, device[30..70].to_vec());
    }
    let mut state = PreadLoop::new(90, 20);
    assert_eq!(state.returned(10), Ok(()));
    assert_eq!(state.next_call(), Some(PreadCall { start: 10, len: 10, offset: 100 }));
    assert_eq!(state.returned(0), Err(PreadFault::Eof));
}

#[test]
fn chunks_are_followed_by_zeros() {
    let mut writer = BlobWriter::new(8192);
    let mut blob = writer.write_file_chunks(&pattern(1, 9000)).blob_data;
    let second = writer.write_file_chunks(&pattern(7, 10));
    blob.extend_from_slice(&second.blob_data);
    let at = second.indexes[0].blkaddr as usize * 4096;
    assert_eq!(at, 3 * 4096);
    assert_eq!(blob[at..at + 10], pattern(7, 10)[..]);
    assert!(blob[at + 10..at + 4096].iter().all(|b| *b == 0));
    assert!(blob[9000..3 * 4096].iter().all(|b| *b == 0));
}
