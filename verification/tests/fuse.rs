use fuse_backend_rs::abi::fuse_abi::FsOptions;
use mkfs_erofs::fs::fuse::{
    erofs_ft_to_dt, getxattr, init, listxattr, DirHandles, ErofsFs, FsError, GetxattrReply,
    ListCursor, ListxattrReply, DT_BLK, DT_CHR, DT_DIR, DT_FIFO, DT_LNK, DT_REG, DT_SOCK,
    DT_UNKNOWN, EROFS_FUSE_TIMEOUT_SECS, FUSE_ROOT_ID, OPEN_FOR_WRITING, S_IFBLK, S_IFCHR, S_IFDIR,
    S_IFMT, S_IFREG,
};
use mkfs_erofs::fs::meta::CachedDirEntry;
use mkfs_erofs::fs::xattr::Xattr;
use mkfs_erofs::fs::{ErofsReader, ReadError};
use mkfs_erofs::inode::{serialize_inode, InodeData, InodeInfo};
use mkfs_erofs::ondisk::{
    serialize_dirent, serialize_inode_compact, serialize_inode_extended, serialize_superblock,
};

const ROOT: u64 = 36;

fn put(image: &mut [u8], at: usize, bytes: &[u8]) {
    image[at..at + bytes.len()].copy_from_slice(bytes);
}

fn image() -> Vec<u8> {
    let mut image = vec![0u8; 4 * 4096];
    let sb = serialize_superblock(0, 0, ROOT as u16, 5, 1000, 4, 1, 1, 9, &[0u8; 16]);
    put(&mut image, 1024, &sb);
    let at = |nid: usize| 4096 + 32 * nid;
    let names: [(u64, u8, &str); 5] =
        [(ROOT, 2, "."), (ROOT, 2, ".."), (40, 1, "file"), (44, 7, "link"), (5000, 1, "lost")];
    let mut block = Vec::new();
    let mut text = Vec::new();
    for (nid, file_type, name) in names {
        let nameoff = 60 + text.len();
        block.extend_from_slice(&serialize_dirent(nid, nameoff as u16, file_type));
        text.extend_from_slice(name.as_bytes());
    }
    block.extend_from_slice(&text);
    put(&mut image, 2 * 4096, &block);
    let size = block.len() as u32;
    put(
        &mut image,
        at(36),
        &serialize_inode_extended(1, 0o040755, 0, size as u64, 2, 1, 0, 0, 2000, 3, 2),
    );
    put(
        &mut image,
        at(40),
        &serialize_inode_compact(0x10, 0o100644, 0, 5000, 10, 3, 2, 7, 8),
    );
    let link = InodeInfo {
        mode: 0o120777,
        uid: 0,
        gid: 0,
        size: 4,
        mtime: 1000,
        mtime_nsec: 0,
        nlink: 1,
        ino: 3,
        nid: 0,
        meta_offset: 0,
        is_extended: false,
        data: InodeData::Symlink { target: b"file".to_vec() },
    };
    put(&mut image, at(44), &serialize_inode(&link, 1000, 12));
    put(
        &mut image,
        at(48),
        &serialize_inode_compact(0x10, 0o020600, 0, 0, 10, 0x0103, 4, 0, 0),
    );
    image
}

fn entry(nid: u64, file_type: u8, name: &str) -> CachedDirEntry {
    CachedDirEntry { nid, file_type, name: name.as_bytes().to_vec() }
}

#[test]
fn constants_are_those_of_the_platform() {
    assert_eq!(S_IFMT, libc::S_IFMT);
    assert_eq!(S_IFREG, libc::S_IFREG);
    assert_eq!(S_IFDIR, libc::S_IFDIR);
    assert_eq!(S_IFCHR, libc::S_IFCHR);
    assert_eq!(S_IFBLK, libc::S_IFBLK);
    assert_eq!(OPEN_FOR_WRITING, (libc::O_WRONLY | libc::O_RDWR) as u32);
    assert_eq!(DT_REG, libc::DT_REG as u32);
    assert_eq!(DT_DIR, libc::DT_DIR as u32);
    assert_eq!(DT_CHR, libc::DT_CHR as u32);
    assert_eq!(DT_BLK, libc::DT_BLK as u32);
    assert_eq!(DT_FIFO, libc::DT_FIFO as u32);
    assert_eq!(DT_SOCK, libc::DT_SOCK as u32);
    assert_eq!(DT_LNK, libc::DT_LNK as u32);
    assert_eq!(DT_UNKNOWN, libc::DT_UNKNOWN as u32);
}

#[test]
fn capabilities_are_negotiated() {
    let want = FsOptions::ASYNC_READ
        | FsOptions::BIG_WRITES
        | FsOptions::MAX_PAGES
        | FsOptions::PARALLEL_DIROPS
        | FsOptions::DO_READDIRPLUS
        | FsOptions::READDIRPLUS_AUTO
        | FsOptions::ASYNC_DIO
        | FsOptions::CACHE_SYMLINKS;
    assert_eq!(init(u64::MAX), want.bits());
    assert_eq!(init(0), 0);
    assert_eq!(
        init((FsOptions::ASYNC_READ | FsOptions::WRITEBACK_CACHE).bits()),
        FsOptions::ASYNC_READ.bits()
    );
}

#[test]
fn listing_types() {
    let types: Vec<u32> = (0u8..9).map(erofs_ft_to_dt).collect();
    assert_eq!(types, vec![0, 8, 4, 2, 6, 1, 12, 10, 0]);
}

#[test]
fn inode_numbers_and_nids() {
    let image = image();
    let fs = ErofsFs::new(ErofsReader::open(&image).unwrap());
    assert_eq!(fs.to_nid(FUSE_ROOT_ID), ROOT);
    assert_eq!(fs.to_ino(ROOT), FUSE_ROOT_ID);
    assert_eq!(fs.to_nid(41), 40);
    assert_eq!(fs.to_ino(40), 41);
    assert!(fs.can_number(40));
    assert!(!fs.can_number(u64::MAX));
    for nid in [1u64, ROOT, 40, u64::MAX - 1] {
        assert_eq!(fs.to_nid(fs.to_ino(nid)), nid);
    }
}

#[test]
fn attributes_of_a_file() {
    let image = image();
    let fs = ErofsFs::new(ErofsReader::open(&image).unwrap());
    let node = fs.node(41).unwrap();
    assert!(fs.can_stat(node.nid, &node.inode));
    let st = fs.make_stat(node.nid, &node.inode);
    assert_eq!((st.ino, st.mode, st.nlink, st.uid, st.gid), (41, 0o100644, 1, 7, 8));
    assert_eq!((st.size, st.blocks, st.blksize), (5000, 16, 4096));
    assert_eq!((st.time, st.time_nsec, st.rdev), (1010, 0, 0));

    let root = fs.node(FUSE_ROOT_ID).unwrap();
    let st = fs.make_stat(root.nid, &root.inode);
    assert_eq!((st.ino, st.nlink, st.time, st.time_nsec), (1, 2, 2000, 3));

    let device = fs.node(49).unwrap();
    assert_eq!(fs.make_stat(device.nid, &device.inode).rdev, 0x0103);

    let mut huge = node.inode;
    huge.size = u64::MAX;
    assert!(!fs.can_stat(node.nid, &huge));
}

#[test]
fn attributes_of_the_file_system() {
    let image = image();
    let fs = ErofsFs::new(ErofsReader::open(&image).unwrap());
    let st = fs.statfs();
    assert_eq!((st.bsize, st.frsize, st.blocks, st.files, st.namemax), (4096, 4096, 4, 5, 255));
}

#[test]
fn lookups() {
    let image = image();
    let fs = ErofsFs::new(ErofsReader::open(&image).unwrap());
    let found = fs.lookup(FUSE_ROOT_ID, b"file").unwrap();
    assert_eq!(found.nid, 40);
    let e = fs.make_entry(found.nid, &found.inode);
    assert_eq!((e.inode, e.generation, e.attr_flags), (41, 0, 0));
    assert_eq!(e.attr, fs.make_stat(found.nid, &found.inode));
    assert_eq!(e.attr_timeout_secs, 86400 * 365 * 10);
    assert_eq!(e.entry_timeout_secs, EROFS_FUSE_TIMEOUT_SECS);
    assert_eq!(fs.lookup(FUSE_ROOT_ID, b"..").unwrap().nid, ROOT);
    assert_eq!(fs.lookup(FUSE_ROOT_ID, b"none").err(), Some(FsError::NotFound));
    assert_eq!(
        fs.lookup(FUSE_ROOT_ID, b"lost").err(),
        Some(FsError::Read(ReadError::OutOfBounds {
            offset: 4096 + 32 * 5000,
            len: 32,
            image_len: 16384
        }))
    );
    assert_eq!(fs.lookup(5001, b"x").err(), fs.lookup(FUSE_ROOT_ID, b"lost").err());
}

#[test]
fn lookups_agree_with_the_listing() {
    let image = image();
    let fs = ErofsFs::new(ErofsReader::open(&image).unwrap());
    for e in fs.opendir(FUSE_ROOT_ID).unwrap() {
        if e.name != b"lost" {
            assert_eq!(fs.lookup(FUSE_ROOT_ID, &e.name).unwrap().nid, e.nid);
        }
    }
}

#[test]
fn opening() {
    let image = image();
    let fs = ErofsFs::new(ErofsReader::open(&image).unwrap());
    assert_eq!(fs.open(41, libc::O_RDONLY as u32), Ok(40));
    assert_eq!(fs.open(41, libc::O_WRONLY as u32), Err(FsError::ReadOnly));
    assert_eq!(fs.open(41, libc::O_RDWR as u32), Err(FsError::ReadOnly));
    assert_eq!(fs.open(41, libc::O_NONBLOCK as u32), Ok(40));
    assert_eq!(fs.open(FUSE_ROOT_ID, 0), Err(FsError::IsDirectory));
    assert_eq!(fs.open(45, 0), Err(FsError::IsDirectory));
    assert!(matches!(fs.open(9000, 0), Err(FsError::Read(_))));
    assert_eq!(fs.opendir(41).err(), Some(FsError::NotDirectory));
    assert_eq!(fs.opendir(FUSE_ROOT_ID).unwrap().len(), 5);
}

#[test]
fn reading_a_link() {
    let image = image();
    let fs = ErofsFs::new(ErofsReader::open(&image).unwrap());
    assert_eq!(fs.readlink(45), Ok(b"file".to_vec()));
    assert!(matches!(fs.readlink(9000), Err(FsError::Read(_))));
}

#[test]
fn directory_handles() {
    let mut handles = DirHandles::new();
    let a = handles.create(vec![entry(1, 1, "a")]);
    let b = handles.create(vec![entry(2, 1, "b"), entry(3, 1, "c")]);
    assert_eq!((a, b), (1, 2));
    assert_eq!(handles.get(a).unwrap().entries.len(), 1);
    assert_eq!(handles.get(b).unwrap().entries.len(), 2);
    handles.release(a);
    assert_eq!(handles.get(a).err(), Some(FsError::BadHandle));
    assert_eq!(handles.get(b).unwrap().entries[1].name, b"c".to_vec());
    assert_eq!(handles.create(Vec::new()), 3);
}

#[test]
fn listings_resume() {
    let image = image();
    let fs = ErofsFs::new(ErofsReader::open(&image).unwrap());
    let entries = fs.opendir(FUSE_ROOT_ID).unwrap();
    let mut names = Vec::new();
    let mut offset = 0u64;
    for _ in 0..3 {
        let mut cursor = ListCursor::at(offset);
        let mut room = 2;
        while let Some(e) = cursor.entry(&fs, &entries) {
            if room == 0 {
                cursor.added(0);
            } else {
                room -= 1;
                names.push(e.name.clone());
                offset = e.offset;
                cursor.added(24 + e.name.len());
            }
        }
    }
    let all: Vec<Vec<u8>> = entries.iter().map(|e| e.name.clone()).collect();
    assert_eq!(names, all);
    assert_eq!(offset, 5);
}

#[test]
fn listed_entries() {
    let image = image();
    let fs = ErofsFs::new(ErofsReader::open(&image).unwrap());
    let entries = vec![entry(ROOT, 2, "."), entry(40, 1, "file")];
    let cursor = ListCursor::at(1);
    assert_eq!(cursor.next_nid(&entries), Some(40));
    let e = cursor.entry(&fs, &entries).unwrap();
    assert_eq!((e.ino, e.offset, e.type_, &e.name[..]), (41, 2, DT_REG, &b"file"[..]));
    let e = ListCursor::at(0).entry(&fs, &entries).unwrap();
    assert_eq!((e.ino, e.offset, e.type_), (1, 1, DT_DIR));
    assert!(ListCursor::at(2).entry(&fs, &entries).is_none());
    assert_eq!(ListCursor::at(u64::MAX).next_nid(&entries), None);
}

fn xattrs() -> Vec<Xattr> {
    vec![
        Xattr { name: b"user.a".to_vec(), value: b"first".to_vec() },
        Xattr { name: b"user.b".to_vec(), value: Vec::new() },
    ]
}

#[test]
fn extended_attributes() {
    let all = xattrs();
    assert!(matches!(getxattr(&all, b"user.a", 0), Ok(GetxattrReply::Count(5))));
    assert!(matches!(getxattr(&all, b"user.a", 4), Err(FsError::Range)));
    assert!(matches!(getxattr(&all, b"user.a", 5), Ok(GetxattrReply::Value(v)) if v == b"first"));
    assert!(matches!(getxattr(&all, b"user.b", 1), Ok(GetxattrReply::Value(v)) if v.is_empty()));
    assert!(matches!(getxattr(&all, b"user.c", 9), Err(FsError::NoData)));
}

#[test]
fn extended_attribute_names() {
    let all = xattrs();
    assert!(matches!(listxattr(&all, 0), Ok(ListxattrReply::Count(14))));
    assert!(matches!(listxattr(&all, 13), Err(FsError::Range)));
    assert!(
        matches!(listxattr(&all, 14), Ok(ListxattrReply::Names(n)) if n == b"user.a\0user.b\0")
    );
    assert!(matches!(listxattr(&Vec::new(), 1), Ok(ListxattrReply::Names(n)) if n.is_empty()));
}

#[test]
fn listings_with_attributes_agree_with_plain_ones() {
    let image = image();
    let fs = ErofsFs::new(ErofsReader::open(&image).unwrap());
    let entries = fs.opendir(FUSE_ROOT_ID).unwrap();
    let mut plain = ListCursor::at(0);
    let mut plus = ListCursor::at(0);
    for _ in 0..4 {
        let node = plus.next_node(&fs, &entries).unwrap().unwrap();
        assert_eq!(plain.next_nid(&entries), Some(node.nid));
        let a = plain.entry(&fs, &entries).unwrap();
        let b = plus.entry_plus(&fs, &entries, &node);
        assert_eq!(
            (a.ino, a.offset, a.type_, a.name),
            (b.listed.ino, b.listed.offset, b.listed.type_, b.listed.name)
        );
        assert_eq!(b.entry.inode, b.listed.ino);
        assert_eq!(b.entry.attr, fs.make_stat(node.nid, &node.inode));
        plain.added(32);
        plus.added(32);
        assert_eq!(plain, plus);
    }
    assert_eq!(plain.entry(&fs, &entries).unwrap().name, b"lost");
    assert_eq!(
        plus.next_node(&fs, &entries).err(),
        Some(FsError::Read(ReadError::OutOfBounds {
            offset: 4096 + 32 * 5000,
            len: 32,
            image_len: 16384
        }))
    );
    plus.added(0);
    assert_eq!(plus.next_node(&fs, &entries), Ok(None));
}

#[test]
fn extended_attributes_by_inode_number() {
    let mut image = image();
    let at = 4096 + 32 * 40;
    image[at + 2] = 3;
    image[at + 32..at + 52].copy_from_slice(b"\0\0\0\0\0\0\0\0\0\0\0\0\x01\x01\x02\0avw\0");
    let fs = ErofsFs::new(ErofsReader::open(&image).unwrap());
    let found = fs.xattrs_of(41).unwrap();
    assert_eq!(found.len(), 1);
    assert_eq!((found[0].name.as_slice(), found[0].value.as_slice()), (&b"user.a"[..], &b"vw"[..]));
    assert!(fs.xattrs_of(FUSE_ROOT_ID).unwrap().is_empty());
    assert!(matches!(fs.xattrs_of(9000), Err(FsError::Read(_))));
}
