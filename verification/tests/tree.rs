use mkfs_erofs::blobchunk::ChunkIndex;
use mkfs_erofs::inode::{InodeData, InodeInfo};
use mkfs_erofs::names::{name_not_after, sort_by_name};
use mkfs_erofs::tree::{
    attach_chunks, build_tree, child_entry, dir_entry, source_kind, FileJob, FileMeta, SourceContent, SourceEntry,
    SourceKind, SourceNode,
};

fn meta(mode: u32, ino: u64, nlink: u64) -> FileMeta {
    FileMeta {
        dev: 1,
        ino,
        mode,
        nlink,
        uid: 1000,
        gid: 100,
        rdev: 0x1_0000_0102,
        size: 77,
        mtime: 1_700_000_000,
        mtime_nsec: 5,
    }
}

fn file(ino: u64, nlink: u64, source: usize) -> SourceNode {
    SourceNode { meta: meta(0o100644, ino, nlink), content: SourceContent::File { source } }
}

fn entry(name: &str, node: SourceNode) -> SourceEntry {
    SourceEntry { file_name: name.as_bytes().to_vec(), node }
}

fn dir(ino: u64, entries: Vec<SourceEntry>) -> SourceNode {
    SourceNode { meta: meta(0o040755, ino, 2), content: SourceContent::Directory { entries } }
}

fn children(info: &InodeInfo) -> Vec<(String, u8, usize)> {
    match &info.data {
        InodeData::Directory { children, .. } => {
            children.iter().map(|c| (c.name.clone(), c.file_type, c.inode_idx)).collect()
        }
        _ => panic!("not a directory"),
    }
}

#[test]
fn names_are_ordered_by_bytes() {
    let a = b"abc".to_vec();
    let b = b"abd".to_vec();
    let c = b"ab".to_vec();
    assert!(name_not_after(&a, &b));
    assert!(!name_not_after(&b, &a));
    assert!(name_not_after(&c, &a));
    assert!(!name_not_after(&a, &c));
    assert!(name_not_after(&a, &a));
    let z = vec![0xFFu8];
    assert!(name_not_after(&a, &z));
    assert_eq!(sort_by_name(&vec![&b, &z, &a, &c]), vec![3, 2, 0, 1]);
    assert_eq!(sort_by_name(&vec![&a, &a]), vec![0, 1]);
    assert!(sort_by_name(&Vec::new()).is_empty());
}

#[test]
fn kinds_of_source_files() {
    assert_eq!(source_kind(0o040755), SourceKind::Directory);
    assert_eq!(source_kind(0o100644), SourceKind::File);
    assert_eq!(source_kind(0o120777), SourceKind::Symlink);
    assert_eq!(source_kind(0o010600), SourceKind::Special);
    assert_eq!(source_kind(0o060600), SourceKind::Special);
    assert_eq!(source_kind(0o140600), SourceKind::Special);
}

#[test]
fn inodes_come_in_pre_order() {
    let sub = dir(10, vec![entry("z", file(12, 1, 1)), entry("y", file(11, 1, 0))]);
    let root = dir(2, vec![entry("b", file(13, 1, 2)), entry("a", sub)]);
    let plan = build_tree(&root).unwrap();
    assert_eq!(plan.inodes.len(), 5);
    let numbers: Vec<u32> = plan.inodes.iter().map(|i| i.ino).collect();
    assert_eq!(numbers, vec![1, 2, 3, 4, 5]);
    assert_eq!(
        children(&plan.inodes[0]),
        vec![(String::from("a"), 2, 1), (String::from("b"), 1, 4)]
    );
    assert_eq!(
        children(&plan.inodes[1]),
        vec![(String::from("y"), 1, 2), (String::from("z"), 1, 3)]
    );
    assert_eq!(
        plan.files,
        vec![
            FileJob { inode_idx: 2, source: 0, size: 77 },
            FileJob { inode_idx: 3, source: 1, size: 77 },
            FileJob { inode_idx: 4, source: 2, size: 77 },
        ]
    );
    assert_eq!(plan.inodes[0].size, 0);
    assert_eq!(plan.inodes[2].size, 77);
}

#[test]
fn hard_links_share_an_inode() {
    let sub = dir(10, vec![entry("again", file(20, 2, 9))]);
    let mut other_device = file(20, 2, 8);
    other_device.meta.dev = 2;
    let root = dir(
        2,
        vec![
            entry("first", file(20, 2, 7)),
            entry("sub", sub),
            entry("twin", other_device),
            entry("unlinked", file(20, 1, 6)),
        ],
    );
    let plan = build_tree(&root).unwrap();
    assert_eq!(
        children(&plan.inodes[0]),
        vec![
            (String::from("first"), 1, 1),
            (String::from("sub"), 2, 2),
            (String::from("twin"), 1, 3),
            (String::from("unlinked"), 1, 4),
        ]
    );
    assert_eq!(children(&plan.inodes[2]), vec![(String::from("again"), 1, 1)]);
    assert_eq!(plan.inodes.len(), 5);
    let sources: Vec<usize> = plan.files.iter().map(|f| f.source).collect();
    assert_eq!(sources, vec![7, 8, 6]);
}

#[test]
fn other_kinds_of_inodes() {
    let link = SourceNode {
        meta: meta(0o120777, 3, 1),
        content: SourceContent::Symlink { target: b"over/there".to_vec() },
    };
    let plan = build_tree(&link).unwrap();
    assert_eq!(plan.inodes[0].size, 10);
    assert!(!plan.inodes[0].is_extended);
    assert!(matches!(&plan.inodes[0].data, InodeData::Symlink { target } if target == b"over/there"));

    let dev = SourceNode { meta: meta(0o060600, 3, 1), content: SourceContent::Special };
    let plan = build_tree(&dev).unwrap();
    assert_eq!(plan.inodes[0].size, 0);
    assert!(matches!(&plan.inodes[0].data, InodeData::SpecialDev { rdev: 0x0102 }));

    let fifo = SourceNode { meta: meta(0o010600, 3, 1), content: SourceContent::Special };
    let plan = build_tree(&fifo).unwrap();
    assert!(matches!(&plan.inodes[0].data, InodeData::SpecialNoData));
    assert!(plan.files.is_empty());
}

#[test]
fn what_needs_an_extended_inode() {
    let extended = |f: FileMeta| {
        let node = SourceNode { meta: f, content: SourceContent::File { source: 0 } };
        build_tree(&node).unwrap().inodes[0].is_extended
    };
    let plain = meta(0o100644, 3, 1);
    assert!(!extended(plain));
    assert!(!extended(FileMeta { size: 0xFFFF_FFFF, uid: 0xFFFF, gid: 0xFFFF, ..plain }));
    assert!(extended(FileMeta { size: 0x1_0000_0000, ..plain }));
    assert!(extended(FileMeta { uid: 0x1_0000, ..plain }));
    assert!(extended(FileMeta { gid: 0x1_0000, ..plain }));
    assert!(extended(FileMeta { nlink: 2, ..plain }));
}

#[test]
fn fields_of_an_inode() {
    let mut node = file(3, 1, 0);
    node.meta.mtime = -1;
    let plan = build_tree(&node).unwrap();
    let info = &plan.inodes[0];
    assert_eq!((info.mode, info.uid, info.gid), (0o100644, 1000, 100));
    assert_eq!((info.size, info.mtime, info.mtime_nsec), (77, u64::MAX, 5));
    assert_eq!((info.nlink, info.ino, info.nid, info.meta_offset), (1, 1, 0, 0));
    assert!(matches!(&info.data, InodeData::RegularFile { chunk_indexes } if chunk_indexes.is_empty()));
}

#[test]
fn chunks_are_attached() {
    let root = dir(2, vec![entry("a", file(3, 1, 0)), entry("b", file(4, 1, 1))]);
    let mut plan = build_tree(&root).unwrap();
    let index = ChunkIndex { blkaddr: 5, device_id: 1 };
    attach_chunks(&mut plan.inodes, 2, vec![index]);
    assert!(matches!(&plan.inodes[1].data, InodeData::RegularFile { chunk_indexes } if chunk_indexes.is_empty()));
    assert!(matches!(&plan.inodes[2].data, InodeData::RegularFile { chunk_indexes } if *chunk_indexes == vec![index]));
}

#[test]
fn names_are_decoded() {
    let decoded = |bytes: &[u8]| child_entry(bytes, 0o100644, 3).name;
    assert_eq!(decoded(b"plain"), "plain");
    assert_eq!(decoded("gr\u{fc}n".as_bytes()), "gr\u{fc}n");
    assert_eq!(decoded(b"a\xFFb"), "a\u{FFFD}b");
    assert_eq!(decoded(b""), "");
    let root = dir(
        2,
        vec![SourceEntry { file_name: b"x\xFE".to_vec(), node: file(3, 1, 0) }],
    );
    let plan = build_tree(&root).unwrap();
    assert_eq!(children(&plan.inodes[0]), vec![(String::from("x\u{FFFD}"), 1, 1)]);
    let entry = dir_entry(String::from("n"), 0o040755, 7);
    assert_eq!((entry.name.as_str(), entry.file_type, entry.inode_idx), ("n", 2, 7));
}

#[test]
fn every_inode_but_the_root_has_a_parent() {
    let deep = dir(11, vec![entry("q", file(12, 2, 0)), entry("r", dir(13, Vec::new()))]);
    let root = dir(
        2,
        vec![
            entry("m", deep),
            entry("a", file(12, 2, 1)),
            entry("z", file(14, 1, 2)),
            entry("b", dir(15, vec![entry("k", file(12, 2, 3))])),
        ],
    );
    let plan = build_tree(&root).unwrap();
    let mut parents: Vec<Vec<usize>> = vec![Vec::new(); plan.inodes.len()];
    for (d, info) in plan.inodes.iter().enumerate() {
        if matches!(&info.data, InodeData::Directory { .. }) {
            for (_, _, idx) in children(info) {
                parents[idx].push(d);
            }
        }
    }
    assert!(parents[0].is_empty());
    let mut shared = 0;
    for i in 1..plan.inodes.len() {
        assert!(parents[i][0] < i);
        if matches!(&plan.inodes[i].data, InodeData::Directory { .. }) {
            assert_eq!(parents[i].len(), 1);
        }
        if parents[i].len() > 1 {
            shared += 1;
            assert_eq!((parents[i].len(), plan.inodes[i].nlink), (3, 2));
        }
    }
    assert_eq!(shared, 1);
}
