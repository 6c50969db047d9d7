//! What the requests are answered, stated of their arguments and results.
use crate::fs::fuse;
use crate::fs::fuse::{
    DirHandle, DirHandles, ErofsFs, FileEntry, FileStat, FsError, FsStat, GetxattrReply,
    ListCursor, ListedEntry, ListedPlus, ListxattrReply, Node,
};
use crate::fs::meta;
use crate::fs::meta::CachedDirEntry;
use crate::fs::xattr::Xattr;
use crate::fs::{ErofsReader, ReadError};
use crate::laws::fuse as fuse_laws;
use crate::metadata::ErofsInode;
use std::sync::Arc;
use vstd::prelude::*;

verus! {

// ---------------------------------------------------------------------------
// Requests
// ---------------------------------------------------------------------------

/// A file is opened with the NID of its inode as handle, exactly if it is not to
/// be written, its inode can be read and the four top bits of its mode are those
/// of a regular file, whatever its permissions.
pub proof fn law_opened_file(fs: ErofsFs, ino: u64, flags: u32, r: Result<u64, FsError>)
    requires
        call_ensures(ErofsFs::open, (&fs, ino, flags), r),
        ino > 0,
    ensures
        ({
            let nid = if ino == 1 {
                fs.reader.spec_sb().root_nid
            } else {
                (ino - 1) as u64
            };
            &&& flags % 4 != 0 ==> r == Err::<u64, FsError>(FsError::ReadOnly)
            &&& flags % 4 == 0 ==> match fs.reader.spec_inode(nid) {
                Err(e) => r == Err::<u64, FsError>(FsError::Read(e)),
                Ok(inode) => if inode.mode / 4096 == 8 {
                    r == Ok::<u64, FsError>(nid)
                } else {
                    r == Err::<u64, FsError>(FsError::IsDirectory)
                },
            }
        }),
{
    fuse_laws::law_open(fs, ino, flags);
}

/// The file system has the blocks and inodes that its superblock counts, and
/// names of up to 255 bytes.
pub proof fn law_statfs(fs: ErofsFs, r: FsStat)
    requires
        call_ensures(ErofsFs::statfs, (&fs,), r),
        fs.reader.spec_sb().blkszbits < 64,
    ensures
        r.bsize == vstd::arithmetic::power2::pow2(fs.reader.spec_sb().blkszbits as nat),
        r.frsize == r.bsize,
        r.blocks == fs.reader.spec_sb().blocks,
        r.files == fs.reader.spec_sb().inos,
        r.namemax == 255,
{
    vstd::bits::lemma_u64_pow2_no_overflow(fs.reader.spec_sb().blkszbits as nat);
}

/// A file system is served from the image that it is given.
pub proof fn law_served_image(reader: ErofsReader, r: ErofsFs)
    requires
        call_ensures(ErofsFs::new, (reader,), r),
    ensures
        r.reader == reader,
{
}

/// A request is answered from the inode of its number: 1 is the root, any other
/// is one more than the NID.
pub proof fn law_node_of_a_request(fs: ErofsFs, ino: u64, r: Result<Node, FsError>)
    requires
        call_ensures(ErofsFs::node, (&fs, ino), r),
        ino > 0,
    ensures
        ({
            let nid = if ino == 1 {
                fs.reader.spec_sb().root_nid
            } else {
                (ino - 1) as u64
            };
            match fs.reader.spec_inode(nid) {
                Ok(inode) => r == Ok::<Node, FsError>(Node { nid, inode }),
                Err(e) => r == Err::<Node, FsError>(FsError::Read(e)),
            }
        }),
{
}

/// Numbers and NIDs: 1 is the root, any other number is one more than the NID.
pub proof fn law_numbers(fs: ErofsFs, ino: u64, nid: u64, to_nid: u64, to_ino: u64, can: bool)
    requires
        call_ensures(ErofsFs::to_nid, (&fs, ino), to_nid),
        call_ensures(ErofsFs::to_ino, (&fs, nid), to_ino),
        call_ensures(ErofsFs::can_number, (&fs, nid), can),
    ensures
        ino == 1 ==> to_nid == fs.reader.spec_sb().root_nid,
        ino > 1 ==> to_nid + 1 == ino,
        nid == fs.reader.spec_sb().root_nid ==> to_ino == 1,
        nid != fs.reader.spec_sb().root_nid && nid < u64::MAX ==> to_ino == nid + 1,
        can <==> nid < u64::MAX || nid == fs.reader.spec_sb().root_nid,
{
}

/// A directory is opened exactly if its inode can be read, the four top bits of
/// its mode are those of a directory and all of its blocks can be read: as many
/// as cover its size, and no more. It is opened with all of their entries.
pub proof fn law_opened_directory(
    fs: ErofsFs,
    ino: u64,
    blocks: nat,
    r: Result<Vec<CachedDirEntry>, FsError>,
    i: int,
)
    requires
        call_ensures(ErofsFs::opendir, (&fs, ino), r),
        ino > 0,
        ({
            let nid = if ino == 1 {
                fs.reader.spec_sb().root_nid
            } else {
                (ino - 1) as u64
            };
            fs.reader.spec_inode(nid) matches Ok(inode) ==> (blocks - 1) * 4096 < inode.size
                <= blocks * 4096
        }),
    ensures
        ({
            let nid = if ino == 1 {
                fs.reader.spec_sb().root_nid
            } else {
                (ino - 1) as u64
            };
            match fs.reader.spec_inode(nid) {
                Err(e) => r == Err::<Vec<CachedDirEntry>, FsError>(FsError::Read(e)),
                Ok(inode) => if inode.mode / 4096 != 4 {
                    r == Err::<Vec<CachedDirEntry>, FsError>(FsError::NotDirectory)
                } else {
                    match fs.reader.dir_entries(nid, inode, blocks) {
                        Err(e) => r == Err::<Vec<CachedDirEntry>, FsError>(FsError::Read(e)),
                        Ok(entries) => r matches Ok(v) && v@.len() == entries.len() && (0 <= i
                            < v@.len() ==> {
                            &&& v@[i].nid == entries[i].nid
                            &&& v@[i].file_type == entries[i].file_type
                            &&& v@[i].name@ == entries[i].name
                        }),
                    }
                },
            }
        }),
{
    fuse_laws::law_opendir(fs, ino, blocks);
    if let Ok(v) = r {
        if 0 <= i < v@.len() {
            assert(meta::cached_view(v@)[i] == v@[i]@);
        }
    }
}

/// In a directory that can be opened, a lookup finds the first entry of exactly
/// that name and gives its inode; if no entry has exactly that name, it answers
/// that there is none.
pub proof fn law_looked_up_name(
    fs: ErofsFs,
    parent: u64,
    name: &[u8],
    listed: Vec<CachedDirEntry>,
    r: Result<Node, FsError>,
    i: int,
)
    requires
        call_ensures(
            ErofsFs::opendir,
            (&fs, parent),
            Ok::<Vec<CachedDirEntry>, FsError>(listed),
        ),
        call_ensures(ErofsFs::lookup, (&fs, parent, name), r),
    ensures
        0 <= i < listed@.len() && listed@[i].name@ == name@ && (forall|j: int|
            0 <= j < i ==> (#[trigger] listed@[j]).name@ != name@) ==> (match fs.reader.spec_inode(
            listed@[i].nid,
        ) {
            Ok(inode) => r == Ok::<Node, FsError>(Node { nid: listed@[i].nid, inode }),
            Err(e) => r == Err::<Node, FsError>(FsError::Read(e)),
        }),
        r == Err::<Node, FsError>(FsError::NotFound) <==> forall|j: int|
            0 <= j < listed@.len() ==> (#[trigger] listed@[j]).name@ != name@,
{
    let all = meta::cached_view(listed@);
    assert(forall|j: int| 0 <= j < all.len() ==> #[trigger] all[j] == listed@[j]@);
    fuse_laws::law_lookup_misses_only_what_is_not_there(fs, parent, name@);
    if 0 <= i < listed@.len() && listed@[i].name@ == name@ && (forall|j: int|
        0 <= j < i ==> (#[trigger] listed@[j]).name@ != name@) {
        assert forall|j: int| 0 <= j < i implies (#[trigger] all[j]).name != name@ by {
            assert(listed@[j].name@ != name@);
        }
        fuse_laws::law_lookup_finds_the_name(fs, parent, name@, i);
    }
    if r == Err::<Node, FsError>(FsError::NotFound) {
        assert forall|j: int| 0 <= j < listed@.len() implies (#[trigger] listed@[j]).name@
            != name@ by {
            assert(all[j].name != name@);
        }
    } else if forall|j: int| 0 <= j < listed@.len() ==> (#[trigger] listed@[j]).name@ != name@ {
        assert forall|j: int|
            0 <= j < fs.spec_opendir(parent)->Ok_0.len() implies (#[trigger] fs.spec_opendir(
            parent,
        )->Ok_0[j]).name != name@ by {
            assert(listed@[j].name@ != name@);
        }
    }
}

/// A lookup finds what the directory has under the name, and gives its inode.
pub proof fn law_lookup_goes_by_the_directory(
    fs: ErofsFs,
    parent: u64,
    name: &[u8],
    dir: Node,
    found: Result<Option<u64>, ReadError>,
    r: Result<Node, FsError>,
)
    requires
        call_ensures(ErofsFs::node, (&fs, parent), Ok::<Node, FsError>(dir)),
        call_ensures(
            ErofsReader::find_dir_entry,
            (&fs.reader, dir.nid, &dir.inode, name),
            found,
        ),
        call_ensures(ErofsFs::lookup, (&fs, parent, name), r),
    ensures
        match found {
            Err(e) => r == Err::<Node, FsError>(FsError::Read(e)),
            Ok(None) => r == Err::<Node, FsError>(FsError::NotFound),
            Ok(Some(nid)) => match fs.reader.spec_inode(nid) {
                Err(e) => r == Err::<Node, FsError>(FsError::Read(e)),
                Ok(inode) => r == Ok::<Node, FsError>(Node { nid, inode }),
            },
        },
{
}

/// A lookup in a directory whose inode cannot be read fails alike.
pub proof fn law_lookup_without_a_directory(
    fs: ErofsFs,
    parent: u64,
    name: &[u8],
    e: FsError,
    r: Result<Node, FsError>,
)
    requires
        call_ensures(ErofsFs::node, (&fs, parent), Err::<Node, FsError>(e)),
        call_ensures(ErofsFs::lookup, (&fs, parent, name), r),
    ensures
        r == Err::<Node, FsError>(e),
{
}

/// The target of a symbolic link is all of its flat data.
pub proof fn law_link_of_a_request(fs: ErofsFs, ino: u64, r: Result<Vec<u8>, FsError>)
    requires
        call_ensures(ErofsFs::readlink, (&fs, ino), r),
        ino > 0,
    ensures
        ({
            let nid = if ino == 1 {
                fs.reader.spec_sb().root_nid
            } else {
                (ino - 1) as u64
            };
            match fs.reader.spec_inode(nid) {
                Err(e) => r == Err::<Vec<u8>, FsError>(FsError::Read(e)),
                Ok(inode) => inode.size <= usize::MAX ==> match fs.reader.flat_data(
                    nid,
                    inode,
                    0,
                    inode.size as int,
                ) {
                    Ok(b) => r matches Ok(v) && v@ == b,
                    Err(e) => r == Err::<Vec<u8>, FsError>(FsError::Read(e)),
                },
            }
        }),
{
}

/// The extended attributes of a file are those of its inode.
pub proof fn law_xattrs_of_a_request(
    fs: ErofsFs,
    ino: u64,
    r: Result<Vec<Xattr>, FsError>,
    i: int,
)
    requires
        call_ensures(ErofsFs::xattrs_of, (&fs, ino), r),
        ino > 0,
    ensures
        ({
            let nid = if ino == 1 {
                fs.reader.spec_sb().root_nid
            } else {
                (ino - 1) as u64
            };
            match fs.reader.spec_inode(nid) {
                Err(e) => r == Err::<Vec<Xattr>, FsError>(FsError::Read(e)),
                Ok(inode) => match fs.reader.xattrs(nid, inode) {
                    Ok(x) => r matches Ok(v) && v@.len() == x.len() && (0 <= i < x.len()
                        ==> v@[i].name@ == x[i].name && v@[i].value@ == x[i].value),
                    Err(e) => r == Err::<Vec<Xattr>, FsError>(FsError::Read(e)),
                },
            }
        }),
{
    if let Ok(v) = r {
        let node = fs.spec_node(ino)->Ok_0;
        let x = fs.reader.xattrs(node.nid, node.inode)->Ok_0;
        assert(x.len() == v@.len());
        if 0 <= i < x.len() {
            assert(x[i] == v@[i]@);
        }
    }
}

// ---------------------------------------------------------------------------
// Attributes
// ---------------------------------------------------------------------------

/// The attributes of a file are those of its inode. It takes whole blocks, as few
/// as hold its size, counted in units of 512 bytes. Only devices have a device
/// number. Numbers that are too large for the reply are left open.
pub proof fn law_attributes(
    fs: ErofsFs,
    nid: u64,
    inode: ErofsInode,
    block_size: int,
    blocks: int,
    r: FileStat,
)
    requires
        call_ensures(ErofsFs::make_stat, (&fs, nid, &inode), r),
        fs.stat_fits(nid, inode),
        block_size == vstd::arithmetic::power2::pow2(fs.reader.spec_sb().blkszbits as nat),
        (blocks - 1) * block_size < inode.size <= blocks * block_size,
        inode.size < 0x8000_0000_0000_0000,
        block_size < 0x8000_0000_0000_0000,
    ensures
        r.ino == (if nid == fs.reader.spec_sb().root_nid {
            1
        } else {
            nid + 1
        }),
        r.mode == inode.mode,
        r.nlink == inode.nlink,
        r.uid == inode.uid,
        r.gid == inode.gid,
        r.rdev == (if inode.mode / 4096 == 2 || inode.mode / 4096 == 6 {
            inode.u as int
        } else {
            0
        }),
        r.size == inode.size,
        r.blksize == block_size,
        r.blocks == blocks * block_size / 512,
        inode.format % 2 == 1 && inode.raw_mtime < 0x8000_0000_0000_0000 ==> r.time
            == inode.raw_mtime,
        inode.format % 2 == 0 && fs.reader.spec_sb().epoch + inode.raw_mtime
            < 0x8000_0000_0000_0000 ==> r.time == fs.reader.spec_sb().epoch + inode.raw_mtime,
        r.time_nsec == inode.mtime_nsec,
{
    fuse_laws::law_attributes_are_the_inodes(fs, nid, inode, block_size, blocks);
}

/// The attributes of a file can be told exactly if it has a number, and its size
/// can be rounded up to a block in 64 bits.
pub proof fn law_attributes_can_be_told(fs: ErofsFs, nid: u64, inode: ErofsInode, r: bool)
    requires
        call_ensures(ErofsFs::can_stat, (&fs, nid, &inode), r),
    ensures
        r <==> {
            &&& nid < u64::MAX || nid == fs.reader.spec_sb().root_nid
            &&& fs.reader.spec_sb().blkszbits < 64
            &&& inode.size + vstd::arithmetic::power2::pow2(
                fs.reader.spec_sb().blkszbits as nat,
            ) <= u64::MAX
        },
{
}

/// The answer to a lookup has the attributes of the inode, and holds for ten
/// years.
pub proof fn law_entry(
    fs: ErofsFs,
    nid: u64,
    inode: ErofsInode,
    stat: FileStat,
    r: FileEntry,
)
    requires
        call_ensures(ErofsFs::make_stat, (&fs, nid, &inode), stat),
        call_ensures(ErofsFs::make_entry, (&fs, nid, &inode), r),
    ensures
        r.attr == stat,
        r.inode == stat.ino,
        r.generation == 0,
        r.attr_flags == 0,
        r.attr_timeout_secs == 315_360_000,
        r.entry_timeout_secs == 315_360_000,
{
}

/// Of the capabilities of the kernel those are chosen that serve a read-only file
/// system, by their bits, and no others.
pub proof fn law_chosen_capabilities(capable: u64, r: u64)
    requires
        call_ensures(fuse::init, (capable,), r),
    ensures
        r == capable & 0xC4_E021,
{
    let want = fuse::wanted_capabilities();
    assert(want == 0xC4_E021) by (bit_vector)
        requires
            want == 0x1u64 | 0x20u64 | 0x40_0000u64 | 0x4_0000u64 | 0x2000u64 | 0x4000u64
                | 0x8000u64 | 0x80_0000u64,
    ;
}

/// The listing types of the file types 1 to 7; any other is unknown.
pub proof fn law_type_of_an_entry(ft: u8, r: u32)
    requires
        call_ensures(fuse::erofs_ft_to_dt, (ft,), r),
    ensures
        1 <= ft <= 7 ==> r == seq![8u32, 4, 2, 6, 1, 12, 10][ft - 1],
        ft == 0 || ft > 7 ==> r == 0,
{
}

// ---------------------------------------------------------------------------
// Open directories and listings
// ---------------------------------------------------------------------------

/// Opening a directory keeps its entries under a handle, and leaves what is kept
/// under other handles as it is.
pub proof fn law_kept_directory(
    handles: &mut DirHandles,
    entries: Vec<CachedDirEntry>,
    r: u64,
    other: u64,
)
    requires
        call_ensures(DirHandles::create, (handles, entries), r),
    ensures
        r == old(handles)@.next_handle,
        final(handles)@.open.dom().contains(r),
        final(handles)@.open[r] == meta::cached_view(entries@),
        other != r ==> (final(handles)@.open.dom().contains(other) <==> old(handles)@.open.dom().contains(other)) && final(handles)@.open[other] == old(handles)@.open[other],
        r < u64::MAX ==> final(handles)@.next_handle == r + 1,
        r == u64::MAX ==> final(handles)@.next_handle == 0,
{
}

/// The handle of a directory gives its entries until it is released.
pub proof fn law_handle_of_a_directory(
    handles: &mut DirHandles,
    entries: Vec<CachedDirEntry>,
    handle: u64,
    later: &mut DirHandles,
    kept: Result<&Arc<DirHandle>, FsError>,
    gone: Result<&Arc<DirHandle>, FsError>,
    i: int,
)
    requires
        call_ensures(DirHandles::create, (handles, entries), handle),
        call_ensures(DirHandles::get, (&*final(handles), handle), kept),
        *old(later) == *final(handles),
        call_ensures(DirHandles::release, (later, handle), ()),
        call_ensures(DirHandles::get, (&*final(later), handle), gone),
    ensures
        kept matches Ok(h) && h.entries@.len() == entries@.len() && (0 <= i < entries@.len() ==> {
            &&& h.entries@[i].nid == entries@[i].nid
            &&& h.entries@[i].file_type == entries@[i].file_type
            &&& h.entries@[i].name@ == entries@[i].name@
        }),
        gone == Err::<&Arc<DirHandle>, FsError>(FsError::BadHandle),
{
    if let Ok(h) = kept {
        let a = meta::cached_view(h.entries@);
        let b = meta::cached_view(entries@);
        assert(a == b);
        assert(a.len() == h.entries@.len() && b.len() == entries@.len());
        if 0 <= i < entries@.len() {
            assert(a[i] == h.entries@[i]@ && b[i] == entries@[i]@);
        }
    }
}

/// A handle gives the entries that are kept under it, and an error exactly if
/// there are none.
pub proof fn law_entries_of_a_handle(
    handles: DirHandles,
    handle: u64,
    r: Result<&Arc<DirHandle>, FsError>,
    i: int,
)
    requires
        call_ensures(DirHandles::get, (&handles, handle), r),
    ensures
        match r {
            Ok(h) => {
                let kept = handles@.open[handle];
                &&& handles@.open.dom().contains(handle)
                &&& h.entries@.len() == kept.len()
                &&& 0 <= i < kept.len() ==> h.entries@[i].nid == kept[i].nid && h.entries@[i].name@
                    == kept[i].name && h.entries@[i].file_type == kept[i].file_type
            },
            Err(e) => e == FsError::BadHandle && !handles@.open.dom().contains(handle),
        },
{
    if let Ok(h) = r {
        if 0 <= i < handles@.open[handle].len() {
            assert(meta::cached_view(h.entries@)[i] == h.entries@[i]@);
        }
    }
}

/// Releasing a handle forgets what is kept under it, and nothing else.
pub proof fn law_released_handle(handles: &mut DirHandles, handle: u64, other: u64)
    requires
        call_ensures(DirHandles::release, (handles, handle), ()),
    ensures
        !final(handles)@.open.dom().contains(handle),
        other != handle ==> (final(handles)@.open.dom().contains(other) <==> old(handles)@.open.dom().contains(other)),
        other != handle && old(handles)@.open.dom().contains(other) ==> final(handles)@.open[other] == old(handles)@.open[other],
        final(handles)@.next_handle == old(handles)@.next_handle,
{
}

/// At the start no directory is open.
pub proof fn law_no_open_directories(handles: DirHandles, handle: u64)
    requires
        call_ensures(DirHandles::new, (), handles),
    ensures
        !handles@.open.dom().contains(handle),
        handles@.next_handle == 1,
{
}

/// A listing goes on at the offset that it is asked for: with the entry of that
/// number, if there is one.
pub proof fn law_listing_starts(
    offset: u64,
    entries: Vec<CachedDirEntry>,
    cursor: ListCursor,
    r: Option<u64>,
)
    requires
        call_ensures(ListCursor::at, (offset,), cursor),
        call_ensures(ListCursor::next_nid, (&cursor, &entries), r),
        entries@.len() <= usize::MAX,
    ensures
        offset < entries@.len() ==> r == Some(entries@[offset as int].nid),
        offset >= entries@.len() ==> r is None,
{
}

/// An entry of a listing has the number, the type and the name of its directory
/// entry, and the offset at which the listing goes on behind it.
pub proof fn law_listed_entry(
    fs: ErofsFs,
    cursor: ListCursor,
    entries: &Vec<CachedDirEntry>,
    r: Option<ListedEntry>,
)
    requires
        call_ensures(ListCursor::entry, (&cursor, &fs, entries), r),
    ensures
        r is None <==> cursor.full || cursor.next >= entries@.len(),
        r matches Some(item) ==> {
            let entry = entries@[cursor.next as int];
            &&& item.offset == cursor.next + 1
            &&& item.name@ == entry.name@
            &&& entry.nid == fs.reader.spec_sb().root_nid ==> item.ino == 1
            &&& entry.nid != fs.reader.spec_sb().root_nid && entry.nid < u64::MAX ==> item.ino
                == entry.nid + 1
            &&& 1 <= entry.file_type <= 7 ==> item.type_ == seq![
                8u32,
                4,
                2,
                6,
                1,
                12,
                10,
            ][entry.file_type - 1]
            &&& entry.file_type == 0 || entry.file_type > 7 ==> item.type_ == 0
        },
{
    if cursor.next < entries@.len() {
        assert(meta::cached_view(entries@)[cursor.next as int] == entries@[cursor.next as int]@);
    }
}

/// A listing with attributes gives each entry as a plain listing does, with the
/// answer that a lookup of its inode gives.
pub proof fn law_listed_entry_plus(
    fs: ErofsFs,
    cursor: ListCursor,
    entries: &Vec<CachedDirEntry>,
    node: Node,
    plain: Option<ListedEntry>,
    found: FileEntry,
    r: ListedPlus,
)
    requires
        call_ensures(
            ListCursor::next_node,
            (&cursor, &fs, entries),
            Ok::<Option<Node>, FsError>(Some(node)),
        ),
        call_ensures(ListCursor::entry, (&cursor, &fs, entries), plain),
        call_ensures(ErofsFs::make_entry, (&fs, node.nid, &node.inode), found),
        call_ensures(ListCursor::entry_plus, (&cursor, &fs, entries, &node), r),
    ensures
        cursor.next < entries@.len() && !cursor.full,
        node.nid == entries@[cursor.next as int].nid,
        fs.reader.spec_inode(node.nid) == Ok::<ErofsInode, ReadError>(node.inode),
        plain matches Some(item) && r.listed@ == item@,
        r.entry == found,
{
    let all = meta::cached_view(entries@);
    if cursor.next < entries@.len() {
        assert(all[cursor.next as int] == entries@[cursor.next as int]@);
    }
}

/// The inode of the entry that comes next is read by its NID; behind the last
/// entry, or once the reply is full, there is none.
pub proof fn law_next_node(
    fs: ErofsFs,
    cursor: ListCursor,
    entries: &Vec<CachedDirEntry>,
    r: Result<Option<Node>, FsError>,
)
    requires
        call_ensures(ListCursor::next_node, (&cursor, &fs, entries), r),
    ensures
        cursor.full || cursor.next >= entries@.len() ==> r == Ok::<Option<Node>, FsError>(None),
        !cursor.full && cursor.next < entries@.len() ==> {
            let nid = entries@[cursor.next as int].nid;
            match fs.reader.spec_inode(nid) {
                Ok(inode) => r == Ok::<Option<Node>, FsError>(Some(Node { nid, inode })),
                Err(e) => r == Err::<Option<Node>, FsError>(FsError::Read(e)),
            }
        },
{
    if cursor.next < entries@.len() {
        assert(meta::cached_view(entries@)[cursor.next as int] == entries@[cursor.next as int]@);
    }
}

/// A listing moves on by one entry if the entry took some room in the reply, and
/// is full if it took none.
pub proof fn law_listing_moves_on(cursor: &mut ListCursor, written: usize)
    requires
        call_ensures(ListCursor::added, (cursor, written), ()),
        old(cursor).next < usize::MAX,
    ensures
        written > 0 ==> final(cursor).next == old(cursor).next + 1 && final(cursor).full == old(cursor).full,
        written == 0 ==> final(cursor).next == old(cursor).next && final(cursor).full,
{
}

// ---------------------------------------------------------------------------
// Extended attributes
// ---------------------------------------------------------------------------

/// Asking for an attribute is answered from the first one of exactly that name:
/// with its size if the caller's buffer has none, with its value if it fits into
/// the buffer, and otherwise with an error.
pub proof fn law_attribute(
    xattrs: Vec<Xattr>,
    name: &[u8],
    size: u32,
    r: Result<GetxattrReply, FsError>,
    i: int,
)
    requires
        call_ensures(fuse::getxattr, (&xattrs, name, size), r),
    ensures
        (forall|j: int| 0 <= j < xattrs@.len() ==> (#[trigger] xattrs@[j]).name@ != name@) <==> r
            == Err::<GetxattrReply, FsError>(FsError::NoData),
        0 <= i < xattrs@.len() && xattrs@[i].name@ == name@ && (forall|j: int|
            0 <= j < i ==> (#[trigger] xattrs@[j]).name@ != name@) ==> {
            let value = xattrs@[i].value@;
            &&& size == 0 && value.len() < 0x1_0000_0000 ==> r == Ok::<GetxattrReply, FsError>(
                GetxattrReply::Count(value.len() as u32),
            )
            &&& 0 < size < value.len() ==> r == Err::<GetxattrReply, FsError>(FsError::Range)
            &&& size > 0 && size >= value.len() ==> (r matches Ok(GetxattrReply::Value(v)) && v@
                == value)
        },
{
    fuse_laws::law_attribute_is_found_by_its_name(xattrs@, name@);
    if let Some(value) = fuse::find_xattr(xattrs@, name@, 0) {
        let k = choose|k: int|
            0 <= k < xattrs@.len() && (#[trigger] xattrs@[k]).name@ == name@ && xattrs@[k].value@
                == value && forall|j: int|
                0 <= j < k ==> (#[trigger] xattrs@[j]).name@ != name@;
        assert(xattrs@[k].name@ == name@);
        if 0 <= i < xattrs@.len() && xattrs@[i].name@ == name@ && (forall|j: int|
            0 <= j < i ==> (#[trigger] xattrs@[j]).name@ != name@) {
            assert(i == k);
        }
    }
}

/// The names of the attributes are given one behind the other, each with a zero
/// byte behind it, if they fit into the caller's buffer; a caller without a
/// buffer is told their size.
pub proof fn law_attribute_list(
    xattrs: Vec<Xattr>,
    size: u32,
    r: Result<ListxattrReply, FsError>,
    count: Result<ListxattrReply, FsError>,
    i: int,
)
    requires
        call_ensures(fuse::listxattr, (&xattrs, size), r),
        call_ensures(fuse::listxattr, (&xattrs, 0), count),
        size > 0,
    ensures
        ({
            let all = fuse::xattr_names(xattrs@, xattrs@.len());
            &&& all.len() < 0x1_0000_0000 ==> count == Ok::<ListxattrReply, FsError>(
                ListxattrReply::Count(all.len() as u32),
            )
            &&& size < all.len() ==> r == Err::<ListxattrReply, FsError>(FsError::Range)
            &&& size >= all.len() ==> (r matches Ok(ListxattrReply::Names(v)) && v@ == all)
            &&& 0 <= i < xattrs@.len() ==> {
                let at = fuse::xattr_names(xattrs@, i as nat).len() as int;
                let end = at + xattrs@[i].name@.len();
                &&& end + 1 <= all.len()
                &&& all.subrange(at, end) == xattrs@[i].name@
                &&& all[end] == 0
                &&& fuse::xattr_names(xattrs@, (i + 1) as nat).len() == end + 1
            }
        }),
{
    if 0 <= i < xattrs@.len() {
        fuse_laws::law_attribute_names(xattrs@, xattrs@.len(), i);
    }
}

// ---------------------------------------------------------------------------
// What may be asked for
// ---------------------------------------------------------------------------

/// Any entry whose NID has a number may be listed, and any room that it took
/// told.
pub proof fn law_entries_may_be_listed(
    fs: ErofsFs,
    cursor: &mut ListCursor,
    entries: &Vec<CachedDirEntry>,
    written: usize,
)
    requires
        fs.reader.sb_offset + 128 <= fs.reader.image@.len(),
        old(cursor).next < entries@.len() ==> entries@[old(cursor).next as int].nid < u64::MAX,
        old(cursor).next < usize::MAX,
    ensures
        call_requires(ListCursor::entry, (&*old(cursor), &fs, entries)),
        call_requires(ListCursor::next_node, (&*old(cursor), &fs, entries)),
        call_requires(ListCursor::added, (cursor, written)),
{
}

/// Any request with a number may be answered on an image with a superblock.
pub proof fn law_requests_may_be_answered(
    fs: ErofsFs,
    ino: u64,
    flags: u32,
    name: &[u8],
    nid: u64,
    inode: ErofsInode,
)
    requires
        fs.reader.sb_offset + 128 <= fs.reader.image@.len(),
        ino > 0,
    ensures
        call_requires(ErofsFs::node, (&fs, ino)),
        call_requires(ErofsFs::open, (&fs, ino, flags)),
        call_requires(ErofsFs::opendir, (&fs, ino)),
        call_requires(ErofsFs::lookup, (&fs, ino, name)),
        call_requires(ErofsFs::readlink, (&fs, ino)),
        call_requires(ErofsFs::xattrs_of, (&fs, ino)),
        fs.reader.spec_sb().blkszbits < 64 ==> call_requires(ErofsFs::statfs, (&fs,)),
        nid < u64::MAX && fs.reader.spec_sb().blkszbits <= 62 && inode.size < 0x4000_0000_0000_0000
            ==> call_requires(ErofsFs::make_stat, (&fs, nid, &inode)) && call_requires(
            ErofsFs::make_entry,
            (&fs, nid, &inode),
        ),
{
    if nid < u64::MAX && fs.reader.spec_sb().blkszbits <= 62 && inode.size
        < 0x4000_0000_0000_0000 {
        fuse_laws::law_ordinary_attributes_fit(fs, nid, inode);
    }
}

} // verus!
