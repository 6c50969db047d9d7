//! What a FUSE server answers.
use crate::fs::fuse;
use crate::fs::fuse::{ErofsFs, FsError, HandlesState, ListCursor, Node};
use crate::fs::meta;
use crate::fs::xattr::Xattr;
use crate::inode;
use crate::laws::read;
use crate::laws::records;
use crate::metadata::ErofsInode;
use vstd::prelude::*;

verus! {

// ---------------------------------------------------------------------------
// Inodes and their numbers
// ---------------------------------------------------------------------------

/// Inode number 1 is the root; any other is one more than its NID. A request is
/// answered from the inode of that NID.
pub proof fn law_numbers_of_inodes(fs: ErofsFs, ino: u64, nid: u64)
    ensures
        fs.nid_of(1) == fs.reader.spec_sb().root_nid,
        ino > 1 ==> fs.nid_of(ino) + 1 == ino,
        fs.ino_of(fs.reader.spec_sb().root_nid) == 1,
        nid != fs.reader.spec_sb().root_nid && nid < u64::MAX ==> fs.ino_of(nid) == nid + 1,
        fs.has_ino(nid) <==> nid < u64::MAX || nid == fs.reader.spec_sb().root_nid,
        ino > 0 ==> match fs.reader.spec_inode(
            if ino == 1 {
                fs.reader.spec_sb().root_nid
            } else {
                (ino - 1) as u64
            },
        ) {
            Ok(inode) => fs.spec_node(ino) matches Ok(node) && node.inode == inode && if ino == 1 {
                node.nid == fs.reader.spec_sb().root_nid
            } else {
                node.nid + 1 == ino
            },
            Err(e) => fs.spec_node(ino) == Err::<Node, FsError>(FsError::Read(e)),
        },
{
}

// ---------------------------------------------------------------------------
// Opening
// ---------------------------------------------------------------------------

/// A file is opened with the NID of its inode as handle, exactly if it is not to
/// be written, its inode can be read and the four top bits of its mode are those
/// of a regular file. Its other bits, the permissions among them, do not matter.
pub proof fn law_open(fs: ErofsFs, ino: u64, flags: u32)
    requires
        ino > 0,
    ensures
        ({
            let nid = if ino == 1 {
                fs.reader.spec_sb().root_nid
            } else {
                (ino - 1) as u64
            };
            let r = fs.spec_open(ino, flags);
            &&& flags % 4 != 0 ==> r == Err::<u64, FsError>(FsError::ReadOnly)
            &&& flags % 4 == 0 ==> match fs.reader.spec_inode(nid) {
                Err(e) => r == Err::<u64, FsError>(FsError::Read(e)),
                Ok(inode) => if inode.mode / 4096 == 8 {
                    r == Ok::<u64, FsError>(nid)
                } else {
                    r == Err::<u64, FsError>(FsError::IsDirectory)
                },
            }
        }),
{
    assert(flags & 3 == flags % 4) by (bit_vector);
    if let Ok(node) = fs.spec_node(ino) {
        let mode = node.inode.mode;
        assert((mode as u32 & 0o170000 == 0o100000) <==> mode / 4096 == 8) by (bit_vector);
    }
}

/// A directory is opened exactly if its inode can be read, the four top bits of
/// its mode are those of a directory and all of its blocks can be read: as many
/// as cover its size, and no more. It is opened with all of their entries.
pub proof fn law_opendir(fs: ErofsFs, ino: u64, blocks: nat)
    requires
        ino > 0,
        ({
            let nid = if ino == 1 {
                fs.reader.spec_sb().root_nid
            } else {
                (ino - 1) as u64
            };
            fs.reader.spec_inode(nid) matches Ok(inode) ==> (blocks - 1) * 4096 < inode.size
                <= blocks * 4096
        }),
    ensures
        ({
            let nid = if ino == 1 {
                fs.reader.spec_sb().root_nid
            } else {
                (ino - 1) as u64
            };
            let r = fs.spec_opendir(ino);
            match fs.reader.spec_inode(nid) {
                Err(e) => r == Err::<Seq<meta::CachedEntryModel>, FsError>(FsError::Read(e)),
                Ok(inode) => if inode.mode / 4096 != 4 {
                    r == Err::<Seq<meta::CachedEntryModel>, FsError>(FsError::NotDirectory)
                } else {
                    match fs.reader.dir_entries(nid, inode, blocks) {
                        Err(e) => r == Err::<Seq<meta::CachedEntryModel>, FsError>(
                            FsError::Read(e),
                        ),
                        Ok(entries) => r == Ok::<Seq<meta::CachedEntryModel>, FsError>(entries),
                    }
                },
            }
        }),
{
    if let Ok(node) = fs.spec_node(ino) {
        let mode = node.inode.mode;
        assert((mode as u32 & 0o170000 == 0o040000) <==> mode / 4096 == 4) by (bit_vector);
        let size = node.inode.size as int;
        read::law_blocks_cover_directory(size, 0);
        assert(meta::dir_blocks(size) == blocks);
    }
}

// ---------------------------------------------------------------------------
// Lookup
// ---------------------------------------------------------------------------

/// In a directory that can be listed, a lookup finds the first entry of exactly
/// that name and gives its inode.
pub proof fn law_lookup_finds_the_name(fs: ErofsFs, parent: u64, name: Seq<u8>, i: int)
    requires
        fs.spec_opendir(parent) is Ok,
        ({
            let entries = fs.spec_opendir(parent)->Ok_0;
            &&& 0 <= i < entries.len()
            &&& entries[i].name == name
            &&& forall|j: int| 0 <= j < i ==> (#[trigger] entries[j]).name != name
        }),
    ensures
        ({
            let nid = fs.spec_opendir(parent)->Ok_0[i].nid;
            match fs.reader.spec_inode(nid) {
                Ok(inode) => fs.spec_lookup(parent, name) == Ok::<Node, FsError>(
                    Node { nid, inode },
                ),
                Err(e) => fs.spec_lookup(parent, name) == Err::<Node, FsError>(FsError::Read(e)),
            }
        }),
{
    let entries = fs.spec_opendir(parent)->Ok_0;
    fuse::law_lookup_agrees_with_listing(fs, parent, name);
    read::law_lookup_is_exact(entries, name);
    assert(meta::find_name(entries, name, 0) == Some(entries[i].nid)) by {
        if let Some(nid) = meta::find_name(entries, name, 0) {
            let k = choose|k: int|
                0 <= k < entries.len() && (#[trigger] entries[k]).name == name && entries[k].nid
                    == nid && forall|j: int|
                    0 <= j < k ==> (#[trigger] entries[j]).name != name;
            assert(entries[k].name == name && entries[i].name == name);
            assert(k == i);
        } else {
            assert(entries[i].name != name);
        }
    }
}

/// In a directory that can be listed, a lookup answers that there is no such
/// entry exactly if no entry has exactly that name.
pub proof fn law_lookup_misses_only_what_is_not_there(fs: ErofsFs, parent: u64, name: Seq<u8>)
    requires
        fs.spec_opendir(parent) is Ok,
    ensures
        fs.spec_lookup(parent, name) == Err::<Node, FsError>(FsError::NotFound) <==> forall|i: int|
            0 <= i < fs.spec_opendir(parent)->Ok_0.len() ==> (
            #[trigger] fs.spec_opendir(parent)->Ok_0[i]).name != name,
{
    let entries = fs.spec_opendir(parent)->Ok_0;
    fuse::law_lookup_agrees_with_listing(fs, parent, name);
    read::law_lookup_is_exact(entries, name);
    if let Some(nid) = meta::find_name(entries, name, 0) {
        let k = choose|k: int|
            0 <= k < entries.len() && (#[trigger] entries[k]).name == name && entries[k].nid == nid
                && forall|j: int| 0 <= j < k ==> (#[trigger] entries[j]).name != name;
        assert(fs.spec_opendir(parent)->Ok_0[k].name == name);
    }
}

// ---------------------------------------------------------------------------
// Attributes
// ---------------------------------------------------------------------------

/// The attributes of a file are those of its inode. It takes whole blocks, as few
/// as hold its size, counted in units of 512 bytes. Only devices have a device
/// number. Numbers that are too large for the reply are left open.
pub proof fn law_attributes_are_the_inodes(
    fs: ErofsFs,
    nid: u64,
    inode: ErofsInode,
    block_size: int,
    blocks: int,
)
    requires
        fs.stat_fits(nid, inode),
        block_size == vstd::arithmetic::power2::pow2(fs.reader.spec_sb().blkszbits as nat),
        (blocks - 1) * block_size < inode.size <= blocks * block_size,
        inode.size < 0x8000_0000_0000_0000,
        block_size < 0x8000_0000_0000_0000,
    ensures
        ({
            let stat = fs.stat_of(nid, inode);
            &&& stat.ino == (if nid == fs.reader.spec_sb().root_nid {
                1
            } else {
                nid + 1
            })
            &&& stat.mode == inode.mode
            &&& stat.nlink == inode.nlink
            &&& stat.uid == inode.uid
            &&& stat.gid == inode.gid
            &&& stat.rdev == (if inode.mode / 4096 == 2 || inode.mode / 4096 == 6 {
                inode.u as int
            } else {
                0
            })
            &&& stat.size == inode.size
            &&& stat.blksize == block_size
            &&& stat.blocks == blocks * block_size / 512
            &&& inode.format % 2 == 1 && inode.raw_mtime < 0x8000_0000_0000_0000 ==> stat.time
                == inode.raw_mtime
            &&& inode.format % 2 == 0 && fs.reader.spec_sb().epoch + inode.raw_mtime
                < 0x8000_0000_0000_0000 ==> stat.time == fs.reader.spec_sb().epoch
                + inode.raw_mtime
            &&& stat.time_nsec == inode.mtime_nsec
        }),
{
    let mode = inode.mode;
    assert((mode as u32 & 0o170000 == 0o020000) <==> mode / 4096 == 2) by (bit_vector);
    assert((mode as u32 & 0o170000 == 0o060000) <==> mode / 4096 == 6) by (bit_vector);
    vstd::arithmetic::power2::lemma_pow2_pos(fs.reader.spec_sb().blkszbits as nat);
    read::lemma_least_is_ceil(inode.size as int, block_size, blocks);
    vstd::arithmetic::mul::lemma_mul_is_distributive_sub_other_way(block_size, blocks, 1);
    records::law_inode_accessors(inode, fs.reader.spec_sb().epoch);
}

/// The attributes of a file can be told if it has a number, blocks have at most
/// 2^62 bytes and the size of the file has at most 62 bits.
pub proof fn law_ordinary_attributes_fit(fs: ErofsFs, nid: u64, inode: ErofsInode)
    requires
        nid < u64::MAX || nid == fs.reader.spec_sb().root_nid,
        fs.reader.spec_sb().blkszbits <= 62,
        inode.size < 0x4000_0000_0000_0000,
    ensures
        fs.stat_fits(nid, inode),
{
    let bits = fs.reader.spec_sb().blkszbits as nat;
    vstd::arithmetic::power2::lemma2_to64_rest();
    if bits < 62 {
        vstd::arithmetic::power2::lemma_pow2_strictly_increases(bits, 62);
    }
}

/// The answer to a lookup has the number and the attributes of the inode, and
/// holds for ten years.
pub proof fn law_answer_to_a_lookup(fs: ErofsFs, nid: u64, inode: ErofsInode)
    requires
        fs.has_ino(nid),
    ensures
        ({
            let entry = fs.entry_of(nid, inode);
            &&& entry.attr == fs.stat_of(nid, inode)
            &&& entry.inode == (if nid == fs.reader.spec_sb().root_nid {
                1
            } else {
                nid + 1
            })
            &&& entry.inode == entry.attr.ino
            &&& entry.generation == 0
            &&& entry.attr_flags == 0
            &&& entry.attr_timeout_secs == 315_360_000
            &&& entry.entry_timeout_secs == 315_360_000
        }),
{
}

// ---------------------------------------------------------------------------
// Capabilities and file types
// ---------------------------------------------------------------------------

/// The capabilities that are asked for, by their bits.
pub proof fn law_capabilities_wanted(bit: u64)
    requires
        bit < 64,
    ensures
        (fuse::wanted_capabilities() >> bit) % 2 == 1 <==> bit == 0 || bit == 5 || bit == 13 || bit
            == 14 || bit == 15 || bit == 18 || bit == 22 || bit == 23,
{
    let want = fuse::wanted_capabilities();
    assert(want == 0xC4_E021) by (bit_vector)
        requires
            want == 0x1u64 | 0x20u64 | 0x40_0000u64 | 0x4_0000u64 | 0x2000u64 | 0x4000u64
                | 0x8000u64 | 0x80_0000u64,
    ;
    assert((0xC4_E021u64 >> bit) % 2 == 1 <==> bit == 0 || bit == 5 || bit == 13 || bit == 14 || bit
        == 15 || bit == 18 || bit == 22 || bit == 23) by (bit_vector)
        requires
            bit < 64,
    ;
}

/// The type that a listing gives an entry is the top four bits of the mode of
/// its inode; what is no file type is unknown.
pub proof fn law_listing_types(mode: u16, ft: u8)
    ensures
        ({
            let t = mode / 4096;
            t == 8 || t == 4 || t == 2 || t == 6 || t == 1 || t == 12 || t == 10
                ==> fuse::listing_type(inode::file_type_of(mode)) == t
        }),
        ft == 0 || ft > 7 ==> fuse::listing_type(ft) == 0,
        1 <= ft <= 7 ==> fuse::listing_type(ft) == seq![8u32, 4, 2, 6, 1, 12, 10][ft - 1],
{
    records::law_file_types(mode);
}

// ---------------------------------------------------------------------------
// Open directories and listings
// ---------------------------------------------------------------------------

/// Opening a directory adds its entries under the next handle and nothing else,
/// releasing a handle takes it away and nothing else, and handles are given out
/// one after the other.
pub proof fn law_open_directories(
    st: HandlesState,
    entries: Seq<meta::CachedEntryModel>,
    handle: u64,
    other: u64,
)
    ensures
        st.create(entries).open.dom().contains(other) <==> other == st.next_handle
            || st.open.dom().contains(other),
        st.create(entries).open[st.next_handle] == entries,
        other != st.next_handle ==> st.create(entries).open[other] == st.open[other],
        st.next_handle < u64::MAX ==> st.create(entries).next_handle == st.next_handle + 1,
        st.next_handle == u64::MAX ==> st.create(entries).next_handle == 0,
        st.release(handle).open.dom().contains(other) <==> other != handle
            && st.open.dom().contains(other),
        st.release(handle).open.dom().contains(other) ==> st.release(handle).open[other]
            == st.open[other],
        st.release(handle).next_handle == st.next_handle,
{
}

/// The answer lets a listing go on: the entry took some room in the reply.
pub open spec fn goes_on(answer: Option<usize>) -> bool {
    answer matches Some(written) && written > 0
}

/// A listing hands out the entries from the offset on in turn, without a gap,
/// each with its number, its type, its name and the offset behind it. It stops
/// behind the first entry for which there was no room or which the caller
/// refused, and before that only at the end of the entries or of the answers.
pub proof fn law_listing_is_complete(
    fs: ErofsFs,
    entries: Seq<meta::CachedEntryModel>,
    offset: u64,
    answers: Seq<Option<usize>>,
)
    requires
        entries.len() < usize::MAX,
    ensures
        ({
            let r = fuse::listing(fs, entries, ListCursor::spec_at(offset), answers);
            let n = r.0.len() as int;
            let left = if offset <= entries.len() {
                entries.len() - offset
            } else {
                0
            };
            &&& n <= left && n <= answers.len()
            &&& forall|k: int|
                0 <= k < n ==> {
                    let entry = entries[offset + k];
                    let item = #[trigger] r.0[k];
                    &&& item.ino == (if entry.nid == fs.reader.spec_sb().root_nid {
                        1u64
                    } else {
                        (entry.nid + 1) as u64
                    })
                    &&& item.offset == offset + k + 1
                    &&& item.type_ == fuse::listing_type(entry.file_type)
                    &&& item.name == entry.name
                }
            &&& forall|k: int| 0 <= k < n - 1 ==> goes_on(#[trigger] answers[k])
            &&& n < left && n < answers.len() ==> n > 0 && !goes_on(answers[n - 1])
            &&& if n > 0 && answers[n - 1] is None {
                r.1 is Refused
            } else if n == left || (n > 0 && !goes_on(answers[n - 1])) {
                r.1 is Complete
            } else {
                r.1 is Open
            }
        }),
{
    lemma_listing(fs, entries, ListCursor::spec_at(offset), answers);
}

proof fn lemma_listing(
    fs: ErofsFs,
    entries: Seq<meta::CachedEntryModel>,
    cursor: ListCursor,
    answers: Seq<Option<usize>>,
)
    requires
        entries.len() < usize::MAX,
        !cursor.full,
    ensures
        ({
            let r = fuse::listing(fs, entries, cursor, answers);
            let n = r.0.len() as int;
            let left = if cursor.next <= entries.len() {
                entries.len() - cursor.next
            } else {
                0
            };
            &&& n <= left && n <= answers.len()
            &&& forall|k: int|
                0 <= k < n ==> {
                    let entry = entries[cursor.next + k];
                    let item = #[trigger] r.0[k];
                    &&& item.ino == (if entry.nid == fs.reader.spec_sb().root_nid {
                        1u64
                    } else {
                        (entry.nid + 1) as u64
                    })
                    &&& item.offset == cursor.next + k + 1
                    &&& item.type_ == fuse::listing_type(entry.file_type)
                    &&& item.name == entry.name
                }
            &&& forall|k: int| 0 <= k < n - 1 ==> goes_on(#[trigger] answers[k])
            &&& n < left && n < answers.len() ==> n > 0 && !goes_on(answers[n - 1])
            &&& if n > 0 && answers[n - 1] is None {
                r.1 is Refused
            } else if n == left || (n > 0 && !goes_on(answers[n - 1])) {
                r.1 is Complete
            } else {
                r.1 is Open
            }
        }),
    decreases answers.len(),
{
    let r = fuse::listing(fs, entries, cursor, answers);
    if cursor.next < entries.len() && answers.len() > 0 {
        if let Some(written) = answers[0] {
            let next = cursor.spec_added(written);
            let rest = answers.drop_first();
            let tail = fuse::listing(fs, entries, next, rest);
            if written > 0 {
                lemma_listing(fs, entries, next, rest);
            }
            let n = r.0.len() as int;
            assert(n == 1 + tail.0.len());
            assert forall|k: int| 0 <= k < n implies {
                let entry = entries[cursor.next + k];
                let item = #[trigger] r.0[k];
                &&& item.ino == (if entry.nid == fs.reader.spec_sb().root_nid {
                    1u64
                } else {
                    (entry.nid + 1) as u64
                })
                &&& item.offset == cursor.next + k + 1
                &&& item.type_ == fuse::listing_type(entry.file_type)
                &&& item.name == entry.name
            } by {
                if k > 0 {
                    assert(r.0[k] == tail.0[k - 1]);
                }
            }
            assert forall|k: int| 0 <= k < n - 1 implies goes_on(#[trigger] answers[k]) by {
                if k > 0 {
                    assert(goes_on(rest[k - 1]));
                }
            }
        }
    }
}

// ---------------------------------------------------------------------------
// Extended attributes
// ---------------------------------------------------------------------------

/// Asking for an attribute gives the value of the first one of exactly that
/// name, and nothing if there is none.
pub proof fn law_attribute_is_found_by_its_name(xattrs: Seq<Xattr>, name: Seq<u8>)
    ensures
        match fuse::find_xattr(xattrs, name, 0) {
            Some(value) => exists|i: int|
                0 <= i < xattrs.len() && (#[trigger] xattrs[i]).name@ == name && xattrs[i].value@
                    == value && forall|j: int|
                    0 <= j < i ==> (#[trigger] xattrs[j]).name@ != name,
            None => forall|i: int| 0 <= i < xattrs.len() ==> (#[trigger] xattrs[i]).name@ != name,
        },
{
    lemma_find_xattr(xattrs, name, 0);
}

proof fn lemma_find_xattr(xattrs: Seq<Xattr>, name: Seq<u8>, from: int)
    requires
        0 <= from <= xattrs.len(),
        forall|j: int| 0 <= j < from ==> (#[trigger] xattrs[j]).name@ != name,
    ensures
        match fuse::find_xattr(xattrs, name, from) {
            Some(value) => exists|i: int|
                0 <= i < xattrs.len() && (#[trigger] xattrs[i]).name@ == name && xattrs[i].value@
                    == value && forall|j: int|
                    0 <= j < i ==> (#[trigger] xattrs[j]).name@ != name,
            None => forall|i: int| 0 <= i < xattrs.len() ==> (#[trigger] xattrs[i]).name@ != name,
        },
    decreases xattrs.len() - from,
{
    if from < xattrs.len() {
        if xattrs[from].name@ == name {
            assert(xattrs[from].value@ == fuse::find_xattr(xattrs, name, from)->0);
        } else {
            lemma_find_xattr(xattrs, name, from + 1);
        }
    }
}

/// The names of attributes stand one behind the other, each with a zero byte
/// behind it, and nothing else does.
pub proof fn law_attribute_names(xattrs: Seq<Xattr>, n: nat, i: int)
    requires
        n <= xattrs.len(),
        0 <= i < n,
    ensures
        fuse::xattr_names(xattrs, 0).len() == 0,
        ({
            let at = fuse::xattr_names(xattrs, i as nat).len() as int;
            let end = at + xattrs[i].name@.len();
            let all = fuse::xattr_names(xattrs, n);
            &&& end + 1 <= all.len()
            &&& all.subrange(at, end) == xattrs[i].name@
            &&& all[end] == 0
            &&& fuse::xattr_names(xattrs, (i + 1) as nat).len() == end + 1
        }),
    decreases n,
{
    let all = fuse::xattr_names(xattrs, n);
    let at = fuse::xattr_names(xattrs, i as nat).len() as int;
    let end = at + xattrs[i].name@.len();
    if i + 1 < n {
        let m = (n - 1) as nat;
        law_attribute_names(xattrs, m, i);
        assert(all.subrange(at, end) =~= fuse::xattr_names(xattrs, m).subrange(at, end));
    } else {
        assert(all.subrange(at, end) =~= xattrs[i].name@);
    }
}

} // verus!
