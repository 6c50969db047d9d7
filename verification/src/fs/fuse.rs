//! What a FUSE server answers to requests on an image.
use crate::bytes;
use crate::fs::meta;
use crate::fs::meta::{same_name, CachedDirEntry};
use crate::fs::xattr;
use crate::fs::xattr::Xattr;
use crate::fs::{ErofsReader, ReadError};
use crate::metadata::ErofsInode;
use crate::ondisk;
use crate::ondisk::{
    EROFS_FT_BLKDEV, EROFS_FT_CHRDEV, EROFS_FT_DIR, EROFS_FT_FIFO, EROFS_FT_REG_FILE,
    EROFS_FT_SOCK, EROFS_FT_SYMLINK,
};
use std::collections::HashMap;
use std::sync::Arc;
use vstd::prelude::*;

verus! {

/// Inode number of the root directory in requests.
pub const FUSE_ROOT_ID: u64 = 1;

/// Ten years: nothing in an image changes.
pub const EROFS_FUSE_TIMEOUT_SECS: u64 = 315_360_000;

/// Longest name that `statfs` reports.
pub const NAME_MAX: u64 = 255;

// File type bits of a mode
pub const S_IFMT: u32 = 0o170000;

pub const S_IFREG: u32 = 0o100000;

pub const S_IFDIR: u32 = 0o040000;

pub const S_IFCHR: u32 = 0o020000;

pub const S_IFBLK: u32 = 0o060000;

/// `O_WRONLY` and `O_RDWR`.
pub const OPEN_FOR_WRITING: u32 = 3;

// File types in directory listings
pub const DT_UNKNOWN: u32 = 0;

pub const DT_FIFO: u32 = 1;

pub const DT_CHR: u32 = 2;

pub const DT_DIR: u32 = 4;

pub const DT_BLK: u32 = 6;

pub const DT_REG: u32 = 8;

pub const DT_LNK: u32 = 10;

pub const DT_SOCK: u32 = 12;

// Capabilities of the FUSE protocol
pub const FUSE_ASYNC_READ: u64 = 0x1;

pub const FUSE_BIG_WRITES: u64 = 0x20;

pub const FUSE_DO_READDIRPLUS: u64 = 0x2000;

pub const FUSE_READDIRPLUS_AUTO: u64 = 0x4000;

pub const FUSE_ASYNC_DIO: u64 = 0x8000;

pub const FUSE_PARALLEL_DIROPS: u64 = 0x4_0000;

pub const FUSE_MAX_PAGES: u64 = 0x40_0000;

pub const FUSE_CACHE_SYMLINKS: u64 = 0x80_0000;

/// Why a request fails.
#[derive(Clone, Copy, PartialEq, Eq, Structural, Debug)]
pub enum FsError {
    /// The image could not be read.
    Read(ReadError),
    /// No such entry.
    NotFound,
    /// The file system is read-only.
    ReadOnly,
    /// Not a regular file.
    IsDirectory,
    /// Not a directory.
    NotDirectory,
    /// Not an open directory.
    BadHandle,
    /// The reply is larger than the caller's buffer.
    Range,
    /// No such attribute.
    NoData,
}

// ---------------------------------------------------------------------------
// Capabilities and file types
// ---------------------------------------------------------------------------

/// The capabilities that a read-only file system profits from.
pub open spec fn wanted_capabilities() -> u64 {
    FUSE_ASYNC_READ | FUSE_BIG_WRITES | FUSE_MAX_PAGES | FUSE_PARALLEL_DIROPS | FUSE_DO_READDIRPLUS
        | FUSE_READDIRPLUS_AUTO | FUSE_ASYNC_DIO | FUSE_CACHE_SYMLINKS
}

/// Choose the capabilities: those that are wanted and that the kernel has.
pub fn init(capable: u64) -> (r: u64)
    ensures
        r == capable & wanted_capabilities(),
{
    capable & (FUSE_ASYNC_READ | FUSE_BIG_WRITES | FUSE_MAX_PAGES | FUSE_PARALLEL_DIROPS
        | FUSE_DO_READDIRPLUS | FUSE_READDIRPLUS_AUTO | FUSE_ASYNC_DIO | FUSE_CACHE_SYMLINKS)
}

/// Listing type of an EROFS file type.
pub open spec fn listing_type(ft: u8) -> u32 {
    if ft == EROFS_FT_REG_FILE {
        DT_REG
    } else if ft == EROFS_FT_DIR {
        DT_DIR
    } else if ft == EROFS_FT_CHRDEV {
        DT_CHR
    } else if ft == EROFS_FT_BLKDEV {
        DT_BLK
    } else if ft == EROFS_FT_FIFO {
        DT_FIFO
    } else if ft == EROFS_FT_SOCK {
        DT_SOCK
    } else if ft == EROFS_FT_SYMLINK {
        DT_LNK
    } else {
        DT_UNKNOWN
    }
}

/// Map an EROFS file type to a listing type.
pub fn erofs_ft_to_dt(ft: u8) -> (r: u32)
    ensures
        r == listing_type(ft),
{
    if ft == EROFS_FT_REG_FILE {
        DT_REG
    } else if ft == EROFS_FT_DIR {
        DT_DIR
    } else if ft == EROFS_FT_CHRDEV {
        DT_CHR
    } else if ft == EROFS_FT_BLKDEV {
        DT_BLK
    } else if ft == EROFS_FT_FIFO {
        DT_FIFO
    } else if ft == EROFS_FT_SOCK {
        DT_SOCK
    } else if ft == EROFS_FT_SYMLINK {
        DT_LNK
    } else {
        DT_UNKNOWN
    }
}

// ---------------------------------------------------------------------------
// Attributes
// ---------------------------------------------------------------------------

/// The attributes of a file.
#[derive(Clone, Copy, PartialEq, Eq, Structural, Debug)]
pub struct FileStat {
    pub ino: u64,
    pub mode: u32,
    pub nlink: u64,
    pub uid: u32,
    pub gid: u32,
    pub rdev: u64,
    pub size: i64,
    /// Allocated units of 512 bytes.
    pub blocks: i64,
    pub blksize: i64,
    /// Access, modification and change time alike.
    pub time: i64,
    pub time_nsec: i64,
}

/// The answer to a lookup.
#[derive(Clone, Copy, PartialEq, Eq, Structural, Debug)]
pub struct FileEntry {
    pub inode: u64,
    pub generation: u64,
    pub attr: FileStat,
    pub attr_flags: u32,
    pub attr_timeout_secs: u64,
    pub entry_timeout_secs: u64,
}

/// The attributes of the file system.
#[derive(Clone, Copy, PartialEq, Eq, Structural, Debug)]
pub struct FsStat {
    pub bsize: u64,
    pub frsize: u64,
    pub blocks: u64,
    pub files: u64,
    pub namemax: u64,
}

/// An inode and its NID.
#[derive(Clone, Copy, PartialEq, Eq, Structural, Debug)]
pub struct Node {
    pub nid: u64,
    pub inode: ErofsInode,
}

/// A file system on an image.
#[derive(Clone, Copy)]
pub struct ErofsFs<'a> {
    pub reader: ErofsReader<'a>,
}

impl<'a> ErofsFs<'a> {
    pub open spec fn wf(self) -> bool {
        self.reader.wf()
    }

    /// NID of a request's inode number: that of the root, or one less.
    pub open spec fn nid_of(self, ino: u64) -> u64 {
        if ino == FUSE_ROOT_ID {
            self.reader.spec_sb().root_nid
        } else {
            (ino - 1) as u64
        }
    }

    /// Inode number of a NID.
    pub open spec fn ino_of(self, nid: u64) -> u64 {
        if nid == self.reader.spec_sb().root_nid {
            FUSE_ROOT_ID
        } else {
            (nid + 1) as u64
        }
    }

    /// The NID has an inode number.
    pub open spec fn has_ino(self, nid: u64) -> bool {
        nid == self.reader.spec_sb().root_nid || nid < u64::MAX
    }

    pub open spec fn block_size(self) -> int {
        vstd::arithmetic::power2::pow2(self.reader.spec_sb().blkszbits as nat) as int
    }

    /// The attributes of an inode can be worked out.
    pub open spec fn stat_fits(self, nid: u64, inode: ErofsInode) -> bool {
        &&& self.has_ino(nid)
        &&& self.reader.spec_sb().blkszbits < 64
        &&& inode.size + self.block_size() <= u64::MAX
    }

    /// The attributes of an inode.
    pub open spec fn stat_of(self, nid: u64, inode: ErofsInode) -> FileStat {
        let fmt = inode.mode as u32 & S_IFMT;
        let time = inode.spec_mtime(self.reader.spec_sb().epoch);
        FileStat {
            ino: self.ino_of(nid),
            mode: inode.mode as u32,
            nlink: inode.nlink as u64,
            uid: inode.uid,
            gid: inode.gid,
            rdev: if fmt == S_IFCHR || fmt == S_IFBLK {
                inode.u as u64
            } else {
                0
            },
            size: inode.size as i64,
            blocks: (ondisk::ceil_div(inode.size as int, self.block_size()) * self.block_size()
                / 512) as i64,
            blksize: (self.block_size() as u64) as i64,
            time: time as i64,
            time_nsec: inode.mtime_nsec as i64,
        }
    }

    /// The answer to a lookup that finds an inode.
    pub open spec fn entry_of(self, nid: u64, inode: ErofsInode) -> FileEntry {
        FileEntry {
            inode: self.ino_of(nid),
            generation: 0,
            attr: self.stat_of(nid, inode),
            attr_flags: 0,
            attr_timeout_secs: EROFS_FUSE_TIMEOUT_SECS,
            entry_timeout_secs: EROFS_FUSE_TIMEOUT_SECS,
        }
    }

    /// Finding the inode of a request.
    pub open spec fn spec_node(self, ino: u64) -> Result<Node, FsError> {
        let nid = self.nid_of(ino);
        match self.reader.spec_inode(nid) {
            Err(e) => Err(FsError::Read(e)),
            Ok(inode) => Ok(Node { nid, inode }),
        }
    }

    pub fn new(reader: ErofsReader<'a>) -> (r: ErofsFs<'a>)
        ensures
            r.reader == reader,
    {
        ErofsFs { reader }
    }

    /// NID of a request's inode number.
    pub fn to_nid(&self, ino: u64) -> (r: u64)
        requires
            self.wf(),
            ino != 0,
        ensures
            r == self.nid_of(ino),
    {
        if ino == FUSE_ROOT_ID {
            self.reader.sb().root_nid
        } else {
            ino - FUSE_ROOT_ID
        }
    }

    /// Inode number of a NID.
    pub fn to_ino(&self, nid: u64) -> (r: u64)
        requires
            self.wf(),
            self.has_ino(nid),
        ensures
            r == self.ino_of(nid),
    {
        if nid == self.reader.sb().root_nid {
            FUSE_ROOT_ID
        } else {
            nid + FUSE_ROOT_ID
        }
    }

    /// Tell whether a NID has an inode number.
    pub fn can_number(&self, nid: u64) -> (r: bool)
        requires
            self.wf(),
        ensures
            r == self.has_ino(nid),
    {
        nid < u64::MAX || nid == self.reader.sb().root_nid
    }

    /// Size of a block.
    fn block_bytes(&self) -> (r: u64)
        requires
            self.wf(),
            self.reader.spec_sb().blkszbits < 64,
        ensures
            r == self.block_size(),
            r > 0,
    {
        let bits: u8 = self.reader.sb().blkszbits;
        proof {
            vstd::bits::lemma_u64_pow2_no_overflow(bits as nat);
            vstd::bits::lemma_u64_shl_is_mul(1, bits as u64);
        }
        1u64 << (bits as u64)
    }

    /// Tell whether the attributes of an inode can be worked out.
    pub fn can_stat(&self, nid: u64, inode: &ErofsInode) -> (r: bool)
        requires
            self.wf(),
        ensures
            r == self.stat_fits(nid, *inode),
    {
        if !self.can_number(nid) || self.reader.sb().blkszbits >= 64 {
            return false;
        }
        inode.size <= u64::MAX - self.block_bytes()
    }

    /// The attributes of an inode.
    pub fn make_stat(&self, nid: u64, inode: &ErofsInode) -> (r: FileStat)
        requires
            self.wf(),
            self.stat_fits(nid, *inode),
        ensures
            r == self.stat_of(nid, *inode),
    {
        let ino: u64 = self.to_ino(nid);
        let sb = self.reader.sb();
        let block_size: u64 = self.block_bytes();
        let time: u64 = inode.mtime(sb.epoch);
        proof {
            let x = inode.size + block_size - 1;
            let b = block_size as int;
            vstd::arithmetic::div_mod::lemma_fundamental_div_mod(x, b);
            vstd::arithmetic::div_mod::lemma_mod_bound(x, b);
            vstd::arithmetic::mul::lemma_mul_is_commutative(b, x / b);
            vstd::arithmetic::div_mod::lemma_div_pos_is_pos(x, b);
            vstd::arithmetic::mul::lemma_mul_nonnegative(x / b, b);
        }
        let blocks: u64 = (inode.size + block_size - 1) / block_size * block_size / 512;
        let mode: u32 = inode.mode as u32;
        let fmt: u32 = mode & S_IFMT;
        let rdev: u64 = if fmt == S_IFCHR || fmt == S_IFBLK {
            inode.u as u64
        } else {
            0
        };
        FileStat {
            ino,
            mode,
            nlink: inode.nlink as u64,
            uid: inode.uid,
            gid: inode.gid,
            rdev,
            size: inode.size as i64,
            blocks: blocks as i64,
            blksize: block_size as i64,
            time: time as i64,
            time_nsec: inode.mtime_nsec as i64,
        }
    }

    /// The answer to a lookup that finds an inode.
    pub fn make_entry(&self, nid: u64, inode: &ErofsInode) -> (r: FileEntry)
        requires
            self.wf(),
            self.stat_fits(nid, *inode),
        ensures
            r == self.entry_of(nid, *inode),
    {
        FileEntry {
            inode: self.to_ino(nid),
            generation: 0,
            attr: self.make_stat(nid, inode),
            attr_flags: 0,
            attr_timeout_secs: EROFS_FUSE_TIMEOUT_SECS,
            entry_timeout_secs: EROFS_FUSE_TIMEOUT_SECS,
        }
    }

    /// The attributes of the file system.
    pub fn statfs(&self) -> (r: FsStat)
        requires
            self.wf(),
            self.reader.spec_sb().blkszbits < 64,
        ensures
            r == (FsStat {
                bsize: self.block_size() as u64,
                frsize: self.block_size() as u64,
                blocks: self.reader.spec_sb().blocks,
                files: self.reader.spec_sb().inos,
                namemax: NAME_MAX,
            }),
    {
        let sb = self.reader.sb();
        let block_size: u64 = self.block_bytes();
        FsStat {
            bsize: block_size,
            frsize: block_size,
            blocks: sb.blocks,
            files: sb.inos,
            namemax: NAME_MAX,
        }
    }
}

// ---------------------------------------------------------------------------
// Requests
// ---------------------------------------------------------------------------

impl<'a> ErofsFs<'a> {
    /// Looking a name up in a directory.
    pub open spec fn spec_lookup(self, parent: u64, name: Seq<u8>) -> Result<Node, FsError> {
        match self.spec_node(parent) {
            Err(e) => Err(e),
            Ok(dir) => match self.reader.find_from(dir.nid, dir.inode, name, 0) {
                Err(e) => Err(FsError::Read(e)),
                Ok(None) => Err(FsError::NotFound),
                Ok(Some(child)) => match self.reader.spec_inode(child) {
                    Err(e) => Err(FsError::Read(e)),
                    Ok(inode) => Ok(Node { nid: child, inode }),
                },
            },
        }
    }

    /// Opening a file: only for reading, and only a regular one.
    pub open spec fn spec_open(self, ino: u64, flags: u32) -> Result<u64, FsError> {
        if flags & OPEN_FOR_WRITING != 0 {
            Err(FsError::ReadOnly)
        } else {
            match self.spec_node(ino) {
                Err(e) => Err(e),
                Ok(node) => if node.inode.mode as u32 & S_IFMT != S_IFREG {
                    Err(FsError::IsDirectory)
                } else {
                    Ok(node.nid)
                },
            }
        }
    }

    /// Reading all entries of a directory.
    pub open spec fn spec_opendir(self, ino: u64) -> Result<
        Seq<meta::CachedEntryModel>,
        FsError,
    > {
        match self.spec_node(ino) {
            Err(e) => Err(e),
            Ok(node) => if node.inode.mode as u32 & S_IFMT != S_IFDIR {
                Err(FsError::NotDirectory)
            } else {
                match self.reader.dir_entries(
                    node.nid,
                    node.inode,
                    meta::dir_blocks(node.inode.size as int) as nat,
                ) {
                    Err(e) => Err(FsError::Read(e)),
                    Ok(entries) => Ok(entries),
                }
            },
        }
    }

    /// The inode of a request.
    pub fn node(&self, ino: u64) -> (r: Result<Node, FsError>)
        requires
            self.wf(),
            ino != 0,
        ensures
            r == self.spec_node(ino),
            r matches Ok(node) ==> self.reader.nid_fits(node.nid),
    {
        let nid: u64 = self.to_nid(ino);
        match self.reader.inode(nid) {
            Err(e) => Err(FsError::Read(e)),
            Ok(inode) => Ok(Node { nid, inode }),
        }
    }

    /// Look a name up in a directory.
    pub fn lookup(&self, parent: u64, name: &[u8]) -> (r: Result<Node, FsError>)
        requires
            self.wf(),
            parent != 0,
        ensures
            r == self.spec_lookup(parent, name@),
    {
        match self.node(parent) {
            Err(e) => Err(e),
            Ok(dir) => match self.reader.find_dir_entry(dir.nid, &dir.inode, name) {
                Err(e) => Err(FsError::Read(e)),
                Ok(None) => Err(FsError::NotFound),
                Ok(Some(child)) => match self.reader.inode(child) {
                    Err(e) => Err(FsError::Read(e)),
                    Ok(inode) => Ok(Node { nid: child, inode }),
                },
            },
        }
    }

    /// Open a file; the handle is its NID.
    pub fn open(&self, ino: u64, flags: u32) -> (r: Result<u64, FsError>)
        requires
            self.wf(),
            ino != 0,
        ensures
            r == self.spec_open(ino, flags),
    {
        if flags & OPEN_FOR_WRITING != 0 {
            return Err(FsError::ReadOnly);
        }
        match self.node(ino) {
            Err(e) => Err(e),
            Ok(node) => {
                if node.inode.mode as u32 & S_IFMT != S_IFREG {
                    Err(FsError::IsDirectory)
                } else {
                    Ok(node.nid)
                }
            },
        }
    }

    /// Read all entries of a directory.
    pub fn opendir(&self, ino: u64) -> (r: Result<Vec<CachedDirEntry>, FsError>)
        requires
            self.wf(),
            ino != 0,
        ensures
            match r {
                Ok(v) => self.spec_opendir(ino) == Ok::<Seq<meta::CachedEntryModel>, FsError>(
                    meta::cached_view(v@),
                ),
                Err(e) => self.spec_opendir(ino) == Err::<Seq<meta::CachedEntryModel>, FsError>(e),
            },
    {
        match self.node(ino) {
            Err(e) => Err(e),
            Ok(node) => {
                if node.inode.mode as u32 & S_IFMT != S_IFDIR {
                    return Err(FsError::NotDirectory);
                }
                match self.reader.read_dir_cached(node.nid, &node.inode) {
                    Err(e) => Err(FsError::Read(e)),
                    Ok(entries) => Ok(entries),
                }
            },
        }
    }

    /// The target of a symbolic link.
    pub fn readlink(&self, ino: u64) -> (r: Result<Vec<u8>, FsError>)
        requires
            self.wf(),
            ino != 0,
        ensures
            match self.spec_node(ino) {
                Err(e) => r == Err::<Vec<u8>, FsError>(e),
                Ok(node) => match r {
                    Ok(v) => self.reader.symlink_target(node.nid, node.inode) == Ok::<
                        Seq<u8>,
                        ReadError,
                    >(v@),
                    Err(FsError::Read(e)) => self.reader.symlink_target(node.nid, node.inode)
                        == Err::<Seq<u8>, ReadError>(e),
                    Err(_) => false,
                },
            },
    {
        match self.node(ino) {
            Err(e) => Err(e),
            Ok(node) => match self.reader.read_symlink(node.nid, &node.inode) {
                Err(e) => Err(FsError::Read(e)),
                Ok(v) => Ok(v),
            },
        }
    }

    /// The extended attributes of a file.
    pub fn xattrs_of(&self, ino: u64) -> (r: Result<Vec<Xattr>, FsError>)
        requires
            self.wf(),
            ino != 0,
        ensures
            match self.spec_node(ino) {
                Err(e) => r == Err::<Vec<Xattr>, FsError>(e),
                Ok(node) => match r {
                    Ok(v) => self.reader.xattrs(node.nid, node.inode) == Ok::<
                        Seq<xattr::XattrModel>,
                        ReadError,
                    >(xattr::xattrs_view(v@)),
                    Err(FsError::Read(e)) => self.reader.xattrs(node.nid, node.inode) == Err::<
                        Seq<xattr::XattrModel>,
                        ReadError,
                    >(e),
                    Err(_) => false,
                },
            },
    {
        match self.node(ino) {
            Err(e) => Err(e),
            Ok(node) => match self.reader.read_xattrs(node.nid, &node.inode) {
                Err(e) => Err(FsError::Read(e)),
                Ok(v) => Ok(v),
            },
        }
    }
}

// ---------------------------------------------------------------------------
// Directory handles and listings
// ---------------------------------------------------------------------------

/// The entries of an open directory.
pub struct DirHandle {
    pub entries: Vec<CachedDirEntry>,
}

/// The open directories.
pub struct DirHandles {
    next_handle: u64,
    handles: HashMap<u64, Arc<DirHandle>>,
}

/// What `DirHandles` keeps track of.
#[verifier::ext_equal]
pub struct HandlesState {
    pub next_handle: u64,
    pub open: Map<u64, Seq<meta::CachedEntryModel>>,
}

impl View for DirHandles {
    type V = HandlesState;

    closed spec fn view(&self) -> HandlesState {
        HandlesState {
            next_handle: self.next_handle,
            open: self.handles@.map_values(|h: Arc<DirHandle>| meta::cached_view(h.entries@)),
        }
    }
}

impl HandlesState {
    /// The state after a directory was opened.
    pub open spec fn create(self, entries: Seq<meta::CachedEntryModel>) -> HandlesState {
        HandlesState {
            next_handle: if self.next_handle == u64::MAX {
                0
            } else {
                (self.next_handle + 1) as u64
            },
            open: self.open.insert(self.next_handle, entries),
        }
    }

    /// The state after a handle was released.
    pub open spec fn release(self, handle: u64) -> HandlesState {
        HandlesState { open: self.open.remove(handle), ..self }
    }

    /// Every open handle was given out before the next one.
    pub open spec fn in_order(self) -> bool {
        forall|h: u64| #[trigger] self.open.dom().contains(h) ==> h < self.next_handle
    }
}

impl DirHandles {
    /// No open directories.
    pub fn new() -> (r: DirHandles)
        ensures
            r@ == (HandlesState {
                next_handle: 1,
                open: Map::<u64, Seq<meta::CachedEntryModel>>::empty(),
            }),
    {
        let r = DirHandles { next_handle: 1, handles: HashMap::new() };
        assert(r@.open =~= Map::<u64, Seq<meta::CachedEntryModel>>::empty());
        r
    }

    /// Keep the entries of a directory under a new handle.
    pub fn create(&mut self, entries: Vec<CachedDirEntry>) -> (r: u64)
        ensures
            r == old(self)@.next_handle,
            final(self)@ == old(self)@.create(meta::cached_view(entries@)),
    {
        broadcast use vstd::std_specs::hash::group_hash_axioms;

        let handle: u64 = self.next_handle;
        self.next_handle = handle.wrapping_add(1);
        self.handles.insert(handle, Arc::new(DirHandle { entries }));
        assert(self@.open =~= old(self)@.create(meta::cached_view(entries@)).open);
        handle
    }

    /// The entries under a handle.
    pub fn get(&self, handle: u64) -> (r: Result<&Arc<DirHandle>, FsError>)
        ensures
            match r {
                Ok(h) => self@.open.dom().contains(handle) && self@.open[handle]
                    == meta::cached_view(h.entries@),
                Err(e) => !self@.open.dom().contains(handle) && e == FsError::BadHandle,
            },
    {
        broadcast use vstd::std_specs::hash::group_hash_axioms;

        match self.handles.get(&handle) {
            Some(h) => Ok(h),
            None => Err(FsError::BadHandle),
        }
    }

    /// Forget a handle.
    pub fn release(&mut self, handle: u64)
        ensures
            final(self)@ == old(self)@.release(handle),
    {
        broadcast use vstd::std_specs::hash::group_hash_axioms;

        self.handles.remove(&handle);
        assert(self@.open =~= old(self)@.open.remove(handle));
    }
}

/// An entry of a listing.
pub struct ListedEntry<'e> {
    pub ino: u64,
    /// Where the listing goes on behind this entry.
    pub offset: u64,
    pub type_: u32,
    pub name: &'e Vec<u8>,
}

/// An entry of a listing with attributes.
pub struct ListedPlus<'e> {
    pub listed: ListedEntry<'e>,
    pub entry: FileEntry,
}

/// An entry of a listing, with its name as bytes.
#[verifier::ext_equal]
pub struct ListedModel {
    pub ino: u64,
    pub offset: int,
    pub type_: u32,
    pub name: Seq<u8>,
}

impl<'e> View for ListedEntry<'e> {
    type V = ListedModel;

    open spec fn view(&self) -> ListedModel {
        ListedModel {
            ino: self.ino,
            offset: self.offset as int,
            type_: self.type_,
            name: self.name@,
        }
    }
}

/// Entry `i` of a listing.
pub open spec fn listed(fs: ErofsFs, entries: Seq<meta::CachedEntryModel>, i: int) -> ListedModel {
    ListedModel {
        ino: fs.ino_of(entries[i].nid),
        offset: i + 1,
        type_: listing_type(entries[i].file_type),
        name: entries[i].name,
    }
}

/// A listing in progress: the next entry, and whether the reply is full.
#[derive(Clone, Copy, PartialEq, Eq, Structural, Debug)]
pub struct ListCursor {
    pub next: usize,
    pub full: bool,
}

impl ListCursor {
    /// The cursor behind the entry that gave this offset; 0 is the start.
    pub open spec fn spec_at(offset: u64) -> ListCursor {
        ListCursor {
            next: if offset <= usize::MAX {
                offset as usize
            } else {
                usize::MAX
            },
            full: false,
        }
    }

    /// The cursor after its entry took this many bytes in the reply.
    pub open spec fn spec_added(self, written: usize) -> ListCursor {
        if written == 0 {
            ListCursor { full: true, ..self }
        } else {
            ListCursor { next: (self.next + 1) as usize, ..self }
        }
    }

    /// The listing has no further entry.
    pub open spec fn at_end(self, len: nat) -> bool {
        self.full || self.next >= len
    }

    /// The inode of the entry that comes next.
    pub open spec fn spec_next_node(
        self,
        fs: ErofsFs,
        entries: Seq<meta::CachedEntryModel>,
    ) -> Result<Option<Node>, ReadError> {
        if self.at_end(entries.len()) {
            Ok(None)
        } else {
            let nid = entries[self.next as int].nid;
            match fs.reader.spec_inode(nid) {
                Err(e) => Err(e),
                Ok(inode) => Ok(Some(Node { nid, inode })),
            }
        }
    }

    /// Go on at an offset that an earlier entry gave, or start at 0.
    pub fn at(offset: u64) -> (r: ListCursor)
        ensures
            r == Self::spec_at(offset),
    {
        let next: usize = if offset <= usize::MAX as u64 {
            offset as usize
        } else {
            usize::MAX
        };
        ListCursor { next, full: false }
    }

    /// NID of the entry that comes next, if the reply has room and there is one.
    pub fn next_nid(&self, entries: &Vec<CachedDirEntry>) -> (r: Option<u64>)
        ensures
            r == (if self.at_end(entries@.len()) {
                None
            } else {
                Some(entries@[self.next as int].nid)
            }),
    {
        if self.full || self.next >= entries.len() {
            return None;
        }
        Some(entries[self.next].nid)
    }

    /// The entry that comes next, if the reply has room and there is one.
    pub fn entry<'e>(&self, fs: &ErofsFs, entries: &'e Vec<CachedDirEntry>) -> (r: Option<
        ListedEntry<'e>,
    >)
        requires
            fs.wf(),
            !self.at_end(entries@.len()) ==> fs.has_ino(entries@[self.next as int].nid),
        ensures
            match r {
                Some(e) => !self.at_end(entries@.len()) && e@ == listed(
                    *fs,
                    meta::cached_view(entries@),
                    self.next as int,
                ),
                None => self.at_end(entries@.len()),
            },
    {
        if self.full || self.next >= entries.len() {
            return None;
        }
        let entry = &entries[self.next];
        Some(
            ListedEntry {
                ino: fs.to_ino(entry.nid),
                offset: self.next as u64 + 1,
                type_: erofs_ft_to_dt(entry.file_type),
                name: &entry.name,
            },
        )
    }

    /// The inode of the entry that comes next, if the reply has room and there
    /// is one: for a listing with attributes.
    pub fn next_node(&self, fs: &ErofsFs, entries: &Vec<CachedDirEntry>) -> (r: Result<
        Option<Node>,
        FsError,
    >)
        requires
            fs.wf(),
        ensures
            r == (match self.spec_next_node(*fs, meta::cached_view(entries@)) {
                Err(e) => Err(FsError::Read(e)),
                Ok(node) => Ok(node),
            }),
    {
        match self.next_nid(entries) {
            None => Ok(None),
            Some(nid) => match fs.reader.inode(nid) {
                Err(e) => Err(FsError::Read(e)),
                Ok(inode) => Ok(Some(Node { nid, inode })),
            },
        }
    }

    /// The entry that comes next with the attributes of its inode, which
    /// `next_node` has found.
    pub fn entry_plus<'e>(
        &self,
        fs: &ErofsFs,
        entries: &'e Vec<CachedDirEntry>,
        node: &Node,
    ) -> (r: ListedPlus<'e>)
        requires
            fs.wf(),
            self.spec_next_node(*fs, meta::cached_view(entries@)) == Ok::<Option<Node>, ReadError>(
                Some(*node),
            ),
            fs.stat_fits(node.nid, node.inode),
        ensures
            r.listed@ == listed(*fs, meta::cached_view(entries@), self.next as int),
            r.entry == fs.entry_of(node.nid, node.inode),
    {
        assert(self.next < entries.len());
        let entry = &entries[self.next];
        ListedPlus {
            listed: ListedEntry {
                ino: fs.to_ino(entry.nid),
                offset: self.next as u64 + 1,
                type_: erofs_ft_to_dt(entry.file_type),
                name: &entry.name,
            },
            entry: fs.make_entry(node.nid, &node.inode),
        }
    }

    /// Take the number of bytes that the entry took in the reply: none if it
    /// had no room.
    pub fn added(&mut self, written: usize)
        requires
            old(self).next < usize::MAX,
        ensures
            *final(self) == old(self).spec_added(written),
    {
        if written == 0 {
            self.full = true;
        } else {
            self.next = self.next + 1;
        }
    }
}

// ---------------------------------------------------------------------------
// Extended attributes
// ---------------------------------------------------------------------------

/// The answer to a request for an attribute: its size, or its value.
pub enum GetxattrReply {
    Count(u32),
    Value(Vec<u8>),
}

/// The answer to a request for the names of the attributes: their size, or the
/// names.
pub enum ListxattrReply {
    Count(u32),
    Names(Vec<u8>),
}

/// The first of the attributes from `i` on that has this name.
pub open spec fn find_xattr(xattrs: Seq<Xattr>, name: Seq<u8>, i: int) -> Option<Seq<u8>>
    decreases xattrs.len() - i,
{
    if i >= xattrs.len() {
        None
    } else if xattrs[i].name@ == name {
        Some(xattrs[i].value@)
    } else {
        find_xattr(xattrs, name, i + 1)
    }
}

/// The names of the first `n` attributes, each with a zero byte behind it.
pub open spec fn xattr_names(xattrs: Seq<Xattr>, n: nat) -> Seq<u8>
    decreases n,
{
    if n == 0 {
        Seq::empty()
    } else {
        xattr_names(xattrs, (n - 1) as nat) + xattrs[n - 1].name@ + seq![0u8]
    }
}

/// Answer a request for an attribute into a buffer of `size` bytes; 0 asks for
/// the size.
pub fn getxattr(xattrs: &Vec<Xattr>, name: &[u8], size: u32) -> (r: Result<GetxattrReply, FsError>)
    ensures
        match find_xattr(xattrs@, name@, 0) {
            None => r == Err::<GetxattrReply, FsError>(FsError::NoData),
            Some(value) => if size == 0 {
                r == Ok::<GetxattrReply, FsError>(
                    GetxattrReply::Count((value.len() % 0x1_0000_0000) as u32),
                )
            } else if size < value.len() {
                r == Err::<GetxattrReply, FsError>(FsError::Range)
            } else {
                r matches Ok(GetxattrReply::Value(v)) && v@ == value
            },
        },
{
    let mut i: usize = 0;
    while i < xattrs.len()
        invariant
            i <= xattrs@.len(),
            find_xattr(xattrs@, name@, 0) == find_xattr(xattrs@, name@, i as int),
        decreases xattrs@.len() - i,
    {
        let xattr = &xattrs[i];
        if same_name(&xattr.name, name) {
            let len: usize = xattr.value.len();
            if size == 0 {
                return Ok(GetxattrReply::Count(bytes::low_u32(len as u64)));
            }
            if (size as usize) < len {
                return Err(FsError::Range);
            }
            return Ok(GetxattrReply::Value(vstd::slice::slice_to_vec(&xattr.value)));
        }
        i += 1;
    }
    Err(FsError::NoData)
}

/// Answer a request for the names of the attributes into a buffer of `size`
/// bytes; 0 asks for the size.
pub fn listxattr(xattrs: &Vec<Xattr>, size: u32) -> (r: Result<ListxattrReply, FsError>)
    ensures
        ({
            let names = xattr_names(xattrs@, xattrs@.len());
            if size == 0 {
                r == Ok::<ListxattrReply, FsError>(
                    ListxattrReply::Count((names.len() % 0x1_0000_0000) as u32),
                )
            } else if size < names.len() {
                r == Err::<ListxattrReply, FsError>(FsError::Range)
            } else {
                r matches Ok(ListxattrReply::Names(v)) && v@ == names
            }
        }),
{
    let mut names: Vec<u8> = Vec::new();
    let mut i: usize = 0;
    while i < xattrs.len()
        invariant
            i <= xattrs@.len(),
            names@ == xattr_names(xattrs@, i as nat),
        decreases xattrs@.len() - i,
    {
        let mut name: Vec<u8> = vstd::slice::slice_to_vec(&xattrs[i].name);
        names.append(&mut name);
        names.push(0);
        i += 1;
        assert(names@ =~= xattr_names(xattrs@, i as nat));
    }
    if size == 0 {
        return Ok(ListxattrReply::Count(bytes::low_u32(names.len() as u64)));
    }
    if (size as usize) < names.len() {
        return Err(FsError::Range);
    }
    Ok(ListxattrReply::Names(names))
}

// ---------------------------------------------------------------------------
// Laws
// ---------------------------------------------------------------------------

/// Inode numbers and NIDs stand for one another. A NID of 0 that is not the
/// root shares its inode number with the root.
pub proof fn law_ino_round_trip(fs: ErofsFs, nid: u64)
    requires
        fs.has_ino(nid),
        nid != 0 || fs.reader.spec_sb().root_nid == 0,
    ensures
        fs.ino_of(nid) != 0,
        fs.nid_of(fs.ino_of(nid)) == nid,
{
}

/// Two NIDs never share an inode number, but for the root and 0.
pub proof fn law_inos_distinct(fs: ErofsFs, a: u64, b: u64)
    requires
        fs.has_ino(a),
        fs.has_ino(b),
        a != 0 || fs.reader.spec_sb().root_nid == 0,
        b != 0 || fs.reader.spec_sb().root_nid == 0,
        fs.ino_of(a) == fs.ino_of(b),
    ensures
        a == b,
{
}

/// Only what the kernel offers is enabled.
pub proof fn law_capabilities_offered(capable: u64)
    ensures
        (capable & wanted_capabilities()) & !capable == 0,
{
    let want = wanted_capabilities();
    assert((capable & want) & !capable == 0) by (bit_vector);
}

/// A new handle is not in use, opening and releasing leave the other open
/// directories as they are, and both keep the handles in order: as long as the
/// counter does not wrap.
pub proof fn law_handles_fresh(
    st: HandlesState,
    entries: Seq<meta::CachedEntryModel>,
    handle: u64,
)
    requires
        st.in_order(),
        st.next_handle < u64::MAX,
    ensures
        !st.open.dom().contains(st.next_handle),
        st.create(entries).in_order(),
        st.create(entries).open[st.next_handle] == entries,
        st.open.dom().contains(handle) ==> st.create(entries).open.dom().contains(handle)
            && st.create(entries).open[handle] == st.open[handle],
        st.release(handle).in_order(),
        !st.release(handle).open.dom().contains(handle),
        forall|other: u64| #[trigger]
            st.open.dom().contains(other) && other != handle ==> st.release(
                handle,
            ).open.dom().contains(other) && st.release(handle).open[other] == st.open[other],
{
}

/// A listing that is cut off behind an entry goes on, at the offset of that
/// entry, where it would have gone on without the cut.
pub proof fn law_listing_resumes(
    fs: ErofsFs,
    entries: Seq<meta::CachedEntryModel>,
    cursor: ListCursor,
    written: usize,
)
    requires
        entries.len() <= usize::MAX,
        cursor.next < entries.len(),
        !cursor.full,
        written > 0,
    ensures
        ListCursor::spec_at(listed(fs, entries, cursor.next as int).offset as u64)
            == cursor.spec_added(written),
{
}

/// How a listing ends.
pub enum ListEnd {
    /// The reply is full, or there is no further entry.
    Complete,
    /// The caller refused an entry.
    Refused,
    /// The inode of an entry cannot be read.
    Unreadable(ReadError),
    /// The caller has not answered yet.
    Open,
}

/// The entries that a listing hands out from `cursor` on, one for each of the
/// caller's answers: the number of bytes that an entry took, or `None` if the
/// caller fails.
pub open spec fn listing(
    fs: ErofsFs,
    entries: Seq<meta::CachedEntryModel>,
    cursor: ListCursor,
    answers: Seq<Option<usize>>,
) -> (Seq<ListedModel>, ListEnd)
    decreases answers.len(),
{
    if cursor.at_end(entries.len()) {
        (Seq::empty(), ListEnd::Complete)
    } else if answers.len() == 0 {
        (Seq::empty(), ListEnd::Open)
    } else {
        let first = seq![listed(fs, entries, cursor.next as int)];
        match answers[0] {
            None => (first, ListEnd::Refused),
            Some(written) => {
                let rest = listing(
                    fs,
                    entries,
                    cursor.spec_added(written),
                    answers.drop_first(),
                );
                (first + rest.0, rest.1)
            },
        }
    }
}

/// The same for a listing with attributes: the inode of an entry is read before
/// the entry is handed out, and one that cannot be read ends the listing.
pub open spec fn listing_plus(
    fs: ErofsFs,
    entries: Seq<meta::CachedEntryModel>,
    cursor: ListCursor,
    answers: Seq<Option<usize>>,
) -> (Seq<(ListedModel, FileEntry)>, ListEnd)
    decreases answers.len(),
{
    match cursor.spec_next_node(fs, entries) {
        Err(e) => (Seq::empty(), ListEnd::Unreadable(e)),
        Ok(None) => (Seq::empty(), ListEnd::Complete),
        Ok(Some(node)) => if answers.len() == 0 {
            (Seq::empty(), ListEnd::Open)
        } else {
            let first = seq![
                (
                    listed(fs, entries, cursor.next as int),
                    fs.entry_of(node.nid, node.inode),
                ),
            ];
            match answers[0] {
                None => (first, ListEnd::Refused),
                Some(written) => {
                    let rest = listing_plus(
                        fs,
                        entries,
                        cursor.spec_added(written),
                        answers.drop_first(),
                    );
                    (first + rest.0, rest.1)
                },
            }
        },
    }
}

/// A listing with attributes hands out what a plain listing hands out to a
/// caller that answers alike: the same entries in the same order, each with the
/// inode number of its entry and the attributes of its inode. If every inode
/// that it comes to can be read, it hands out all of them and ends alike. If not,
/// it stops before the first entry whose inode cannot be read, with that error.
#[verifier::spinoff_prover]
#[verifier::rlimit(60)]
pub proof fn law_listing_plus_agrees(
    fs: ErofsFs,
    entries: Seq<meta::CachedEntryModel>,
    cursor: ListCursor,
    answers: Seq<Option<usize>>,
)
    requires
        entries.len() <= usize::MAX,
    ensures
        ({
            let plain = listing(fs, entries, cursor, answers);
            let plus = listing_plus(fs, entries, cursor, answers);
            &&& plus.0.len() <= plain.0.len()
            &&& forall|k: int|
                0 <= k < plus.0.len() ==> {
                    let nid = entries[cursor.next + k].nid;
                    &&& (#[trigger] plus.0[k]).0 == plain.0[k]
                    &&& plus.0[k].1.inode == plus.0[k].0.ino
                    &&& fs.reader.spec_inode(nid) is Ok
                    &&& plus.0[k].1.attr == fs.stat_of(nid, fs.reader.spec_inode(nid)->Ok_0)
                }
            &&& match plus.1 {
                ListEnd::Unreadable(e) => fs.reader.spec_inode(
                    entries[cursor.next + plus.0.len()].nid,
                ) == Err::<ErofsInode, ReadError>(e),
                _ => plus.0.len() == plain.0.len() && plus.1 == plain.1,
            }
        }),
    decreases answers.len(),
{
    let plain = listing(fs, entries, cursor, answers);
    let plus = listing_plus(fs, entries, cursor, answers);
    match cursor.spec_next_node(fs, entries) {
        Ok(Some(node)) => {
            if answers.len() > 0 {
                if let Some(written) = answers[0] {
                    let next = cursor.spec_added(written);
                    let rest = answers.drop_first();
                    law_listing_plus_agrees(fs, entries, next, rest);
                    let plain_rest = listing(fs, entries, next, rest);
                    let plus_rest = listing_plus(fs, entries, next, rest);
                    assert forall|k: int| 0 <= k < plus.0.len() implies {
                        let nid = entries[cursor.next + k].nid;
                        &&& (#[trigger] plus.0[k]).0 == plain.0[k]
                        &&& plus.0[k].1.inode == plus.0[k].0.ino
                        &&& fs.reader.spec_inode(nid) is Ok
                        &&& plus.0[k].1.attr == fs.stat_of(nid, fs.reader.spec_inode(nid)->Ok_0)
                    } by {
                        if k > 0 {
                            assert(plus.0[k] == plus_rest.0[k - 1]);
                            assert(plain.0[k] == plain_rest.0[k - 1]);
                        }
                    }
                }
            }
        },
        _ => {},
    }
}

/// Looking for a name in `a` and then in `b` is looking for it in `a + b`.
proof fn lemma_find_name_concat(
    a: Seq<meta::CachedEntryModel>,
    b: Seq<meta::CachedEntryModel>,
    name: Seq<u8>,
    i: int,
)
    requires
        0 <= i <= a.len(),
    ensures
        meta::find_name(a + b, name, i) == (match meta::find_name(a, name, i) {
            Some(nid) => Some(nid),
            None => meta::find_name(b, name, 0),
        }),
    decreases a.len() - i,
{
    if i < a.len() {
        lemma_find_name_concat(a, b, name, i + 1);
    } else {
        lemma_find_name_tail(a, b, name, 0);
    }
}

proof fn lemma_find_name_tail(
    a: Seq<meta::CachedEntryModel>,
    b: Seq<meta::CachedEntryModel>,
    name: Seq<u8>,
    i: int,
)
    requires
        0 <= i <= b.len(),
    ensures
        meta::find_name(a + b, name, a.len() + i) == meta::find_name(b, name, i),
    decreases b.len() - i,
{
    if i < b.len() {
        lemma_find_name_tail(a, b, name, i + 1);
    }
}

/// What the first `n` blocks hold, and what looking into the rest gives.
proof fn lemma_find_blocks(
    fs: ErofsFs,
    nid: u64,
    inode: ErofsInode,
    name: Seq<u8>,
    n: nat,
)
    requires
        n <= meta::dir_blocks(inode.size as int),
        fs.reader.dir_entries(nid, inode, n) is Ok,
    ensures
        fs.reader.find_from(nid, inode, name, 0) == (match meta::find_name(
            fs.reader.dir_entries(nid, inode, n)->Ok_0,
            name,
            0,
        ) {
            Some(found) => Ok(Some(found)),
            None => fs.reader.find_from(nid, inode, name, n as int),
        }),
    decreases n,
{
    if n > 0 {
        let m = (n - 1) as nat;
        lemma_find_blocks(fs, nid, inode, name, m);
        lemma_find_name_concat(
            fs.reader.dir_entries(nid, inode, m)->Ok_0,
            fs.reader.dir_block(nid, inode, m as int)->Ok_0,
            name,
            0,
        );
    }
}

/// A lookup agrees with the listing: in a directory that can be listed it finds
/// the first entry of that name, and nothing if there is none.
pub proof fn law_lookup_agrees_with_listing(fs: ErofsFs, parent: u64, name: Seq<u8>)
    requires
        fs.spec_opendir(parent) is Ok,
    ensures
        match meta::find_name(fs.spec_opendir(parent)->Ok_0, name, 0) {
            None => fs.spec_lookup(parent, name) == Err::<Node, FsError>(FsError::NotFound),
            Some(nid) => match fs.reader.spec_inode(nid) {
                Err(e) => fs.spec_lookup(parent, name) == Err::<Node, FsError>(FsError::Read(e)),
                Ok(inode) => fs.spec_lookup(parent, name) == Ok::<Node, FsError>(
                    Node { nid, inode },
                ),
            },
        },
{
    let dir = fs.spec_node(parent)->Ok_0;
    lemma_find_blocks(
        fs,
        dir.nid,
        dir.inode,
        name,
        meta::dir_blocks(dir.inode.size as int) as nat,
    );
}

} // verus!
