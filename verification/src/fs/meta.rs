//! Inodes, flat file data, symbolic links and directories of an image.
use crate::bytes;
use crate::fs;
use crate::fs::{ErofsReader, ReadError};
use crate::metadata;
use crate::metadata::{ErofsDirent, ErofsInode};
use crate::ondisk::{
    EROFS_DIRENT_SIZE, EROFS_INODE_COMPACT_SIZE, EROFS_INODE_EXTENDED_SIZE,
    EROFS_INODE_FLAT_INLINE,
};
use vstd::prelude::*;

verus! {

// ---------------------------------------------------------------------------
// Inodes
// ---------------------------------------------------------------------------

impl<'a> ErofsReader<'a> {
    /// Reading the inode `nid`: its header has to stand in the image.
    pub open spec fn spec_inode(self, nid: u64) -> Result<ErofsInode, ReadError> {
        let at = self.inode_offset(nid);
        if !self.nid_fits(nid) {
            Err(ReadError::BadNid { nid })
        } else {
            match fs::image_slice(self.image@, at, 32) {
                Err(e) => Err(e),
                Ok(_) => if metadata::is_extended_format(bytes::get16(self.image@, at)) {
                    match fs::image_slice(self.image@, at, 64) {
                        Err(e) => Err(e),
                        Ok(_) => Ok(metadata::inode_at(self.image@, at)),
                    }
                } else {
                    Ok(metadata::inode_at(self.image@, at))
                },
            }
        }
    }

    /// The inode `nid`.
    pub fn inode(&self, nid: u64) -> (r: Result<ErofsInode, ReadError>)
        requires
            self.wf(),
        ensures
            r == self.spec_inode(nid),
    {
        if !self.has_address(nid) {
            return Err(ReadError::BadNid { nid });
        }
        let at: usize = self.nid_to_offset(nid);
        match self.mmap_slice(at, EROFS_INODE_COMPACT_SIZE) {
            Err(e) => {
                return Err(e);
            },
            Ok(_) => {},
        }
        if bytes::read_u16(self.image, at) % 2 == 1 {
            match self.mmap_slice(at, EROFS_INODE_EXTENDED_SIZE) {
                Err(e) => {
                    return Err(e);
                },
                Ok(_) => {},
            }
        }
        Ok(ErofsInode::parse(self.image, at))
    }
}

// ---------------------------------------------------------------------------
// Flat data
// ---------------------------------------------------------------------------

impl<'a> ErofsReader<'a> {
    /// Offset of what stands behind the header and the extended attributes of
    /// an inode.
    pub open spec fn tail_offset(self, nid: u64, inode: ErofsInode) -> int {
        self.inode_offset(nid) + inode.spec_header_size() + inode.spec_xattr_size()
    }

    /// The first file position that an inline inode keeps behind its header:
    /// the start of the last block of the file.
    pub open spec fn inline_start(inode: ErofsInode) -> int {
        if inode.spec_data_layout() != EROFS_INODE_FLAT_INLINE {
            inode.size as int
        } else if inode.size == 0 {
            0
        } else {
            (inode.size - 1) / 4096 * 4096
        }
    }

    /// Reading `len` bytes at position `offset` of a file with flat data: blocks
    /// from the start block on, and for an inline inode the last block behind
    /// the header.
    pub open spec fn flat_data(
        self,
        nid: u64,
        inode: ErofsInode,
        offset: int,
        len: int,
    ) -> Result<Seq<u8>, ReadError> {
        let split = Self::inline_start(inode);
        let blocks = inode.spec_startblk() * 4096;
        if offset + len <= split {
            fs::image_slice(self.image@, blocks + offset, len)
        } else if split <= offset {
            fs::image_slice(self.image@, self.tail_offset(nid, inode) + (offset - split), len)
        } else {
            match fs::image_slice(self.image@, blocks + offset, split - offset) {
                Err(e) => Err(e),
                Ok(first) => match fs::image_slice(
                    self.image@,
                    self.tail_offset(nid, inode),
                    offset + len - split,
                ) {
                    Err(e) => Err(e),
                    Ok(second) => Ok(first + second),
                },
            }
        }
    }

    /// `len` bytes of the image at `base + add`, where the sum may not fit.
    fn slice_at(&self, base: u64, add: u64, len: usize) -> (r: Result<&'a [u8], ReadError>)
        ensures
            match r {
                Ok(s) => fs::image_slice(self.image@, base + add, len as int) == Ok::<
                    Seq<u8>,
                    ReadError,
                >(s@),
                Err(e) => fs::image_slice(self.image@, base + add, len as int) == Err::<
                    Seq<u8>,
                    ReadError,
                >(e),
            },
    {
        match base.checked_add(add) {
            None => Err(ReadError::OffsetOverflow),
            Some(at) => {
                if at > usize::MAX as u64 {
                    Err(ReadError::OffsetOverflow)
                } else {
                    self.mmap_slice(at as usize, len)
                }
            },
        }
    }

    /// Read `len` bytes at position `offset` of a file with flat data.
    pub fn read_flat_data_vec(
        &self,
        nid: u64,
        inode: &ErofsInode,
        offset: u64,
        len: usize,
    ) -> (r: Result<Vec<u8>, ReadError>)
        requires
            self.wf(),
            self.nid_fits(nid),
            offset + len <= inode.size,
        ensures
            match r {
                Ok(v) => self.flat_data(nid, *inode, offset as int, len as int) == Ok::<
                    Seq<u8>,
                    ReadError,
                >(v@),
                Err(e) => self.flat_data(nid, *inode, offset as int, len as int) == Err::<
                    Seq<u8>,
                    ReadError,
                >(e),
            },
    {
        let split: u64 = if inode.data_layout() != EROFS_INODE_FLAT_INLINE {
            inode.size
        } else if inode.size == 0 {
            0
        } else {
            (inode.size - 1) / 4096 * 4096
        };
        let blocks: u64 = inode.startblk() * 4096;
        let head: u64 = (inode.header_size() + inode.xattr_size()) as u64;
        let end: u64 = offset + (len as u64);
        if end <= split {
            match self.slice_at(blocks, offset, len) {
                Err(e) => Err(e),
                Ok(s) => Ok(vstd::slice::slice_to_vec(s)),
            }
        } else {
            let base: u64 = self.nid_to_offset(nid) as u64;
            if split <= offset {
                match self.slice_at(base, head + (offset - split), len) {
                    Err(e) => Err(e),
                    Ok(s) => Ok(vstd::slice::slice_to_vec(s)),
                }
            } else {
                let first: usize = (split - offset) as usize;
                match self.slice_at(blocks, offset, first) {
                    Err(e) => Err(e),
                    Ok(a) => match self.slice_at(base, head, len - first) {
                        Err(e) => Err(e),
                        Ok(b) => {
                            let mut v: Vec<u8> = vstd::slice::slice_to_vec(a);
                            let mut w: Vec<u8> = vstd::slice::slice_to_vec(b);
                            v.append(&mut w);
                            Ok(v)
                        },
                    },
                }
            }
        }
    }

    /// Reading the target of a symbolic link: all of its data.
    pub open spec fn symlink_target(self, nid: u64, inode: ErofsInode) -> Result<
        Seq<u8>,
        ReadError,
    > {
        if inode.size > usize::MAX {
            Err(ReadError::OffsetOverflow)
        } else {
            self.flat_data(nid, inode, 0, inode.size as int)
        }
    }

    /// The target of a symbolic link.
    pub fn read_symlink(&self, nid: u64, inode: &ErofsInode) -> (r: Result<Vec<u8>, ReadError>)
        requires
            self.wf(),
            self.nid_fits(nid),
        ensures
            match r {
                Ok(v) => self.symlink_target(nid, *inode) == Ok::<Seq<u8>, ReadError>(v@),
                Err(e) => self.symlink_target(nid, *inode) == Err::<Seq<u8>, ReadError>(e),
            },
    {
        if inode.size > usize::MAX as u64 {
            return Err(ReadError::OffsetOverflow);
        }
        self.read_flat_data_vec(nid, inode, 0, inode.size as usize)
    }
}

// ---------------------------------------------------------------------------
// Directories
// ---------------------------------------------------------------------------

/// A directory entry, with its name as bytes.
pub struct CachedDirEntry {
    pub nid: u64,
    pub file_type: u8,
    pub name: Vec<u8>,
}

#[verifier::ext_equal]
pub struct CachedEntryModel {
    pub nid: u64,
    pub file_type: u8,
    pub name: Seq<u8>,
}

impl View for CachedDirEntry {
    type V = CachedEntryModel;

    open spec fn view(&self) -> CachedEntryModel {
        CachedEntryModel { nid: self.nid, file_type: self.file_type, name: self.name@ }
    }
}

/// The entries of a list, by their views.
pub open spec fn cached_view(entries: Seq<CachedDirEntry>) -> Seq<CachedEntryModel> {
    Seq::new(entries.len(), |i: int| entries[i]@)
}

/// The first zero byte at or behind `from`, or the end.
pub open spec fn first_zero(block: Seq<u8>, from: int) -> int
    decreases block.len() - from,
{
    if from >= block.len() || block[from] == 0 {
        from
    } else {
        first_zero(block, from + 1)
    }
}

/// Number of entries of a directory block: the first name starts behind the
/// last entry.
pub open spec fn block_count(block: Seq<u8>) -> int {
    metadata::dirent_at(block, 0).nameoff as int / 12
}

/// Where the name of entry `i` starts.
pub open spec fn name_start(block: Seq<u8>, i: int) -> int {
    metadata::dirent_at(block, 12 * i).nameoff as int
}

/// Where the name of entry `i` ends: where the next one starts. The last one
/// ends with the block or with a zero byte.
pub open spec fn name_end(block: Seq<u8>, i: int) -> int {
    if i + 1 < block_count(block) {
        name_start(block, i + 1)
    } else {
        first_zero(block, name_start(block, i))
    }
}

/// The entries and the names of a directory block stand inside the block.
pub open spec fn block_valid(block: Seq<u8>) -> bool {
    &&& block.len() >= 12
    &&& 12 <= name_start(block, 0) <= block.len()
    &&& name_start(block, 0) % 12 == 0
    &&& forall|i: int|
        0 <= i < block_count(block) ==> #[trigger] name_start(block, i) <= name_end(block, i)
            <= block.len()
}

/// The entries of a directory block.
pub open spec fn block_entries(block: Seq<u8>) -> Seq<CachedEntryModel> {
    Seq::new(
        block_count(block) as nat,
        |i: int|
            CachedEntryModel {
                nid: metadata::dirent_at(block, 12 * i).nid,
                file_type: metadata::dirent_at(block, 12 * i).file_type,
                name: block.subrange(name_start(block, i), name_end(block, i)),
            },
    )
}

/// Find the first zero byte at or behind `from`.
fn find_zero(block: &[u8], from: usize) -> (r: usize)
    requires
        from <= block@.len(),
    ensures
        r == first_zero(block@, from as int),
        from <= r <= block@.len(),
{
    let mut at: usize = from;
    while at < block.len() && block[at] != 0
        invariant
            from <= at <= block@.len(),
            first_zero(block@, from as int) == first_zero(block@, at as int),
        decreases block@.len() - at,
    {
        at += 1;
    }
    at
}

/// Read the entries of a directory block.
pub fn parse_dir_block(block: &[u8]) -> (r: Result<Vec<CachedDirEntry>, ReadError>)
    ensures
        match r {
            Ok(v) => block_valid(block@) && cached_view(v@) == block_entries(block@),
            Err(e) => !block_valid(block@) && e == ReadError::CorruptDirectory,
        },
{
    if block.len() < EROFS_DIRENT_SIZE {
        return Err(ReadError::CorruptDirectory);
    }
    let first: usize = ErofsDirent::parse(block, 0).nameoff as usize;
    if first < EROFS_DIRENT_SIZE || first > block.len() || first % EROFS_DIRENT_SIZE != 0 {
        return Err(ReadError::CorruptDirectory);
    }
    let count: usize = first / EROFS_DIRENT_SIZE;
    let mut entries: Vec<CachedDirEntry> = Vec::new();
    let mut i: usize = 0;
    while i < count
        invariant
            i <= count,
            count == block_count(block@),
            12 * count == first,
            first <= block@.len(),
            entries@.len() == i,
            forall|j: int|
                0 <= j < i ==> (#[trigger] entries@[j])@ == block_entries(block@)[j]
                    && name_start(block@, j) <= name_end(block@, j) <= block@.len(),
        decreases count - i,
    {
        let dirent = ErofsDirent::parse(block, EROFS_DIRENT_SIZE * i);
        let start: usize = dirent.nameoff as usize;
        if start > block.len() {
            proof {
                assert(name_start(block@, i as int) == start);
                if i + 1 == count {
                    assert(name_end(block@, i as int) == start);
                }
            }
            return Err(ReadError::CorruptDirectory);
        }
        let end: usize = if i + 1 < count {
            ErofsDirent::parse(block, EROFS_DIRENT_SIZE * (i + 1)).nameoff as usize
        } else {
            find_zero(block, start)
        };
        assert(name_start(block@, i as int) == start && name_end(block@, i as int) == end);
        if end < start || end > block.len() {
            return Err(ReadError::CorruptDirectory);
        }
        let name: &[u8] = vstd::slice::slice_subrange(block, start, end);
        entries.push(
            CachedDirEntry {
                nid: dirent.nid,
                file_type: dirent.file_type,
                name: vstd::slice::slice_to_vec(name),
            },
        );
        assert(entries@[i as int]@ =~= block_entries(block@)[i as int]);
        i += 1;
    }
    proof {
        assert forall|j: int| 0 <= j < block_count(block@) implies #[trigger] name_start(block@, j)
            <= name_end(block@, j) <= block@.len() by {
            assert(entries@[j]@ == block_entries(block@)[j]);
        }
        assert(cached_view(entries@) =~= block_entries(block@));
    }
    Ok(entries)
}

/// Number of blocks of directory data.
pub open spec fn dir_blocks(size: int) -> int {
    (size + 4095) / 4096
}

impl<'a> ErofsReader<'a> {
    /// Reading the entries of block `k` of a directory.
    pub open spec fn dir_block(self, nid: u64, inode: ErofsInode, k: int) -> Result<
        Seq<CachedEntryModel>,
        ReadError,
    > {
        let len = if inode.size - k * 4096 < 4096 {
            inode.size - k * 4096
        } else {
            4096
        };
        match self.flat_data(nid, inode, k * 4096, len) {
            Err(e) => Err(e),
            Ok(block) => if block_valid(block) {
                Ok(block_entries(block))
            } else {
                Err(ReadError::CorruptDirectory)
            },
        }
    }

    /// Reading the entries of the first `n` blocks of a directory.
    pub open spec fn dir_entries(self, nid: u64, inode: ErofsInode, n: nat) -> Result<
        Seq<CachedEntryModel>,
        ReadError,
    >
        decreases n,
    {
        if n == 0 {
            Ok(Seq::empty())
        } else {
            match self.dir_entries(nid, inode, (n - 1) as nat) {
                Err(e) => Err(e),
                Ok(before) => match self.dir_block(nid, inode, n - 1) {
                    Err(e) => Err(e),
                    Ok(more) => Ok(before + more),
                },
            }
        }
    }

    /// The entries of block `k` of a directory.
    fn read_dir_block(&self, nid: u64, inode: &ErofsInode, k: u64) -> (r: Result<
        Vec<CachedDirEntry>,
        ReadError,
    >)
        requires
            self.wf(),
            self.nid_fits(nid),
            k < dir_blocks(inode.size as int),
        ensures
            match r {
                Ok(v) => self.dir_block(nid, *inode, k as int) == Ok::<
                    Seq<CachedEntryModel>,
                    ReadError,
                >(cached_view(v@)),
                Err(e) => self.dir_block(nid, *inode, k as int) == Err::<
                    Seq<CachedEntryModel>,
                    ReadError,
                >(e),
            },
    {
        let offset: u64 = k * 4096;
        let len: usize = if inode.size - offset < 4096 {
            (inode.size - offset) as usize
        } else {
            4096
        };
        match self.read_flat_data_vec(nid, inode, offset, len) {
            Err(e) => Err(e),
            Ok(block) => parse_dir_block(&block),
        }
    }

    /// All entries of a directory.
    pub fn read_dir_cached(&self, nid: u64, inode: &ErofsInode) -> (r: Result<
        Vec<CachedDirEntry>,
        ReadError,
    >)
        requires
            self.wf(),
            self.nid_fits(nid),
        ensures
            match r {
                Ok(v) => self.dir_entries(nid, *inode, dir_blocks(inode.size as int) as nat)
                    == Ok::<Seq<CachedEntryModel>, ReadError>(cached_view(v@)),
                Err(e) => self.dir_entries(nid, *inode, dir_blocks(inode.size as int) as nat)
                    == Err::<Seq<CachedEntryModel>, ReadError>(e),
            },
    {
        let blocks: u64 = if inode.size % 4096 == 0 {
            inode.size / 4096
        } else {
            inode.size / 4096 + 1
        };
        let mut entries: Vec<CachedDirEntry> = Vec::new();
        let mut k: u64 = 0;
        assert(cached_view(entries@) =~= Seq::<CachedEntryModel>::empty());
        while k < blocks
            invariant
                self.wf(),
                self.nid_fits(nid),
                k <= blocks == dir_blocks(inode.size as int),
                self.dir_entries(nid, *inode, k as nat) == Ok::<Seq<CachedEntryModel>, ReadError>(
                    cached_view(entries@),
                ),
            decreases blocks - k,
        {
            match self.read_dir_block(nid, inode, k) {
                Err(e) => {
                    proof {
                        self.lemma_dir_error(
                            nid,
                            *inode,
                            (k + 1) as nat,
                            blocks as nat,
                            e,
                        );
                    }
                    return Err(e);
                },
                Ok(more) => {
                    let mut more = more;
                    let ghost had = entries@;
                    let ghost added = more@;
                    entries.append(&mut more);
                    assert(cached_view(entries@) =~= cached_view(had) + cached_view(added));
                },
            }
            k += 1;
        }
        Ok(entries)
    }

    proof fn lemma_dir_error(self, nid: u64, inode: ErofsInode, m: nat, n: nat, e: ReadError)
        requires
            m <= n,
            self.dir_entries(nid, inode, m) == Err::<Seq<CachedEntryModel>, ReadError>(e),
        ensures
            self.dir_entries(nid, inode, n) == Err::<Seq<CachedEntryModel>, ReadError>(e),
        decreases n,
    {
        if m < n {
            self.lemma_dir_error(nid, inode, m, (n - 1) as nat, e);
        }
    }
}

// ---------------------------------------------------------------------------
// Lookup
// ---------------------------------------------------------------------------

/// The NID of the first of the entries from `i` on that has this name.
pub open spec fn find_name(
    entries: Seq<CachedEntryModel>,
    name: Seq<u8>,
    i: int,
) -> Option<u64>
    decreases entries.len() - i,
{
    if i >= entries.len() {
        None
    } else if entries[i].name == name {
        Some(entries[i].nid)
    } else {
        find_name(entries, name, i + 1)
    }
}

/// Compare two names.
pub fn same_name(a: &[u8], b: &[u8]) -> (r: bool)
    ensures
        r == (a@ == b@),
{
    if a.len() != b.len() {
        return false;
    }
    let mut i: usize = 0;
    while i < a.len()
        invariant
            i <= a@.len() == b@.len(),
            forall|j: int| 0 <= j < i ==> a@[j] == b@[j],
        decreases a@.len() - i,
    {
        if a[i] != b[i] {
            assert(a@[i as int] != b@[i as int]);
            return false;
        }
        i += 1;
    }
    assert(a@ =~= b@);
    true
}

/// Find the first entry with a given name.
pub fn find_entry(entries: &Vec<CachedDirEntry>, name: &[u8]) -> (r: Option<u64>)
    ensures
        r == find_name(cached_view(entries@), name@, 0),
{
    let mut i: usize = 0;
    while i < entries.len()
        invariant
            i <= entries@.len(),
            find_name(cached_view(entries@), name@, 0) == find_name(
                cached_view(entries@),
                name@,
                i as int,
            ),
        decreases entries@.len() - i,
    {
        assert(cached_view(entries@)[i as int] == entries@[i as int]@);
        if same_name(&entries[i].name, name) {
            return Some(entries[i].nid);
        }
        i += 1;
    }
    None
}

impl<'a> ErofsReader<'a> {
    /// Looking a name up in the blocks of a directory from block `k` on: the
    /// blocks behind the one that has the name are not read.
    pub open spec fn find_from(
        self,
        nid: u64,
        inode: ErofsInode,
        name: Seq<u8>,
        k: int,
    ) -> Result<Option<u64>, ReadError>
        decreases dir_blocks(inode.size as int) - k,
    {
        if k >= dir_blocks(inode.size as int) {
            Ok(None)
        } else {
            match self.dir_block(nid, inode, k) {
                Err(e) => Err(e),
                Ok(entries) => match find_name(entries, name, 0) {
                    Some(found) => Ok(Some(found)),
                    None => self.find_from(nid, inode, name, k + 1),
                },
            }
        }
    }

    /// Look a name up in a directory.
    pub fn find_dir_entry(&self, nid: u64, inode: &ErofsInode, name: &[u8]) -> (r: Result<
        Option<u64>,
        ReadError,
    >)
        requires
            self.wf(),
            self.nid_fits(nid),
        ensures
            r == self.find_from(nid, *inode, name@, 0),
    {
        let blocks: u64 = if inode.size % 4096 == 0 {
            inode.size / 4096
        } else {
            inode.size / 4096 + 1
        };
        let mut k: u64 = 0;
        while k < blocks
            invariant
                self.wf(),
                self.nid_fits(nid),
                k <= blocks == dir_blocks(inode.size as int),
                self.find_from(nid, *inode, name@, 0) == self.find_from(
                    nid,
                    *inode,
                    name@,
                    k as int,
                ),
            decreases blocks - k,
        {
            match self.read_dir_block(nid, inode, k) {
                Err(e) => {
                    return Err(e);
                },
                Ok(entries) => {
                    match find_entry(&entries, name) {
                        Some(found) => {
                            return Ok(Some(found));
                        },
                        None => {},
                    }
                },
            }
            k += 1;
        }
        Ok(None)
    }
}

} // verus!
