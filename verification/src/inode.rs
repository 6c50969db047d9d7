//! In-memory inodes and their serialization.
use crate::blobchunk::ChunkIndex;
use crate::bytes;
use crate::ondisk;
use crate::ondisk::{
    EROFS_BLKSZBITS, EROFS_CHUNK_FORMAT_INDEXES, EROFS_CHUNK_INDEX_SIZE, EROFS_FT_BLKDEV,
    EROFS_FT_CHRDEV, EROFS_FT_DIR, EROFS_FT_FIFO, EROFS_FT_REG_FILE, EROFS_FT_SOCK,
    EROFS_FT_SYMLINK, EROFS_INODE_CHUNK_BASED, EROFS_INODE_COMPACT_SIZE,
    EROFS_INODE_EXTENDED_SIZE, EROFS_INODE_FLAT_INLINE, EROFS_INODE_FLAT_PLAIN,
};
use vstd::prelude::*;

verus! {

/// A directory entry that refers to a child inode.
pub struct DirEntry {
    pub name: String,
    pub file_type: u8,
    /// Index into the flat inode list.
    pub inode_idx: usize,
}

/// Data that depends on the type of a file.
pub enum InodeData {
    /// Regular file, stored in chunks.
    RegularFile { chunk_indexes: Vec<ChunkIndex> },
    Directory {
        /// Children, sorted by file name.
        children: Vec<DirEntry>,
        /// Absolute start block of the directory data; set by the image layout.
        startblk: u64,
        /// Length of the serialized directory data; set by the image layout.
        dir_data_size: usize,
        /// NID of the parent; set by the image layout.
        parent_nid: u64,
    },
    Symlink { target: Vec<u8> },
    /// Character or block device.
    SpecialDev { rdev: u32 },
    /// FIFO or socket.
    SpecialNoData,
}

/// An inode in memory.
pub struct InodeInfo {
    /// Mode, with the file type bits.
    pub mode: u16,
    pub uid: u32,
    pub gid: u32,
    pub size: u64,
    /// Seconds since 1970.
    pub mtime: u64,
    pub mtime_nsec: u32,
    pub nlink: u32,
    /// Inode number for `stat`.
    pub ino: u32,
    /// NID; set by the image layout.
    pub nid: u64,
    /// Offset in the metadata area; set by the image layout.
    pub meta_offset: usize,
    /// The inode needs the extended format.
    pub is_extended: bool,
    pub data: InodeData,
}

// ---------------------------------------------------------------------------
// Model
// ---------------------------------------------------------------------------

#[verifier::ext_equal]
pub struct DirEntryModel {
    pub name: Seq<char>,
    pub file_type: u8,
    pub inode_idx: int,
}

impl View for DirEntry {
    type V = DirEntryModel;

    open spec fn view(&self) -> DirEntryModel {
        DirEntryModel {
            name: self.name@,
            file_type: self.file_type,
            inode_idx: self.inode_idx as int,
        }
    }
}

#[verifier::ext_equal]
pub enum DataModel {
    RegularFile { chunk_indexes: Seq<ChunkIndex> },
    Directory {
        children: Seq<DirEntryModel>,
        startblk: u64,
        dir_data_size: int,
        parent_nid: u64,
    },
    Symlink { target: Seq<u8> },
    SpecialDev { rdev: u32 },
    SpecialNoData,
}

/// The entries of a list, by their views.
pub open spec fn entries_view(children: Seq<DirEntry>) -> Seq<DirEntryModel> {
    Seq::new(children.len(), |i: int| children[i]@)
}

impl View for InodeData {
    type V = DataModel;

    open spec fn view(&self) -> DataModel {
        match *self {
            InodeData::RegularFile { chunk_indexes } => DataModel::RegularFile {
                chunk_indexes: chunk_indexes@,
            },
            InodeData::Directory { children, startblk, dir_data_size, parent_nid } =>
            DataModel::Directory {
                children: entries_view(children@),
                startblk,
                dir_data_size: dir_data_size as int,
                parent_nid,
            },
            InodeData::Symlink { target } => DataModel::Symlink { target: target@ },
            InodeData::SpecialDev { rdev } => DataModel::SpecialDev { rdev },
            InodeData::SpecialNoData => DataModel::SpecialNoData,
        }
    }
}

#[verifier::ext_equal]
pub struct InodeModel {
    pub mode: u16,
    pub uid: u32,
    pub gid: u32,
    pub size: u64,
    pub mtime: u64,
    pub mtime_nsec: u32,
    pub nlink: u32,
    pub ino: u32,
    pub nid: u64,
    pub meta_offset: int,
    pub is_extended: bool,
    pub data: DataModel,
}

impl View for InodeInfo {
    type V = InodeModel;

    open spec fn view(&self) -> InodeModel {
        InodeModel {
            mode: self.mode,
            uid: self.uid,
            gid: self.gid,
            size: self.size,
            mtime: self.mtime,
            mtime_nsec: self.mtime_nsec,
            nlink: self.nlink,
            ino: self.ino,
            nid: self.nid,
            meta_offset: self.meta_offset as int,
            is_extended: self.is_extended,
            data: self.data@,
        }
    }
}

/// Seconds from `epoch` to `mtime`, in 32 bits.
pub open spec fn mtime_delta(mtime: u64, epoch: u64) -> u32 {
    ((mtime - epoch) % 0x1_0000_0000) as u32
}

/// Chunk format of a chunk-based inode: the number of bits that chunks have
/// over blocks, and the flag for chunk indexes.
pub open spec fn chunk_format_bits(chunkbits: u32, blkszbits: u32) -> u16 {
    EROFS_CHUNK_FORMAT_INDEXES | (((chunkbits - blkszbits) % 0x1_0000) as u16)
}

/// The serialized chunk indexes, one behind the other.
pub open spec fn chunk_index_table(indexes: Seq<ChunkIndex>) -> Seq<u8> {
    Seq::new(
        indexes.len() * 8,
        |k: int|
            ondisk::chunk_index(indexes[k / 8].blkaddr, indexes[k / 8].device_id)[k % 8],
    )
}

impl InodeModel {
    /// Size of the inode header.
    pub open spec fn base_size(self) -> int {
        if self.is_extended {
            64
        } else {
            32
        }
    }

    /// Size of the inode with what is stored right behind it.
    pub open spec fn meta_size(self) -> int {
        self.base_size() + match self.data {
            DataModel::RegularFile { chunk_indexes } => 8 * chunk_indexes.len() as int,
            DataModel::Symlink { target } => target.len() as int,
            _ => 0,
        }
    }

    pub open spec fn datalayout(self) -> u16 {
        match self.data {
            DataModel::RegularFile { .. } => EROFS_INODE_CHUNK_BASED,
            DataModel::Symlink { .. } => EROFS_INODE_FLAT_INLINE,
            _ => EROFS_INODE_FLAT_PLAIN,
        }
    }

    /// Value of `i_nb`: the high bits of a directory's start block.
    pub open spec fn i_nb(self) -> u16 {
        match self.data {
            DataModel::Directory { startblk, .. } => ondisk::blkaddr_hi(startblk),
            _ => 0,
        }
    }

    /// Value of `i_size`: special files have none.
    pub open spec fn i_size(self) -> u64 {
        match self.data {
            DataModel::SpecialDev { .. } => 0,
            DataModel::SpecialNoData => 0,
            _ => self.size,
        }
    }

    /// Value of `i_u`.
    pub open spec fn i_u(self, chunkbits: u32) -> u32 {
        match self.data {
            DataModel::RegularFile { .. } => chunk_format_bits(
                chunkbits,
                EROFS_BLKSZBITS as u32,
            ) as u32,
            DataModel::Directory { startblk, .. } => bytes::low32(startblk),
            DataModel::SpecialDev { rdev } => rdev,
            _ => 0,
        }
    }

    /// The serialized inode header.
    pub open spec fn header(self, epoch: u64, chunkbits: u32) -> Seq<u8> {
        if self.is_extended {
            ondisk::extended_inode(
                ondisk::extended_format(self.datalayout()),
                self.mode,
                self.i_nb(),
                self.i_size(),
                self.i_u(chunkbits),
                self.ino,
                self.uid,
                self.gid,
                self.mtime,
                self.mtime_nsec,
                self.nlink,
            )
        } else {
            ondisk::compact_inode(
                ondisk::compact_format(self.datalayout(), !(self.data is Directory)),
                self.mode,
                self.i_nb(),
                bytes::low32(self.i_size()),
                mtime_delta(self.mtime, epoch),
                self.i_u(chunkbits),
                self.ino,
                (self.uid % 0x1_0000) as u16,
                (self.gid % 0x1_0000) as u16,
            )
        }
    }

    /// What is stored right behind the header: the chunk indexes of a regular
    /// file, the target of a symbolic link.
    pub open spec fn tail(self) -> Seq<u8> {
        match self.data {
            DataModel::RegularFile { chunk_indexes } => chunk_index_table(chunk_indexes),
            DataModel::Symlink { target } => target,
            _ => Seq::empty(),
        }
    }

    /// The serialized inode.
    pub open spec fn to_bytes(self, epoch: u64, chunkbits: u32) -> Seq<u8> {
        self.header(epoch, chunkbits) + self.tail()
    }
}

/// EROFS file type of a mode.
pub open spec fn file_type_of(mode: u16) -> u8 {
    let fmt = mode & 0o170000;
    if fmt == 0o100000 {
        EROFS_FT_REG_FILE
    } else if fmt == 0o040000 {
        EROFS_FT_DIR
    } else if fmt == 0o020000 {
        EROFS_FT_CHRDEV
    } else if fmt == 0o060000 {
        EROFS_FT_BLKDEV
    } else if fmt == 0o010000 {
        EROFS_FT_FIFO
    } else if fmt == 0o140000 {
        EROFS_FT_SOCK
    } else if fmt == 0o120000 {
        EROFS_FT_SYMLINK
    } else {
        0
    }
}

// ---------------------------------------------------------------------------
// Functions
// ---------------------------------------------------------------------------

/// Map the file type bits of a mode to an EROFS file type; 0 is unknown.
pub fn mode_to_file_type(mode: u16) -> (r: u8)
    ensures
        r == file_type_of(mode),
{
    let fmt: u16 = mode & 0o170000;
    if fmt == 0o100000 {
        EROFS_FT_REG_FILE
    } else if fmt == 0o040000 {
        EROFS_FT_DIR
    } else if fmt == 0o020000 {
        EROFS_FT_CHRDEV
    } else if fmt == 0o060000 {
        EROFS_FT_BLKDEV
    } else if fmt == 0o010000 {
        EROFS_FT_FIFO
    } else if fmt == 0o140000 {
        EROFS_FT_SOCK
    } else if fmt == 0o120000 {
        EROFS_FT_SYMLINK
    } else {
        0
    }
}

/// Offset of the chunk indexes: the header size, rounded up to 8 bytes, which
/// both header sizes are a multiple of.
fn extent_offset(is_extended: bool) -> (r: usize)
    ensures
        r == (if is_extended {
            64int
        } else {
            32int
        }),
{
    let base: usize = if is_extended {
        EROFS_INODE_EXTENDED_SIZE
    } else {
        EROFS_INODE_COMPACT_SIZE
    };
    proof {
        vstd::arithmetic::power2::lemma2_to64();
        assert(8 == vstd::arithmetic::power2::pow2(3));
    }
    ondisk::round_up(base, 8)
}

/// Size of an inode in the metadata area. Chunk indexes and link targets stand
/// right behind the header; directory data has blocks of its own.
pub fn inode_meta_size(inode: &InodeInfo, _chunkbits: u32, _blkszbits: u32) -> (r: usize)
    requires
        inode@.meta_size() <= usize::MAX,
    ensures
        r == inode@.meta_size(),
{
    let base: usize = if inode.is_extended {
        EROFS_INODE_EXTENDED_SIZE
    } else {
        EROFS_INODE_COMPACT_SIZE
    };
    match &inode.data {
        InodeData::RegularFile { chunk_indexes } => {
            if chunk_indexes.is_empty() {
                base
            } else {
                extent_offset(inode.is_extended) + chunk_indexes.len() * EROFS_CHUNK_INDEX_SIZE
            }
        },
        InodeData::Directory { .. } => base,
        InodeData::Symlink { target } => base + target.len(),
        InodeData::SpecialDev { .. } => base,
        InodeData::SpecialNoData => base,
    }
}

/// Compute the chunk format of chunk-based inodes.
pub fn chunk_format(chunkbits: u32, blkszbits: u32) -> (r: u16)
    requires
        blkszbits <= chunkbits,
    ensures
        r == chunk_format_bits(chunkbits, blkszbits),
        chunkbits - blkszbits < 32 ==> r == 32 + (chunkbits - blkszbits),
{
    let bits: u16 = ((chunkbits - blkszbits) % 0x1_0000) as u16;
    assert(bits < 32 ==> 0x20u16 | bits == 32 + bits) by (bit_vector);
    EROFS_CHUNK_FORMAT_INDEXES | bits
}

/// The header fields that depend on the type of a file.
struct TypeFields {
    datalayout: u16,
    nlink_1: bool,
    i_nb: u16,
    i_size: u64,
    i_u: u32,
}

fn type_fields(inode: &InodeInfo, chunkbits: u32) -> (r: TypeFields)
    requires
        inode.data is RegularFile ==> chunkbits >= EROFS_BLKSZBITS,
    ensures
        r.datalayout == inode@.datalayout(),
        r.nlink_1 == !(inode.data is Directory),
        r.i_nb == inode@.i_nb(),
        r.i_size == inode@.i_size(),
        r.i_u == inode@.i_u(chunkbits),
{
    match &inode.data {
        InodeData::RegularFile { .. } => TypeFields {
            datalayout: EROFS_INODE_CHUNK_BASED,
            nlink_1: true,
            i_nb: 0,
            i_size: inode.size,
            i_u: chunk_format(chunkbits, EROFS_BLKSZBITS as u32) as u32,
        },
        InodeData::Directory { startblk, .. } => TypeFields {
            datalayout: EROFS_INODE_FLAT_PLAIN,
            nlink_1: false,
            i_nb: bytes::high_u16(*startblk),
            i_size: inode.size,
            i_u: bytes::low_u32(*startblk),
        },
        InodeData::Symlink { .. } => TypeFields {
            datalayout: EROFS_INODE_FLAT_INLINE,
            nlink_1: true,
            i_nb: 0,
            i_size: inode.size,
            i_u: 0,
        },
        InodeData::SpecialDev { rdev } => TypeFields {
            datalayout: EROFS_INODE_FLAT_PLAIN,
            nlink_1: true,
            i_nb: 0,
            i_size: 0,
            i_u: *rdev,
        },
        InodeData::SpecialNoData => TypeFields {
            datalayout: EROFS_INODE_FLAT_PLAIN,
            nlink_1: true,
            i_nb: 0,
            i_size: 0,
            i_u: 0,
        },
    }
}

/// Serialize the header of an inode.
fn serialize_header(inode: &InodeInfo, epoch: u64, chunkbits: u32) -> (r: Vec<u8>)
    requires
        inode.data is RegularFile ==> chunkbits >= EROFS_BLKSZBITS,
    ensures
        r@ == inode@.header(epoch, chunkbits),
{
    let f = type_fields(inode, chunkbits);
    if inode.is_extended {
        let hdr = ondisk::serialize_inode_extended(
            ondisk::extended_i_format(f.datalayout),
            inode.mode,
            f.i_nb,
            f.i_size,
            f.i_u,
            inode.ino,
            inode.uid,
            inode.gid,
            inode.mtime,
            inode.mtime_nsec,
            inode.nlink,
        );
        vstd::slice::slice_to_vec(&hdr)
    } else {
        let i_mtime: u32 = bytes::low_u32(inode.mtime.wrapping_sub(epoch));
        assert(i_mtime == mtime_delta(inode.mtime, epoch));
        let hdr = ondisk::serialize_inode_compact(
            ondisk::compact_i_format(f.datalayout, f.nlink_1),
            inode.mode,
            f.i_nb,
            bytes::low_u32(f.i_size),
            i_mtime,
            f.i_u,
            inode.ino,
            (inode.uid % 0x1_0000) as u16,
            (inode.gid % 0x1_0000) as u16,
        );
        vstd::slice::slice_to_vec(&hdr)
    }
}

/// Serialize an inode with what is stored right behind it.
pub fn serialize_inode(inode: &InodeInfo, epoch: u64, chunkbits: u32) -> (r: Vec<u8>)
    requires
        inode@.meta_size() <= usize::MAX,
        inode.data is RegularFile ==> chunkbits >= EROFS_BLKSZBITS,
    ensures
        r@ == inode@.to_bytes(epoch, chunkbits),
        r@.len() == inode@.meta_size(),
{
    let mut buf: Vec<u8> = serialize_header(inode, epoch, chunkbits);
    let meta_size: usize = inode_meta_size(inode, chunkbits, EROFS_BLKSZBITS as u32);
    let ghost head = buf@;
    assert(head.len() == inode@.base_size());
    buf.resize(meta_size, 0);
    assert(buf@.take(head.len() as int) =~= head);
    match &inode.data {
        InodeData::RegularFile { chunk_indexes } => {
            let base: usize = extent_offset(inode.is_extended);
            let ghost table = chunk_index_table(chunk_indexes@);
            let mut i: usize = 0;
            while i < chunk_indexes.len()
                invariant
                    i <= chunk_indexes@.len(),
                    base == head.len(),
                    meta_size == base + 8 * chunk_indexes@.len(),
                    buf@.len() == meta_size,
                    table == chunk_index_table(chunk_indexes@),
                    buf@.take(base as int) == head,
                    forall|k: int| 0 <= k < 8 * i ==> #[trigger] buf@[base + k] == table[k],
                decreases chunk_indexes@.len() - i,
            {
                let ci = chunk_indexes[i];
                let idx = ondisk::serialize_chunk_index(ci.blkaddr, ci.device_id);
                let off: usize = base + i * EROFS_CHUNK_INDEX_SIZE;
                let ghost before = buf@;
                bytes::put_vec(&mut buf, off, &idx);
                assert(buf@.take(base as int) =~= head) by {
                    assert(before.take(base as int) == head);
                    assert forall|k: int| 0 <= k < base implies buf@[k] == head[k] by {
                        assert(before.take(base as int)[k] == before[k]);
                    }
                }
                assert forall|k: int| 0 <= k < 8 * (i + 1) implies #[trigger] buf@[base + k]
                    == table[k] by {
                    if k < 8 * i {
                        assert(before[base + k] == table[k]);
                    } else {
                        assert(k / 8 == i && k % 8 == k - 8 * i);
                    }
                }
                i = i + 1;
            }
            assert(buf@ =~= head + table) by {
                assert forall|k: int| 0 <= k < buf@.len() implies buf@[k] == (head + table)[k] by {
                    if k < base {
                        assert(buf@.take(base as int)[k] == head[k]);
                    } else {
                        assert(buf@[base + (k - base)] == table[k - base]);
                    }
                }
            }
        },
        InodeData::Symlink { target } => {
            let base: usize = if inode.is_extended {
                EROFS_INODE_EXTENDED_SIZE
            } else {
                EROFS_INODE_COMPACT_SIZE
            };
            bytes::put_vec(&mut buf, base, target);
            assert(buf@ =~= head + target@);
        },
        InodeData::Directory { .. } => {
            assert(buf@ =~= head + inode@.tail());
        },
        InodeData::SpecialDev { .. } => {
            assert(buf@ =~= head + inode@.tail());
        },
        InodeData::SpecialNoData => {
            assert(buf@ =~= head + inode@.tail());
        },
    }
    buf
}

} // verus!
