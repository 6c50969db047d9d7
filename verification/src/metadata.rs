//! Reading the on-disk records back.
use crate::blobchunk::ChunkIndex;
use crate::bytes;
use crate::inode;
use crate::ondisk;
use crate::ondisk::{EROFS_INODE_COMPACT_SIZE, EROFS_INODE_EXTENDED_SIZE, EROFS_NULL_ADDR};
use vstd::prelude::*;

verus! {

/// The fields of a superblock.
#[derive(Clone, Copy, PartialEq, Eq, Structural, Debug)]
pub struct ErofsSuperblock {
    pub magic: u32,
    pub feature_compat: u32,
    pub blkszbits: u8,
    pub root_nid: u64,
    pub inos: u64,
    pub epoch: u64,
    pub blocks: u64,
    pub meta_blkaddr: u32,
    pub xattr_blkaddr: u32,
    pub feature_incompat: u32,
    pub extra_devices: u16,
    pub devt_slotoff: u16,
}

/// The superblock at offset `at` of `s`.
pub open spec fn superblock_at(s: Seq<u8>, at: int) -> ErofsSuperblock {
    ErofsSuperblock {
        magic: bytes::get32(s, at),
        feature_compat: bytes::get32(s, at + 8),
        blkszbits: s[at + 12],
        root_nid: bytes::get16(s, at + 14) as u64,
        inos: bytes::get64(s, at + 16),
        epoch: bytes::get64(s, at + 24),
        blocks: bytes::get32(s, at + 36) as u64,
        meta_blkaddr: bytes::get32(s, at + 40),
        xattr_blkaddr: bytes::get32(s, at + 44),
        feature_incompat: bytes::get32(s, at + 80),
        extra_devices: bytes::get16(s, at + 86),
        devt_slotoff: bytes::get16(s, at + 88),
    }
}

impl ErofsSuperblock {
    /// Read the superblock at offset `at`.
    pub fn parse(data: &[u8], at: usize) -> (r: ErofsSuperblock)
        requires
            at + ondisk::EROFS_SB_BASE_SIZE <= data@.len(),
        ensures
            r == superblock_at(data@, at as int),
    {
        assert(at + 128 <= data.len());
        ErofsSuperblock {
            magic: bytes::read_u32(data, at),
            feature_compat: bytes::read_u32(data, at + 8),
            blkszbits: data[at + 12],
            root_nid: bytes::read_u16(data, at + 14) as u64,
            inos: bytes::read_u64(data, at + 16),
            epoch: bytes::read_u64(data, at + 24),
            blocks: bytes::read_u32(data, at + 36) as u64,
            meta_blkaddr: bytes::read_u32(data, at + 40),
            xattr_blkaddr: bytes::read_u32(data, at + 44),
            feature_incompat: bytes::read_u32(data, at + 80),
            extra_devices: bytes::read_u16(data, at + 86),
            devt_slotoff: bytes::read_u16(data, at + 88),
        }
    }
}

/// The fields of an inode.
#[derive(Clone, Copy, PartialEq, Eq, Structural, Debug)]
pub struct ErofsInode {
    pub format: u16,
    pub xattr_icount: u16,
    pub mode: u16,
    pub nb: u16,
    pub size: u64,
    /// Start block, device number or chunk format.
    pub u: u32,
    pub ino: u32,
    pub uid: u32,
    pub gid: u32,
    /// Seconds since the epoch of the image in a compact inode, since 1970 in
    /// an extended one.
    pub raw_mtime: u64,
    pub mtime_nsec: u32,
    pub nlink: u32,
}

/// An inode that starts with this `i_format` is an extended one.
pub open spec fn is_extended_format(format: u16) -> bool {
    format % 2 == 1
}

/// The inode at offset `at` of `s`.
pub open spec fn inode_at(s: Seq<u8>, at: int) -> ErofsInode {
    let format = bytes::get16(s, at);
    let nb = bytes::get16(s, at + 6);
    if is_extended_format(format) {
        ErofsInode {
            format,
            xattr_icount: bytes::get16(s, at + 2),
            mode: bytes::get16(s, at + 4),
            nb,
            size: bytes::get64(s, at + 8),
            u: bytes::get32(s, at + 16),
            ino: bytes::get32(s, at + 20),
            uid: bytes::get32(s, at + 24),
            gid: bytes::get32(s, at + 28),
            raw_mtime: bytes::get64(s, at + 32),
            mtime_nsec: bytes::get32(s, at + 40),
            nlink: bytes::get32(s, at + 44),
        }
    } else {
        ErofsInode {
            format,
            xattr_icount: bytes::get16(s, at + 2),
            mode: bytes::get16(s, at + 4),
            nb,
            size: bytes::get32(s, at + 8) as u64,
            u: bytes::get32(s, at + 16),
            ino: bytes::get32(s, at + 20),
            uid: bytes::get16(s, at + 24) as u32,
            gid: bytes::get16(s, at + 26) as u32,
            raw_mtime: bytes::get32(s, at + 12) as u64,
            mtime_nsec: 0,
            nlink: if format / 16 % 2 == 1 {
                1
            } else {
                nb as u32
            },
        }
    }
}

impl ErofsInode {
    pub open spec fn spec_data_layout(self) -> u16 {
        ondisk::format_layout(self.format)
    }

    pub open spec fn spec_header_size(self) -> usize {
        if is_extended_format(self.format) {
            64
        } else {
            32
        }
    }

    pub open spec fn spec_xattr_size(self) -> usize {
        if self.xattr_icount == 0 {
            0
        } else {
            (12 + 4 * (self.xattr_icount - 1)) as usize
        }
    }

    pub open spec fn spec_chunk_format(self) -> u16 {
        (self.u % 0x1_0000) as u16
    }

    pub open spec fn spec_startblk(self) -> u64 {
        (self.nb * 0x1_0000_0000 + self.u) as u64
    }

    pub open spec fn spec_mtime(self, epoch: u64) -> u64 {
        if is_extended_format(self.format) {
            self.raw_mtime
        } else {
            ((epoch + self.raw_mtime) % 0x1_0000_0000_0000_0000) as u64
        }
    }

    /// Read the inode at offset `at`. The first two bytes tell its size.
    pub fn parse(data: &[u8], at: usize) -> (r: ErofsInode)
        requires
            at + EROFS_INODE_COMPACT_SIZE <= data@.len(),
            is_extended_format(bytes::get16(data@, at as int)) ==> at + EROFS_INODE_EXTENDED_SIZE
                <= data@.len(),
        ensures
            r == inode_at(data@, at as int),
    {
        assert(at + 32 <= data.len());
        let format: u16 = bytes::read_u16(data, at);
        let nb: u16 = bytes::read_u16(data, at + 6);
        if format % 2 == 1 {
            ErofsInode {
                format,
                xattr_icount: bytes::read_u16(data, at + 2),
                mode: bytes::read_u16(data, at + 4),
                nb,
                size: bytes::read_u64(data, at + 8),
                u: bytes::read_u32(data, at + 16),
                ino: bytes::read_u32(data, at + 20),
                uid: bytes::read_u32(data, at + 24),
                gid: bytes::read_u32(data, at + 28),
                raw_mtime: bytes::read_u64(data, at + 32),
                mtime_nsec: bytes::read_u32(data, at + 40),
                nlink: bytes::read_u32(data, at + 44),
            }
        } else {
            ErofsInode {
                format,
                xattr_icount: bytes::read_u16(data, at + 2),
                mode: bytes::read_u16(data, at + 4),
                nb,
                size: bytes::read_u32(data, at + 8) as u64,
                u: bytes::read_u32(data, at + 16),
                ino: bytes::read_u32(data, at + 20),
                uid: bytes::read_u16(data, at + 24) as u32,
                gid: bytes::read_u16(data, at + 26) as u32,
                raw_mtime: bytes::read_u32(data, at + 12) as u64,
                mtime_nsec: 0,
                nlink: if format / 16 % 2 == 1 {
                    1
                } else {
                    nb as u32
                },
            }
        }
    }

    /// Layout of the file data.
    pub fn data_layout(&self) -> (r: u16)
        ensures
            r == self.spec_data_layout(),
    {
        self.format / 2 % 8
    }

    /// Size of the inode header.
    pub fn header_size(&self) -> (r: usize)
        ensures
            r == self.spec_header_size(),
    {
        if self.format % 2 == 1 {
            EROFS_INODE_EXTENDED_SIZE
        } else {
            EROFS_INODE_COMPACT_SIZE
        }
    }

    /// Size of the area of extended attributes behind the header: a 12-byte
    /// head and 4 bytes for each further count.
    pub fn xattr_size(&self) -> (r: usize)
        ensures
            r == self.spec_xattr_size(),
    {
        if self.xattr_icount == 0 {
            0
        } else {
            12 + 4 * (self.xattr_icount as usize - 1)
        }
    }

    /// Chunk format of a chunk-based inode.
    pub fn chunk_format(&self) -> (r: u16)
        ensures
            r == self.spec_chunk_format(),
    {
        (self.u % 0x1_0000) as u16
    }

    /// Start block of flat data.
    pub fn startblk(&self) -> (r: u64)
        ensures
            r == self.spec_startblk(),
    {
        (self.nb as u64) * 0x1_0000_0000 + (self.u as u64)
    }

    /// Time of the last modification.
    pub fn mtime(&self, epoch: u64) -> (r: u64)
        ensures
            r == self.spec_mtime(epoch),
    {
        if self.format % 2 == 1 {
            self.raw_mtime
        } else {
            epoch.wrapping_add(self.raw_mtime)
        }
    }
}

/// The chunk index at offset `at` of `s`: all ones is a hole.
pub open spec fn chunk_index_at(s: Seq<u8>, at: int) -> ChunkIndex {
    let hi = bytes::get16(s, at);
    let device_id = bytes::get16(s, at + 2);
    let lo = bytes::get32(s, at + 4);
    ChunkIndex {
        blkaddr: if hi == 0xFFFF && device_id == 0xFFFF && lo == 0xFFFF_FFFF {
            EROFS_NULL_ADDR
        } else {
            (hi * 0x1_0000_0000 + lo) as u64
        },
        device_id,
    }
}

/// Read the chunk index at offset `at`.
pub fn parse_chunk_index(data: &[u8], at: usize) -> (r: ChunkIndex)
    requires
        at + ondisk::EROFS_CHUNK_INDEX_SIZE <= data@.len(),
    ensures
        r == chunk_index_at(data@, at as int),
        r.blkaddr == EROFS_NULL_ADDR || r.blkaddr < 0x1_0000_0000_0000,
{
    assert(at + 8 <= data.len());
    let hi: u16 = bytes::read_u16(data, at);
    let device_id: u16 = bytes::read_u16(data, at + 2);
    let lo: u32 = bytes::read_u32(data, at + 4);
    let blkaddr: u64 = if hi == 0xFFFF && device_id == 0xFFFF && lo == 0xFFFF_FFFF {
        EROFS_NULL_ADDR
    } else {
        (hi as u64) * 0x1_0000_0000 + (lo as u64)
    };
    ChunkIndex { blkaddr, device_id }
}

/// The fields of a directory entry.
#[derive(Clone, Copy, PartialEq, Eq, Structural, Debug)]
pub struct ErofsDirent {
    pub nid: u64,
    pub nameoff: u16,
    pub file_type: u8,
}

/// The directory entry at offset `at` of `s`.
pub open spec fn dirent_at(s: Seq<u8>, at: int) -> ErofsDirent {
    ErofsDirent {
        nid: bytes::get64(s, at),
        nameoff: bytes::get16(s, at + 8),
        file_type: s[at + 10],
    }
}

impl ErofsDirent {
    /// Read the directory entry at offset `at`.
    pub fn parse(data: &[u8], at: usize) -> (r: ErofsDirent)
        requires
            at + ondisk::EROFS_DIRENT_SIZE <= data@.len(),
        ensures
            r == dirent_at(data@, at as int),
    {
        assert(at + 12 <= data.len());
        ErofsDirent {
            nid: bytes::read_u64(data, at),
            nameoff: bytes::read_u16(data, at + 8),
            file_type: data[at + 10],
        }
    }
}

// ---------------------------------------------------------------------------
// Laws: what was written is read back
// ---------------------------------------------------------------------------

/// `s` holds the bytes `b` at offset `at`.
pub open spec fn holds_at(s: Seq<u8>, at: int, b: Seq<u8>) -> bool {
    &&& 0 <= at <= s.len() - b.len()
    &&& s.subrange(at, at + b.len()) == b
}

/// A part of the bytes at `at` stands at the offset of the part.
proof fn lemma_part(s: Seq<u8>, at: int, b: Seq<u8>, off: int, part: Seq<u8>)
    requires
        holds_at(s, at, b),
        0 <= off <= b.len() - part.len(),
        b.subrange(off, off + part.len()) == part,
    ensures
        holds_at(s, at + off, part),
{
    let whole = s.subrange(at, at + b.len());
    assert(s.subrange(at + off, at + off + part.len()) =~= whole.subrange(off, off + part.len()));
}

proof fn lemma_field16(s: Seq<u8>, at: int, b: Seq<u8>, off: int, v: u16)
    requires
        holds_at(s, at, b),
        0 <= off <= b.len() - 2,
        b.subrange(off, off + 2) == bytes::le16(v),
    ensures
        bytes::get16(s, at + off) == v,
{
    lemma_part(s, at, b, off, bytes::le16(v));
    bytes::lemma_get16(s, at + off, v);
}

proof fn lemma_field32(s: Seq<u8>, at: int, b: Seq<u8>, off: int, v: u32)
    requires
        holds_at(s, at, b),
        0 <= off <= b.len() - 4,
        b.subrange(off, off + 4) == bytes::le32(v),
    ensures
        bytes::get32(s, at + off) == v,
{
    lemma_part(s, at, b, off, bytes::le32(v));
    bytes::lemma_get32(s, at + off, v);
}

proof fn lemma_field64(s: Seq<u8>, at: int, b: Seq<u8>, off: int, v: u64)
    requires
        holds_at(s, at, b),
        0 <= off <= b.len() - 8,
        b.subrange(off, off + 8) == bytes::le64(v),
    ensures
        bytes::get64(s, at + off) == v,
{
    lemma_part(s, at, b, off, bytes::le64(v));
    bytes::lemma_get64(s, at + off, v);
}

/// A superblock is read back as it was written: without the checksum flag, and
/// with the low half of the block count.
#[verifier::spinoff_prover]
#[verifier::rlimit(40)]
pub proof fn law_superblock_read_back(
    s: Seq<u8>,
    at: int,
    feature_compat: u32,
    feature_incompat: u32,
    root_nid: u16,
    inos: u64,
    epoch: u64,
    blocks: u64,
    meta_blkaddr: u32,
    extra_devices: u16,
    devt_slotoff: u16,
    uuid: Seq<u8>,
)
    requires
        uuid.len() == 16,
        holds_at(
            s,
            at,
            ondisk::superblock(
                feature_compat,
                feature_incompat,
                root_nid,
                inos,
                epoch,
                blocks,
                meta_blkaddr,
                extra_devices,
                devt_slotoff,
                uuid,
            ),
        ),
    ensures
        superblock_at(s, at) == (ErofsSuperblock {
            magic: ondisk::EROFS_SUPER_MAGIC_V1,
            feature_compat: feature_compat & !ondisk::EROFS_FEATURE_COMPAT_SB_CHKSUM,
            blkszbits: ondisk::EROFS_BLKSZBITS,
            root_nid: root_nid as u64,
            inos,
            epoch,
            blocks: blocks % 0x1_0000_0000,
            meta_blkaddr,
            xattr_blkaddr: 0,
            feature_incompat,
            extra_devices,
            devt_slotoff,
        }),
{
    let b = ondisk::superblock(
        feature_compat,
        feature_incompat,
        root_nid,
        inos,
        epoch,
        blocks,
        meta_blkaddr,
        extra_devices,
        devt_slotoff,
        uuid,
    );
    let compat = feature_compat & !ondisk::EROFS_FEATURE_COMPAT_SB_CHKSUM;
    assert(b.subrange(0, 4) =~= bytes::le32(ondisk::EROFS_SUPER_MAGIC_V1));
    assert(b.subrange(8, 12) =~= bytes::le32(compat));
    assert(b.subrange(12, 13) =~= seq![ondisk::EROFS_BLKSZBITS]);
    assert(b.subrange(14, 16) =~= bytes::le16(root_nid));
    assert(b.subrange(16, 24) =~= bytes::le64(inos));
    assert(b.subrange(24, 32) =~= bytes::le64(epoch));
    assert(b.subrange(36, 40) =~= bytes::le32(bytes::low32(blocks)));
    assert(b.subrange(40, 44) =~= bytes::le32(meta_blkaddr));
    assert(b.subrange(44, 48) =~= bytes::le32(0));
    assert(b.subrange(80, 84) =~= bytes::le32(feature_incompat));
    assert(b.subrange(86, 88) =~= bytes::le16(extra_devices));
    assert(b.subrange(88, 90) =~= bytes::le16(devt_slotoff));
    lemma_field32(s, at, b, 0, ondisk::EROFS_SUPER_MAGIC_V1);
    lemma_field32(s, at, b, 8, compat);
    lemma_part(s, at, b, 12, seq![ondisk::EROFS_BLKSZBITS]);
    assert(s.subrange(at + 12, at + 13)[0] == s[at + 12]);
    lemma_field16(s, at, b, 14, root_nid);
    lemma_field64(s, at, b, 16, inos);
    lemma_field64(s, at, b, 24, epoch);
    lemma_field32(s, at, b, 36, bytes::low32(blocks));
    lemma_field32(s, at, b, 40, meta_blkaddr);
    lemma_field32(s, at, b, 44, 0);
    lemma_field32(s, at, b, 80, feature_incompat);
    lemma_field16(s, at, b, 86, extra_devices);
    lemma_field16(s, at, b, 88, devt_slotoff);
}

/// A chunk index is read back as it was written, if its address has 48 bits and
/// it is not the all-ones pattern of a hole; a hole is read back as a hole.
pub proof fn law_chunk_index_read_back(s: Seq<u8>, at: int, blkaddr: u64, device_id: u16)
    requires
        holds_at(s, at, ondisk::chunk_index(blkaddr, device_id)),
        blkaddr == EROFS_NULL_ADDR || blkaddr < 0x1_0000_0000_0000,
        !(blkaddr == 0xFFFF_FFFF_FFFF && device_id == 0xFFFF),
    ensures
        chunk_index_at(s, at).blkaddr == blkaddr,
        blkaddr != EROFS_NULL_ADDR ==> chunk_index_at(s, at).device_id == device_id,
{
    let b = ondisk::chunk_index(blkaddr, device_id);
    if blkaddr == EROFS_NULL_ADDR {
        assert(b.subrange(0, 2) =~= bytes::le16(0xFFFF));
        assert(b.subrange(2, 4) =~= bytes::le16(0xFFFF));
        assert(b.subrange(4, 8) =~= bytes::le32(0xFFFF_FFFF));
        lemma_field16(s, at, b, 0, 0xFFFF);
        lemma_field16(s, at, b, 2, 0xFFFF);
        lemma_field32(s, at, b, 4, 0xFFFF_FFFF);
    } else {
        assert(b.subrange(0, 2) =~= bytes::le16(ondisk::blkaddr_hi(blkaddr)));
        assert(b.subrange(2, 4) =~= bytes::le16(device_id));
        assert(b.subrange(4, 8) =~= bytes::le32(bytes::low32(blkaddr)));
        lemma_field16(s, at, b, 0, ondisk::blkaddr_hi(blkaddr));
        lemma_field16(s, at, b, 2, device_id);
        lemma_field32(s, at, b, 4, bytes::low32(blkaddr));
    }
}

/// A directory entry is read back as it was written.
pub proof fn law_dirent_read_back(s: Seq<u8>, at: int, nid: u64, nameoff: u16, file_type: u8)
    requires
        holds_at(s, at, ondisk::dirent(nid, nameoff, file_type)),
    ensures
        dirent_at(s, at) == (ErofsDirent { nid, nameoff, file_type }),
{
    let b = ondisk::dirent(nid, nameoff, file_type);
    assert(b.subrange(0, 8) =~= bytes::le64(nid));
    assert(b.subrange(8, 10) =~= bytes::le16(nameoff));
    assert(b.subrange(10, 11) =~= seq![file_type]);
    lemma_field64(s, at, b, 0, nid);
    lemma_field16(s, at, b, 8, nameoff);
    lemma_part(s, at, b, 10, seq![file_type]);
    assert(s.subrange(at + 10, at + 11)[0] == s[at + 10]);
}

/// The fields of a serialized inode, as its header stores them.
pub open spec fn stored_inode(m: inode::InodeModel, epoch: u64, chunkbits: u32) -> ErofsInode {
    if m.is_extended {
        ErofsInode {
            format: ondisk::extended_format(m.datalayout()),
            xattr_icount: 0,
            mode: m.mode,
            nb: m.i_nb(),
            size: m.i_size(),
            u: m.i_u(chunkbits),
            ino: m.ino,
            uid: m.uid,
            gid: m.gid,
            raw_mtime: m.mtime,
            mtime_nsec: m.mtime_nsec,
            nlink: m.nlink,
        }
    } else {
        ErofsInode {
            format: ondisk::compact_format(m.datalayout(), !(m.data is Directory)),
            xattr_icount: 0,
            mode: m.mode,
            nb: m.i_nb(),
            size: m.i_size() % 0x1_0000_0000,
            u: m.i_u(chunkbits),
            ino: m.ino,
            uid: m.uid % 0x1_0000,
            gid: m.gid % 0x1_0000,
            raw_mtime: inode::mtime_delta(m.mtime, epoch) as u64,
            mtime_nsec: 0,
            nlink: if m.data is Directory {
                m.i_nb() as u32
            } else {
                1
            },
        }
    }
}

proof fn lemma_compact_read_back(
    s: Seq<u8>,
    at: int,
    i_format: u16,
    i_mode: u16,
    i_nb: u16,
    i_size: u32,
    i_mtime: u32,
    i_u: u32,
    i_ino: u32,
    i_uid: u16,
    i_gid: u16,
)
    requires
        holds_at(
            s,
            at,
            ondisk::compact_inode(i_format, i_mode, i_nb, i_size, i_mtime, i_u, i_ino, i_uid, i_gid),
        ),
        !is_extended_format(i_format),
    ensures
        inode_at(s, at) == (ErofsInode {
            format: i_format,
            xattr_icount: 0,
            mode: i_mode,
            nb: i_nb,
            size: i_size as u64,
            u: i_u,
            ino: i_ino,
            uid: i_uid as u32,
            gid: i_gid as u32,
            raw_mtime: i_mtime as u64,
            mtime_nsec: 0,
            nlink: if i_format / 16 % 2 == 1 {
                1
            } else {
                i_nb as u32
            },
        }),
{
    let b = ondisk::compact_inode(i_format, i_mode, i_nb, i_size, i_mtime, i_u, i_ino, i_uid, i_gid);
    assert(b.subrange(0, 2) =~= bytes::le16(i_format));
    assert(b.subrange(2, 4) =~= bytes::le16(0));
    assert(b.subrange(4, 6) =~= bytes::le16(i_mode));
    assert(b.subrange(6, 8) =~= bytes::le16(i_nb));
    assert(b.subrange(8, 12) =~= bytes::le32(i_size));
    assert(b.subrange(12, 16) =~= bytes::le32(i_mtime));
    assert(b.subrange(16, 20) =~= bytes::le32(i_u));
    assert(b.subrange(20, 24) =~= bytes::le32(i_ino));
    assert(b.subrange(24, 26) =~= bytes::le16(i_uid));
    assert(b.subrange(26, 28) =~= bytes::le16(i_gid));
    lemma_field16(s, at, b, 0, i_format);
    lemma_field16(s, at, b, 2, 0);
    lemma_field16(s, at, b, 4, i_mode);
    lemma_field16(s, at, b, 6, i_nb);
    lemma_field32(s, at, b, 8, i_size);
    lemma_field32(s, at, b, 12, i_mtime);
    lemma_field32(s, at, b, 16, i_u);
    lemma_field32(s, at, b, 20, i_ino);
    lemma_field16(s, at, b, 24, i_uid);
    lemma_field16(s, at, b, 26, i_gid);
}

proof fn lemma_extended_read_back(
    s: Seq<u8>,
    at: int,
    i_format: u16,
    i_mode: u16,
    i_nb: u16,
    i_size: u64,
    i_u: u32,
    i_ino: u32,
    i_uid: u32,
    i_gid: u32,
    i_mtime: u64,
    i_mtime_nsec: u32,
    i_nlink: u32,
)
    requires
        holds_at(
            s,
            at,
            ondisk::extended_inode(
                i_format,
                i_mode,
                i_nb,
                i_size,
                i_u,
                i_ino,
                i_uid,
                i_gid,
                i_mtime,
                i_mtime_nsec,
                i_nlink,
            ),
        ),
        is_extended_format(i_format),
    ensures
        inode_at(s, at) == (ErofsInode {
            format: i_format,
            xattr_icount: 0,
            mode: i_mode,
            nb: i_nb,
            size: i_size,
            u: i_u,
            ino: i_ino,
            uid: i_uid,
            gid: i_gid,
            raw_mtime: i_mtime,
            mtime_nsec: i_mtime_nsec,
            nlink: i_nlink,
        }),
{
    let b = ondisk::extended_inode(
        i_format,
        i_mode,
        i_nb,
        i_size,
        i_u,
        i_ino,
        i_uid,
        i_gid,
        i_mtime,
        i_mtime_nsec,
        i_nlink,
    );
    assert(b.subrange(0, 2) =~= bytes::le16(i_format));
    assert(b.subrange(2, 4) =~= bytes::le16(0));
    assert(b.subrange(4, 6) =~= bytes::le16(i_mode));
    assert(b.subrange(6, 8) =~= bytes::le16(i_nb));
    assert(b.subrange(8, 16) =~= bytes::le64(i_size));
    assert(b.subrange(16, 20) =~= bytes::le32(i_u));
    assert(b.subrange(20, 24) =~= bytes::le32(i_ino));
    assert(b.subrange(24, 28) =~= bytes::le32(i_uid));
    assert(b.subrange(28, 32) =~= bytes::le32(i_gid));
    assert(b.subrange(32, 40) =~= bytes::le64(i_mtime));
    assert(b.subrange(40, 44) =~= bytes::le32(i_mtime_nsec));
    assert(b.subrange(44, 48) =~= bytes::le32(i_nlink));
    lemma_field16(s, at, b, 0, i_format);
    lemma_field16(s, at, b, 2, 0);
    lemma_field16(s, at, b, 4, i_mode);
    lemma_field16(s, at, b, 6, i_nb);
    lemma_field64(s, at, b, 8, i_size);
    lemma_field32(s, at, b, 16, i_u);
    lemma_field32(s, at, b, 20, i_ino);
    lemma_field32(s, at, b, 24, i_uid);
    lemma_field32(s, at, b, 28, i_gid);
    lemma_field64(s, at, b, 32, i_mtime);
    lemma_field32(s, at, b, 40, i_mtime_nsec);
    lemma_field32(s, at, b, 44, i_nlink);
}

/// A serialized inode is read back with the fields that its header stores, and
/// what stands behind the header is where `header_size` says.
pub proof fn law_inode_read_back(
    s: Seq<u8>,
    at: int,
    m: inode::InodeModel,
    epoch: u64,
    chunkbits: u32,
)
    requires
        holds_at(s, at, m.to_bytes(epoch, chunkbits)),
    ensures
        inode_at(s, at) == stored_inode(m, epoch, chunkbits),
        inode_at(s, at).spec_data_layout() == m.datalayout(),
        inode_at(s, at).spec_header_size() == m.base_size(),
        inode_at(s, at).spec_xattr_size() == 0,
        holds_at(s, at + m.base_size(), m.tail()),
{
    let all = m.to_bytes(epoch, chunkbits);
    let head = m.header(epoch, chunkbits);
    ondisk::law_i_format_fields(m.datalayout(), !(m.data is Directory));
    assert(head.len() == m.base_size());
    assert(all.subrange(0, head.len() as int) =~= head);
    lemma_part(s, at, all, 0, head);
    assert(all.subrange(m.base_size(), m.base_size() + m.tail().len()) =~= m.tail());
    lemma_part(s, at, all, m.base_size(), m.tail());
    if m.is_extended {
        lemma_extended_read_back(
            s,
            at,
            ondisk::extended_format(m.datalayout()),
            m.mode,
            m.i_nb(),
            m.i_size(),
            m.i_u(chunkbits),
            m.ino,
            m.uid,
            m.gid,
            m.mtime,
            m.mtime_nsec,
            m.nlink,
        );
    } else {
        lemma_compact_read_back(
            s,
            at,
            ondisk::compact_format(m.datalayout(), !(m.data is Directory)),
            m.mode,
            m.i_nb(),
            bytes::low32(m.i_size()),
            inode::mtime_delta(m.mtime, epoch),
            m.i_u(chunkbits),
            m.ino,
            (m.uid % 0x1_0000) as u16,
            (m.gid % 0x1_0000) as u16,
        );
    }
}

/// `s` holds a serialized inode at offset `at`.
#[verifier::opaque]
pub open spec fn holds_inode(
    s: Seq<u8>,
    at: int,
    m: inode::InodeModel,
    epoch: u64,
    chunkbits: u32,
) -> bool {
    holds_at(s, at, m.to_bytes(epoch, chunkbits))
}

/// What `law_inode_read_back` gives of a stored inode.
pub proof fn lemma_holds_inode(
    s: Seq<u8>,
    at: int,
    m: inode::InodeModel,
    epoch: u64,
    chunkbits: u32,
)
    requires
        holds_inode(s, at, m, epoch, chunkbits),
    ensures
        0 <= at <= s.len() - m.base_size(),
        inode_at(s, at) == stored_inode(m, epoch, chunkbits),
        inode_at(s, at).spec_data_layout() == m.datalayout(),
        inode_at(s, at).spec_header_size() == m.base_size(),
        inode_at(s, at).spec_xattr_size() == 0,
        holds_at(s, at + m.base_size(), m.tail()),
{
    reveal(holds_inode);
    law_inode_read_back(s, at, m, epoch, chunkbits);
}

/// An inode that needs no field cut off keeps all its attributes. In the compact
/// format that asks for 32 bits of size, 16 bits of owner and group, and a time
/// within 32 bits after the epoch, to the second; and the link count of a
/// directory is not kept.
pub proof fn law_attributes_kept(m: inode::InodeModel, epoch: u64, chunkbits: u32)
    requires
        m.is_extended || {
            &&& m.size < 0x1_0000_0000
            &&& m.uid < 0x1_0000
            &&& m.gid < 0x1_0000
            &&& m.nlink == 1
            &&& m.mtime_nsec == 0
            &&& epoch <= m.mtime < epoch + 0x1_0000_0000
            &&& !(m.data is Directory)
        },
    ensures
        ({
            let r = stored_inode(m, epoch, chunkbits);
            &&& r.mode == m.mode
            &&& r.size == m.i_size()
            &&& r.uid == m.uid
            &&& r.gid == m.gid
            &&& r.ino == m.ino
            &&& r.nlink == m.nlink
            &&& r.spec_mtime(epoch) == m.mtime
            &&& r.mtime_nsec == m.mtime_nsec
        }),
{
    ondisk::law_i_format_fields(m.datalayout(), !(m.data is Directory));
}

/// A directory's start block is kept, if it has 48 bits; a device number always.
pub proof fn law_start_block_kept(m: inode::InodeModel, epoch: u64, chunkbits: u32)
    ensures
        m.data matches inode::DataModel::Directory { startblk, .. } ==> startblk
            < 0x1_0000_0000_0000 ==> stored_inode(m, epoch, chunkbits).spec_startblk() == startblk,
        m.data matches inode::DataModel::SpecialDev { rdev } ==> stored_inode(m, epoch, chunkbits).u
            == rdev,
{
}

} // verus!
