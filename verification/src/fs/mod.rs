//! Reading an EROFS image.
pub mod data;
pub mod fuse;
pub mod meta;
pub mod xattr;

use crate::metadata;
use crate::metadata::ErofsSuperblock;
use crate::ondisk::{
    EROFS_BLOCK_SIZE, EROFS_SB_BASE_SIZE, EROFS_SLOTSIZE, EROFS_SUPER_MAGIC_V1, EROFS_SUPER_OFFSET,
};
use vstd::prelude::*;

verus! {

/// A directory entry with its name as text.
pub struct DirEntry {
    pub nid: u64,
    pub file_type: u8,
    pub name: String,
}

/// Why an image cannot be read.
#[derive(Clone, Copy, PartialEq, Eq, Structural, Debug)]
pub enum ReadError {
    /// The image ends before the superblock does.
    ImageTooSmall,
    BadMagic { magic: u32 },
    /// Offset and length do not fit into an address.
    OffsetOverflow,
    /// A read beyond the end of the image.
    OutOfBounds { offset: usize, len: usize, image_len: usize },
    /// The inode of this NID cannot have an address.
    BadNid { nid: u64 },
    NotChunkBased,
    UnsupportedLayout { layout: u16 },
    CorruptDirectory,
    CorruptXattrs,
    /// The data is on the blob device, and there is none.
    BlobMissing,
    /// A read beyond the end of the blob device.
    BlobEof,
}

/// An EROFS image: its bytes, and where the superblock is.
#[derive(Clone, Copy)]
pub struct ErofsReader<'a> {
    pub image: &'a [u8],
    pub sb_offset: usize,
}

/// Reading `len` bytes at `offset` of `image`.
pub open spec fn image_slice(image: Seq<u8>, offset: int, len: int) -> Result<Seq<u8>, ReadError> {
    if offset + len > usize::MAX {
        Err(ReadError::OffsetOverflow)
    } else if offset + len > image.len() {
        Err(
            ReadError::OutOfBounds {
                offset: offset as usize,
                len: len as usize,
                image_len: image.len() as usize,
            },
        )
    } else {
        Ok(image.subrange(offset, offset + len))
    }
}

impl<'a> ErofsReader<'a> {
    /// The image holds a superblock.
    pub open spec fn wf(self) -> bool {
        self.sb_offset + EROFS_SB_BASE_SIZE <= self.image@.len()
    }

    pub open spec fn spec_sb(self) -> ErofsSuperblock {
        metadata::superblock_at(self.image@, self.sb_offset as int)
    }

    /// Offset of the inode `nid`: the metadata area, in slots.
    pub open spec fn inode_offset(self, nid: u64) -> int {
        self.spec_sb().meta_blkaddr * 4096 + nid * 32
    }

    /// The inode `nid` has an address.
    pub open spec fn nid_fits(self, nid: u64) -> bool {
        self.inode_offset(nid) <= u64::MAX && self.inode_offset(nid) <= usize::MAX
    }

    /// Take an image, if it starts with an EROFS superblock.
    pub fn open(image: &'a [u8]) -> (r: Result<ErofsReader<'a>, ReadError>)
        ensures
            r matches Ok(reader) ==> reader.wf() && reader.image@ == image@ && reader.sb_offset
                == EROFS_SUPER_OFFSET,
            match r {
                Ok(_) => image@.len() >= 1152 && metadata::superblock_at(image@, 1024).magic
                    == EROFS_SUPER_MAGIC_V1,
                Err(ReadError::ImageTooSmall) => image@.len() < 1152,
                Err(ReadError::BadMagic { magic }) => image@.len() >= 1152 && magic
                    == metadata::superblock_at(image@, 1024).magic && magic
                    != EROFS_SUPER_MAGIC_V1,
                Err(_) => false,
            },
    {
        let sb_offset: usize = EROFS_SUPER_OFFSET as usize;
        match Self::superblock_from(image, sb_offset) {
            Ok(sb) => {
                if sb.magic != EROFS_SUPER_MAGIC_V1 {
                    Err(ReadError::BadMagic { magic: sb.magic })
                } else {
                    Ok(ErofsReader { image, sb_offset })
                }
            },
            Err(e) => Err(e),
        }
    }

    /// Read the superblock at `sb_offset`.
    pub fn superblock_from(image: &[u8], sb_offset: usize) -> (r: Result<
        ErofsSuperblock,
        ReadError,
    >)
        requires
            sb_offset + EROFS_SB_BASE_SIZE <= usize::MAX,
        ensures
            match r {
                Ok(sb) => sb_offset + EROFS_SB_BASE_SIZE <= image@.len() && sb
                    == metadata::superblock_at(image@, sb_offset as int),
                Err(e) => e == ReadError::ImageTooSmall && image@.len() < sb_offset
                    + EROFS_SB_BASE_SIZE,
            },
    {
        let end: usize = sb_offset + EROFS_SB_BASE_SIZE;
        if image.len() < end {
            return Err(ReadError::ImageTooSmall);
        }
        Ok(ErofsSuperblock::parse(image, sb_offset))
    }

    /// The superblock.
    pub fn sb(&self) -> (r: ErofsSuperblock)
        requires
            self.wf(),
        ensures
            r == self.spec_sb(),
    {
        ErofsSuperblock::parse(self.image, self.sb_offset)
    }

    /// `len` bytes of the image at `offset`.
    pub fn mmap_slice(&self, offset: usize, len: usize) -> (r: Result<&'a [u8], ReadError>)
        ensures
            match r {
                Ok(s) => image_slice(self.image@, offset as int, len as int)
                    == Ok::<Seq<u8>, ReadError>(s@),
                Err(e) => image_slice(self.image@, offset as int, len as int)
                    == Err::<Seq<u8>, ReadError>(e),
            },
    {
        match offset.checked_add(len) {
            None => Err(ReadError::OffsetOverflow),
            Some(end) => {
                if end > self.image.len() {
                    Err(ReadError::OutOfBounds { offset, len, image_len: self.image.len() })
                } else {
                    Ok(vstd::slice::slice_subrange(self.image, offset, end))
                }
            },
        }
    }

    /// Offset of the inode `nid`.
    pub fn nid_to_offset(&self, nid: u64) -> (r: usize)
        requires
            self.wf(),
            self.nid_fits(nid),
        ensures
            r == self.inode_offset(nid),
    {
        (self.sb().meta_blkaddr as u64 * EROFS_BLOCK_SIZE as u64 + nid * EROFS_SLOTSIZE as u64)
            as usize
    }

    /// The inode `nid` has an address.
    pub fn has_address(&self, nid: u64) -> (r: bool)
        requires
            self.wf(),
        ensures
            r == self.nid_fits(nid),
    {
        let base: u64 = self.sb().meta_blkaddr as u64 * EROFS_BLOCK_SIZE as u64;
        if nid > (u64::MAX - base) / 32 {
            return false;
        }
        base + nid * 32 <= usize::MAX as u64
    }
}

} // verus!
