//! What the reading operations give, stated of their arguments and results.
use crate::blobchunk;
use crate::blobchunk::ChunkIndex;
use crate::bytes;
use crate::fs::data;
use crate::fs::data::{ChunkReader, FileRead, PreadCall, PreadFault, PreadLoop, ReadStep};
use crate::fs::meta;
use crate::fs::meta::CachedDirEntry;
use crate::fs::xattr::Xattr;
use crate::fs::{ErofsReader, ReadError};
use crate::inode;
use crate::laws::read;
use crate::laws::records;
use crate::metadata;
use crate::metadata::{ErofsDirent, ErofsInode, ErofsSuperblock};
use vstd::prelude::*;

verus! {

// ---------------------------------------------------------------------------
// Reading
// ---------------------------------------------------------------------------

/// An image is taken exactly if it has room for a superblock at byte 1024 and
/// the magic number stands there.
pub proof fn law_image_is_taken(image: &[u8], r: Result<ErofsReader, ReadError>)
    requires
        call_ensures(ErofsReader::open, (image,), r),
    ensures
        image@.len() < 1152 <==> r == Err::<ErofsReader, ReadError>(ReadError::ImageTooSmall),
        image@.len() >= 1152 ==> (r is Ok <==> image@.subrange(1024, 1028) == seq![
            0xE2u8,
            0xE1,
            0xF5,
            0xE0,
        ]),
        r matches Ok(reader) ==> reader.image@ == image@ && reader.sb_offset == 1024 && reader.wf(),
        image@.len() >= 1152 && r is Err ==> r == Err::<ErofsReader, ReadError>(
            ReadError::BadMagic { magic: bytes::get32(image@, 1024) },
        ),
{
    if image@.len() >= 1152 {
        records::law_digits_are_read(image@, 1024);
        let magic = image@.subrange(1024, 1028);
        if magic == seq![0xE2u8, 0xE1, 0xF5, 0xE0] {
            assert(magic[0] == 0xE2 && magic[1] == 0xE1 && magic[2] == 0xF5 && magic[3] == 0xE0);
        }
        if r is Ok {
            assert(magic =~= seq![0xE2u8, 0xE1, 0xF5, 0xE0]);
        }
    }
}

/// The superblock is read where the image has it, and there is one if it stands
/// in the image.
pub proof fn law_superblock_of_the_image(
    reader: ErofsReader,
    sb: ErofsSuperblock,
    image: &[u8],
    at: usize,
    r: Result<ErofsSuperblock, ReadError>,
)
    requires
        call_ensures(ErofsReader::sb, (&reader,), sb),
        call_ensures(ErofsReader::superblock_from, (image, at), r),
    ensures
        sb == metadata::superblock_at(reader.image@, reader.sb_offset as int),
        sb == reader.spec_sb(),
        at + 128 <= image@.len() ==> r == Ok::<ErofsSuperblock, ReadError>(
            metadata::superblock_at(image@, at as int),
        ),
        at + 128 > image@.len() ==> r == Err::<ErofsSuperblock, ReadError>(
            ReadError::ImageTooSmall,
        ),
{
}

/// A directory block gives its entries, each with the number, the type and the
/// name that stand in it, or fails if they do not stand in it.
pub proof fn law_parsed_directory_block(
    block: &[u8],
    r: Result<Vec<CachedDirEntry>, ReadError>,
    i: int,
)
    requires
        call_ensures(meta::parse_dir_block, (block,), r),
    ensures
        r is Err ==> !meta::block_valid(block@) && r->Err_0 == ReadError::CorruptDirectory,
        r matches Ok(v) ==> {
            let n = read::name_offset(block@, 0) / 12;
            let start = read::name_offset(block@, i);
            let name = v@[i].name@;
            &&& meta::block_valid(block@)
            &&& v@.len() == n
            &&& 0 <= i < n ==> {
                &&& v@[i].nid == bytes::get64(block@, 12 * i)
                &&& v@[i].file_type == block@[12 * i + 10]
                &&& start + name.len() <= block@.len()
                &&& name == block@.subrange(start, start + name.len())
                &&& i + 1 < n ==> start + name.len() == read::name_offset(block@, i + 1)
                &&& i + 1 == n ==> {
                    &&& start + name.len() == block@.len() || block@[start + name.len()] == 0
                    &&& forall|k: int| 0 <= k < name.len() ==> #[trigger] name[k] != 0
                }
            }
        },
{
    if let Ok(v) = r {
        read::law_directory_block_is_valid(block@);
        read::law_directory_block_entries(block@, 0);
        if 0 <= i < read::name_offset(block@, 0) / 12 {
            read::law_directory_block_entries(block@, i);
            assert(meta::cached_view(v@)[i] == v@[i]@);
        }
    }
}

/// Finding an entry gives the first one with exactly the name, and nothing if
/// there is none.
pub proof fn law_found_entry(entries: Vec<CachedDirEntry>, name: &[u8], r: Option<u64>)
    requires
        call_ensures(meta::find_entry, (&entries, name), r),
    ensures
        match r {
            Some(nid) => exists|i: int|
                0 <= i < entries@.len() && (#[trigger] entries@[i]).name@ == name@
                    && entries@[i].nid == nid && forall|j: int|
                    0 <= j < i ==> (#[trigger] entries@[j]).name@ != name@,
            None => forall|i: int|
                0 <= i < entries@.len() ==> (#[trigger] entries@[i]).name@ != name@,
        },
{
    let all = meta::cached_view(entries@);
    assert(forall|i: int|
        0 <= i < entries@.len() ==> #[trigger] all[i] == entries@[i]@);
    read::law_lookup_is_exact(all, name@);
    if let Some(nid) = r {
        let i = choose|i: int|
            0 <= i < all.len() && (#[trigger] all[i]).name == name@ && all[i].nid == nid
                && forall|j: int| 0 <= j < i ==> (#[trigger] all[j]).name != name@;
        assert(entries@[i].name@ == name@ && entries@[i].nid == nid);
        assert forall|j: int| 0 <= j < i implies (#[trigger] entries@[j]).name@ != name@ by {
            assert(all[j].name != name@);
        }
    } else {
        assert forall|i: int| 0 <= i < entries@.len() implies (#[trigger] entries@[i]).name@
            != name@ by {
            assert(all[i].name != name@);
        }
    }
}

/// Two names are the same exactly if they have the same bytes.
pub proof fn law_same_name(a: &[u8], b: &[u8], r: bool)
    requires
        call_ensures(meta::same_name, (a, b), r),
    ensures
        r <==> a@.len() == b@.len() && forall|i: int|
            0 <= i < a@.len() ==> #[trigger] a@[i] == b@[i],
{
    if a@.len() == b@.len() && forall|i: int| 0 <= i < a@.len() ==> #[trigger] a@[i] == b@[i] {
        assert(a@ =~= b@);
    }
}

/// A slice of the image is its bytes from the offset on, as many as were asked
/// for, and there is one exactly if they all stand in the image.
pub proof fn law_bytes_of_the_image(
    reader: ErofsReader,
    offset: usize,
    len: usize,
    r: Result<&[u8], ReadError>,
)
    requires
        call_ensures(ErofsReader::mmap_slice, (&reader, offset, len), r),
        reader.image@.len() <= usize::MAX,
    ensures
        r is Ok <==> offset + len <= reader.image@.len(),
        r matches Ok(s) ==> s@ == reader.image@.subrange(offset as int, offset + len),
{
    read::law_image_slice(reader.image@, offset as int, len as int, 0);
}

/// Inodes are numbered in slots of 32 bytes from the metadata block on.
pub proof fn law_address_of_an_inode(reader: ErofsReader, nid: u64, has: bool, at: usize)
    requires
        call_ensures(ErofsReader::has_address, (&reader, nid), has),
        call_ensures(ErofsReader::nid_to_offset, (&reader, nid), at),
    ensures
        at == reader.spec_sb().meta_blkaddr * 4096 + nid * 32,
        has <==> reader.spec_sb().meta_blkaddr * 4096 + nid * 32 <= usize::MAX && reader.spec_sb()
            .meta_blkaddr * 4096 + nid * 32 <= u64::MAX,
{
}

/// An inode is read where its number says, and can be read exactly if its
/// header stands in the image: 64 bytes if the first one is odd, or else 32.
pub proof fn law_inode_of_the_image(
    reader: ErofsReader,
    nid: u64,
    r: Result<ErofsInode, ReadError>,
)
    requires
        call_ensures(ErofsReader::inode, (&reader, nid), r),
        reader.image@.len() <= usize::MAX,
    ensures
        ({
            let at = reader.spec_sb().meta_blkaddr * 4096 + nid * 32;
            let fits = at + 32 <= reader.image@.len() && (reader.image@[at] % 2 == 1 ==> at + 64
                <= reader.image@.len());
            &&& r is Ok <==> at <= u64::MAX && fits
            &&& r matches Ok(n) ==> n == metadata::inode_at(reader.image@, at)
        }),
{
    read::law_inode_is_read(reader, nid);
}

/// A superblock is read from its fields.
pub proof fn law_parsed_superblock(
    s: &[u8],
    at: usize,
    sb: ErofsSuperblock,
    r: ErofsSuperblock,
)
    requires
        call_ensures(ErofsSuperblock::parse, (s, at), r),
        at + 128 <= s@.len(),
        s@.subrange(at as int, at + 4) == bytes::le32(sb.magic),
        s@.subrange(at + 8, at + 12) == bytes::le32(sb.feature_compat),
        s@[at + 12] == sb.blkszbits,
        sb.root_nid < 0x1_0000,
        s@.subrange(at + 14, at + 16) == bytes::le16(sb.root_nid as u16),
        s@.subrange(at + 16, at + 24) == bytes::le64(sb.inos),
        s@.subrange(at + 24, at + 32) == bytes::le64(sb.epoch),
        sb.blocks < 0x1_0000_0000,
        s@.subrange(at + 36, at + 40) == bytes::le32(sb.blocks as u32),
        s@.subrange(at + 40, at + 44) == bytes::le32(sb.meta_blkaddr),
        s@.subrange(at + 44, at + 48) == bytes::le32(sb.xattr_blkaddr),
        s@.subrange(at + 80, at + 84) == bytes::le32(sb.feature_incompat),
        s@.subrange(at + 86, at + 88) == bytes::le16(sb.extra_devices),
        s@.subrange(at + 88, at + 90) == bytes::le16(sb.devt_slotoff),
    ensures
        r == sb,
{
    records::law_superblock_reads_fields(s@, at as int, sb);
}

/// An inode is read from its fields, of which the extended format has more and
/// wider ones.
pub proof fn law_parsed_inode(s: &[u8], at: usize, r: ErofsInode)
    requires
        call_ensures(ErofsInode::parse, (s, at), r),
    ensures
        r.format == bytes::get16(s@, at as int),
        r.xattr_icount == bytes::get16(s@, at + 2),
        r.mode == bytes::get16(s@, at + 4),
        r.nb == bytes::get16(s@, at + 6),
        r.u == bytes::get32(s@, at + 16),
        r.ino == bytes::get32(s@, at + 20),
        r.format % 2 == 1 ==> {
            &&& r.size == bytes::get64(s@, at + 8)
            &&& r.uid == bytes::get32(s@, at + 24)
            &&& r.gid == bytes::get32(s@, at + 28)
            &&& r.raw_mtime == bytes::get64(s@, at + 32)
            &&& r.mtime_nsec == bytes::get32(s@, at + 40)
            &&& r.nlink == bytes::get32(s@, at + 44)
        },
        r.format % 2 == 0 ==> {
            &&& r.size == bytes::get32(s@, at + 8)
            &&& r.uid == bytes::get16(s@, at + 24)
            &&& r.gid == bytes::get16(s@, at + 26)
            &&& r.raw_mtime == bytes::get32(s@, at + 12)
            &&& r.mtime_nsec == 0
            &&& r.format % 32 >= 16 ==> r.nlink == 1
            &&& r.format % 32 < 16 ==> r.nlink == r.nb
        },
{
}

/// A directory entry and a chunk index are read from their fields; eight bytes of
/// ones are a hole.
pub proof fn law_parsed_small_records(
    s: &[u8],
    at: usize,
    entry: ErofsDirent,
    index: ChunkIndex,
)
    requires
        call_ensures(ErofsDirent::parse, (s, at), entry),
        call_ensures(metadata::parse_chunk_index, (s, at), index),
    ensures
        entry.nid == bytes::get64(s@, at as int),
        entry.nameoff == s@[at + 8] + 256 * s@[at + 9],
        entry.file_type == s@[at + 10],
        index.device_id == s@[at + 2] + 256 * s@[at + 3],
        ({
            let hole = forall|i: int| at <= i < at + 8 ==> #[trigger] s@[i] == 0xFF;
            &&& hole ==> index.blkaddr == 0xFFFF_FFFF_FFFF_FFFF
            &&& !hole ==> index.blkaddr == bytes::get32(s@, at + 4) + 0x1_0000_0000 * (s@[at as int]
                + 256 * s@[at + 1])
        }),
{
    records::law_digits_are_read(s@, at as int);
    records::law_digits_are_read(s@, at + 4);
    if !(forall|i: int| at <= i < at + 8 ==> #[trigger] s@[i] == 0xFF) {
        let i = choose|i: int| at <= i < at + 8 && #[trigger] s@[i] != 0xFF;
        assert(i == at || i == at + 1 || i == at + 2 || i == at + 3 || i == at + 4 || i == at + 5
            || i == at + 6 || i == at + 7);
    }
}

/// What the fields of an inode say.
pub proof fn law_fields_of_an_inode(
    n: ErofsInode,
    epoch: u64,
    layout: u16,
    header: usize,
    xattrs: usize,
    format: u16,
    startblk: u64,
    mtime: u64,
)
    requires
        call_ensures(ErofsInode::data_layout, (&n,), layout),
        call_ensures(ErofsInode::header_size, (&n,), header),
        call_ensures(ErofsInode::xattr_size, (&n,), xattrs),
        call_ensures(ErofsInode::chunk_format, (&n,), format),
        call_ensures(ErofsInode::startblk, (&n,), startblk),
        call_ensures(ErofsInode::mtime, (&n, epoch), mtime),
    ensures
        layout < 8,
        n.format % 16 == n.format % 2 + 2 * layout,
        header == 32 + 32 * (n.format % 2),
        n.xattr_icount == 0 ==> xattrs == 0,
        n.xattr_icount > 0 ==> xattrs == 8 + 4 * n.xattr_icount,
        format == n.u % 0x1_0000,
        startblk == n.nb * 0x1_0000_0000 + n.u,
        n.format % 2 == 1 ==> mtime == n.raw_mtime,
        n.format % 2 == 0 && epoch + n.raw_mtime <= u64::MAX ==> mtime == epoch + n.raw_mtime,
{
    records::law_inode_accessors(n, epoch);
}

/// As many bytes of flat data are read as were asked for: those at their position
/// behind the start block; but what an inline inode has from `split`, the start of
/// its last block, on, is behind its header and its extended attributes. They can
/// be read exactly if they all stand in the image.
pub proof fn law_flat_read(
    reader: ErofsReader,
    nid: u64,
    inode: ErofsInode,
    offset: u64,
    len: usize,
    split: int,
    k: int,
    r: Result<Vec<u8>, ReadError>,
)
    requires
        call_ensures(ErofsReader::read_flat_data_vec, (&reader, nid, &inode, offset, len), r),
        reader.image@.len() <= usize::MAX,
        offset + len <= inode.size,
        inode.format / 2 % 8 == 2 ==> split % 4096 == 0 && split <= inode.size <= split + 4096 && (
        inode.size > 0 ==> split < inode.size) && split >= 0,
        inode.format / 2 % 8 != 2 ==> split == inode.size,
    ensures
        ({
            let blocks = (inode.nb * 0x1_0000_0000 + inode.u) * 4096;
            let tail = reader.spec_sb().meta_blkaddr * 4096 + nid * 32 + inode.spec_header_size()
                + inode.spec_xattr_size();
            &&& r matches Ok(v) ==> v@.len() == len && (0 <= k < len ==> v@[k] == (if offset + k
                < split {
                reader.image@[blocks + offset + k]
            } else {
                reader.image@[tail + (offset + k - split)]
            }))
            &&& len > 0 ==> (r is Ok <==> (offset < split ==> blocks + (if offset + len <= split {
                offset + len
            } else {
                split
            }) <= reader.image@.len()) && (offset + len > split ==> tail + (offset + len - split)
                <= reader.image@.len()))
        }),
{
    read::law_flat_bytes(reader, nid, inode, offset as int, len as int, split, k);
}

/// The target of a symbolic link is all of its flat data.
pub proof fn law_link_target(
    reader: ErofsReader,
    nid: u64,
    inode: ErofsInode,
    r: Result<Vec<u8>, ReadError>,
)
    requires
        call_ensures(ErofsReader::read_symlink, (&reader, nid, &inode), r),
        reader.image@.len() <= usize::MAX,
    ensures
        r matches Ok(v) ==> reader.flat_data(nid, inode, 0, inode.size as int) == Ok::<
            Seq<u8>,
            ReadError,
        >(v@) && v@.len() == inode.size,
        inode.size <= usize::MAX ==> (r is Ok <==> reader.flat_data(
            nid,
            inode,
            0,
            inode.size as int,
        ) is Ok),
{
    read::law_symlink_target_is_its_data(reader, nid, inode);
    if r is Ok {
        let split = ErofsReader::inline_start(inode);
        assert(inode.format / 2 % 8 == 2 && inode.size > 0 ==> split == (inode.size - 1) / 4096
            * 4096);
        read::law_flat_bytes(reader, nid, inode, 0, inode.size as int, split, 0);
    }
}

/// Listing a directory gives the entries of every block, up to the last byte of
/// the directory.
pub proof fn law_listed_directory(
    reader: ErofsReader,
    nid: u64,
    inode: ErofsInode,
    v: Vec<CachedDirEntry>,
    p: int,
) -> (at: int)
    requires
        call_ensures(
            ErofsReader::read_dir_cached,
            (&reader, nid, &inode),
            Ok::<Vec<CachedDirEntry>, ReadError>(v),
        ),
        0 <= p < inode.size,
    ensures
        reader.dir_block(nid, inode, p / 4096) is Ok,
        ({
            let block = reader.dir_block(nid, inode, p / 4096)->Ok_0;
            &&& 0 <= at <= v@.len() - block.len()
            &&& forall|j: int|
                0 <= j < block.len() ==> {
                    &&& v@[at + j].nid == (#[trigger] block[j]).nid
                    &&& v@[at + j].file_type == block[j].file_type
                    &&& v@[at + j].name@ == block[j].name
                }
        }),
{
    let at = read::law_listing_has_every_block(reader, nid, inode, p);
    let all = meta::cached_view(v@);
    let block = reader.dir_block(nid, inode, p / 4096)->Ok_0;
    assert forall|j: int| 0 <= j < block.len() implies {
        &&& v@[at + j].nid == (#[trigger] block[j]).nid
        &&& v@[at + j].file_type == block[j].file_type
        &&& v@[at + j].name@ == block[j].name
    } by {
        assert(all.subrange(at, at + block.len())[j] == all[at + j]);
        assert(all[at + j] == v@[at + j]@);
    }
    at
}

/// Listing a directory gives nothing but the entries of its blocks.
pub proof fn law_listed_entry(
    reader: ErofsReader,
    nid: u64,
    inode: ErofsInode,
    v: Vec<CachedDirEntry>,
    i: int,
) -> (r: (int, int))
    requires
        call_ensures(
            ErofsReader::read_dir_cached,
            (&reader, nid, &inode),
            Ok::<Vec<CachedDirEntry>, ReadError>(v),
        ),
        0 <= i < v@.len(),
    ensures
        0 <= r.0,
        r.0 * 4096 < inode.size,
        reader.dir_block(nid, inode, r.0) is Ok,
        0 <= r.1 < reader.dir_block(nid, inode, r.0)->Ok_0.len(),
        ({
            let entry = reader.dir_block(nid, inode, r.0)->Ok_0[r.1];
            &&& v@[i].nid == entry.nid
            &&& v@[i].file_type == entry.file_type
            &&& v@[i].name@ == entry.name
        }),
{
    let n = meta::dir_blocks(inode.size as int) as nat;
    let r = read::law_listing_has_only_blocks(reader, nid, inode, n, i);
    assert(meta::cached_view(v@)[i] == v@[i]@);
    r
}

/// Listing a directory fails only if one of its blocks cannot be read, with the
/// error of the first such block.
pub proof fn law_unlisted_directory(
    reader: ErofsReader,
    nid: u64,
    inode: ErofsInode,
    e: ReadError,
) -> (k: int)
    requires
        call_ensures(
            ErofsReader::read_dir_cached,
            (&reader, nid, &inode),
            Err::<Vec<CachedDirEntry>, ReadError>(e),
        ),
    ensures
        0 <= k,
        k * 4096 < inode.size,
        reader.dir_block(nid, inode, k) == Err::<Seq<meta::CachedEntryModel>, ReadError>(e),
        reader.dir_entries(nid, inode, k as nat) is Ok,
{
    read::law_listing_fails_with_a_block(
        reader,
        nid,
        inode,
        meta::dir_blocks(inode.size as int) as nat,
    )
}

/// Looking a name up in a directory finds the first entry of exactly that name.
/// It finds nothing exactly if all blocks can be read and none has the name.
pub proof fn law_looked_up_entry(
    reader: ErofsReader,
    nid: u64,
    inode: ErofsInode,
    name: &[u8],
    r: Result<Option<u64>, ReadError>,
) -> (at: (int, int))
    requires
        call_ensures(ErofsReader::find_dir_entry, (&reader, nid, &inode, name), r),
    ensures
        ({
            let blocks = read::blocks_of(reader, nid, inode);
            match r {
                Ok(Some(found)) => {
                    &&& 0 <= at.0 && at.0 * 4096 < inode.size
                    &&& blocks(at.0) is Ok
                    &&& 0 <= at.1 < blocks(at.0)->Ok_0.len()
                    &&& blocks(at.0)->Ok_0[at.1].name == name@
                    &&& blocks(at.0)->Ok_0[at.1].nid == found
                    &&& forall|j: int|
                        0 <= j < at.1 ==> (#[trigger] blocks(at.0)->Ok_0[j]).name != name@
                    &&& forall|k: int|
                        0 <= k < at.0 ==> #[trigger] read::block_lacks(blocks, k, name@)
                },
                Ok(None) => forall|k: int|
                    0 <= k && k * 4096 < inode.size ==> #[trigger] read::block_lacks(
                        blocks,
                        k,
                        name@,
                    ),
                Err(e) => {
                    &&& 0 <= at.0 && at.0 * 4096 < inode.size
                    &&& blocks(at.0) == Err::<Seq<meta::CachedEntryModel>, ReadError>(e)
                    &&& forall|k: int|
                        0 <= k < at.0 ==> #[trigger] read::block_lacks(blocks, k, name@)
                },
            }
        }),
{
    read::law_directory_lookup(reader, nid, inode, name@)
}

// ---------------------------------------------------------------------------
// File data
// ---------------------------------------------------------------------------

/// A read behind the end of a file gives nothing, one that starts before the end
/// gives as many bytes as were asked for or are left, and data that is neither
/// flat nor in chunks cannot be read.
pub proof fn law_file_read(
    reader: ErofsReader,
    nid: u64,
    inode: ErofsInode,
    offset: u64,
    size: u32,
    blob: Option<&[u8]>,
    r: Result<Vec<u8>, ReadError>,
)
    requires
        call_ensures(
            ErofsReader::read_file_data_sync,
            (&reader, nid, &inode, offset, size, blob),
            r,
        ),
        reader.image@.len() <= usize::MAX,
    ensures
        ({
            let layout = inode.format / 2 % 8;
            let left = inode.size - offset;
            let len = if size <= left {
                size as int
            } else {
                left
            };
            &&& offset >= inode.size ==> (r matches Ok(v) && v@.len() == 0)
            &&& offset < inode.size ==> {
                &&& r matches Ok(v) ==> v@.len() == len
                &&& layout != 0 && layout != 2 && layout != 4 ==> r == Err::<Vec<u8>, ReadError>(
                    ReadError::UnsupportedLayout { layout },
                )
                &&& layout == 0 || layout == 2 ==> match reader.flat_data(
                    nid,
                    inode,
                    offset as int,
                    len,
                ) {
                    Ok(b) => r matches Ok(v) && v@ == b,
                    Err(e) => r == Err::<Vec<u8>, ReadError>(e),
                }
            }
        }),
{
    let layout = inode.format / 2 % 8;
    let left = inode.size - offset;
    let len = if size <= left {
        size as int
    } else {
        left
    };
    read::law_reads_stop_at_the_end(
        reader,
        nid,
        inode,
        data::blob_view(blob),
        offset as int,
        size as int,
    );
    if offset < inode.size && r is Ok {
        if layout == 4 {
            let cs = reader.spec_chunksize(inode);
            vstd::arithmetic::power2::lemma_pow2_pos(reader.spec_chunkbits(inode) as nat);
            if let Ok(ci) = reader.spec_chunk_indexes(nid, inode) {
                data::law_chunk_read_bytes(
                    reader.image@,
                    ci,
                    cs,
                    data::blob_view(blob),
                    offset as int,
                    len,
                );
            }
        } else {
            let split = ErofsReader::inline_start(inode);
            assert(layout == 2 && inode.size > 0 ==> split == (inode.size - 1) / 4096 * 4096);
            read::law_flat_bytes(reader, nid, inode, offset as int, len, split, 0);
        }
    }
}

/// A chunk-based file is read by the indexes behind its inode: the bytes of the
/// positions asked for, one for one, and successfully exactly if all of them are
/// there.
pub proof fn law_chunk_file_read(
    reader: ErofsReader,
    nid: u64,
    inode: ErofsInode,
    offset: u64,
    size: u32,
    blob: Option<&[u8]>,
    indexes: Seq<blobchunk::ChunkIndex>,
    chunksize: int,
    r: Result<Vec<u8>, ReadError>,
)
    requires
        call_ensures(
            ErofsReader::read_file_data_sync,
            (&reader, nid, &inode, offset, size, blob),
            r,
        ),
        reader.image@.len() <= usize::MAX,
        inode.format / 2 % 8 == 4,
        chunksize == vstd::arithmetic::power2::pow2(reader.spec_sb().blkszbits as nat)
            * vstd::arithmetic::power2::pow2((inode.u % 32) as nat),
        indexes.len() * chunksize >= inode.size,
        (indexes.len() - 1) * chunksize < inode.size,
        read::storable(indexes),
        ({
            let tail = reader.spec_sb().meta_blkaddr * 4096 + nid * 32 + inode.spec_header_size()
                + inode.spec_xattr_size();
            metadata::holds_at(reader.image@, tail, inode::chunk_index_table(indexes))
        }),
        0 <= offset < inode.size,
        offset + size <= inode.size,
    ensures
        r is Ok <==> forall|q: int|
            offset <= q < offset + size ==> (#[trigger] read::stored_byte(
                reader.image@,
                data::blob_view(blob),
                indexes,
                chunksize,
                q,
            )) is Some,
        r matches Ok(v) ==> v@.len() == size && forall|q: int|
            offset <= q < offset + size ==> #[trigger] read::stored_byte(
                reader.image@,
                data::blob_view(blob),
                indexes,
                chunksize,
                q,
            ) == Some(v@[q - offset]),
{
    read::law_chunk_file_is_read(
        reader,
        nid,
        inode,
        data::blob_view(blob),
        indexes,
        chunksize,
        offset as int,
        size as int,
    );
}

/// The chunks of a chunk-based file are read by the indexes behind its inode, at
/// any position, also behind the end of the file; of any other file they are not.
pub proof fn law_chunk_data_read(
    reader: ErofsReader,
    nid: u64,
    inode: ErofsInode,
    offset: u64,
    size: usize,
    blob: Option<&[u8]>,
    indexes: Seq<blobchunk::ChunkIndex>,
    chunksize: int,
    r: Result<Vec<u8>, ReadError>,
)
    requires
        call_ensures(
            ErofsReader::read_chunk_data_sync,
            (&reader, nid, &inode, offset, size, blob),
            r,
        ),
        reader.image@.len() <= usize::MAX,
        chunksize == vstd::arithmetic::power2::pow2(reader.spec_sb().blkszbits as nat)
            * vstd::arithmetic::power2::pow2((inode.u % 32) as nat),
        indexes.len() * chunksize >= inode.size,
        (indexes.len() - 1) * chunksize < inode.size,
        read::storable(indexes),
        ({
            let tail = reader.spec_sb().meta_blkaddr * 4096 + nid * 32 + inode.spec_header_size()
                + inode.spec_xattr_size();
            metadata::holds_at(reader.image@, tail, inode::chunk_index_table(indexes))
        }),
    ensures
        inode.format / 2 % 8 != 4 ==> r == Err::<Vec<u8>, ReadError>(ReadError::NotChunkBased),
        inode.format / 2 % 8 == 4 ==> {
            &&& r is Ok <==> forall|q: int|
                offset <= q < offset + size ==> (#[trigger] read::stored_byte(
                    reader.image@,
                    data::blob_view(blob),
                    indexes,
                    chunksize,
                    q,
                )) is Some
            &&& r matches Ok(v) ==> v@.len() == size && forall|q: int|
                offset <= q < offset + size ==> #[trigger] read::stored_byte(
                    reader.image@,
                    data::blob_view(blob),
                    indexes,
                    chunksize,
                    q,
                ) == Some(v@[q - offset])
        },
{
    read::law_chunks_of_a_file(
        reader,
        nid,
        inode,
        data::blob_view(blob),
        indexes,
        chunksize,
        offset as int,
        size as int,
    );
}

/// A read that is started and finished later gives what the read at once gives.
pub proof fn law_read_in_parts(
    reader: ErofsReader,
    nid: u64,
    inode: ErofsInode,
    offset: u64,
    size: u32,
    blob: Option<&[u8]>,
    started: FileRead,
    parts: Result<Vec<u8>, ReadError>,
    whole: Result<Vec<u8>, ReadError>,
)
    requires
        call_ensures(
            ErofsReader::read_file_data,
            (&reader, nid, &inode, offset, size),
            Ok::<FileRead, ReadError>(started),
        ),
        started matches FileRead::Data(v) ==> parts == Ok::<Vec<u8>, ReadError>(v),
        started matches FileRead::Chunks(chunks) ==> call_ensures(
            ChunkReader::run,
            (chunks, blob),
            parts,
        ),
        call_ensures(
            ErofsReader::read_file_data_sync,
            (&reader, nid, &inode, offset, size, blob),
            whole,
        ),
    ensures
        match (parts, whole) {
            (Ok(a), Ok(b)) => a@ == b@,
            (Err(d), Err(e)) => d == e,
            _ => false,
        },
{
    let b = data::blob_view(blob);
    assert(started.outcome(b) == reader.file_data(nid, inode, b, offset as int, size as int));
}

/// A read asks the blob device for the rest of a chunk, or for what is left to
/// read of it: so far into the blocks of the chunk as the position is into the
/// chunk. It is done only if nothing is left, or no chunk. A step that asks or is
/// done leaves the read as it is.
pub proof fn law_step_of_a_read(
    chunks: &mut ChunkReader,
    r: Result<ReadStep, ReadError>,
)
    requires
        call_ensures(ChunkReader::step, (chunks,), r),
        old(chunks).chunksize > 0,
    ensures
        ({
            let p = old(chunks).offset + old(chunks).buf_pos;
            let cs = old(chunks).chunksize as int;
            let left = old(chunks).result@.len() - old(chunks).buf_pos;
            let index = metadata::chunk_index_at(old(chunks).ci_data@, 8 * (p / cs));
            match r {
                Ok(ReadStep::Done) => {
                    &&& *final(chunks) == *old(chunks)
                    &&& left == 0 || p / cs >= old(chunks).ci_data@.len() as int / 8
                },
                Ok(ReadStep::Blob { offset, len }) => {
                    &&& *final(chunks) == *old(chunks)
                    &&& p / cs < old(chunks).ci_data@.len() as int / 8
                    &&& index.device_id > 0
                    &&& index.blkaddr != 0xFFFF_FFFF_FFFF_FFFF
                    &&& offset == index.blkaddr * 4096 + p % cs
                    &&& len <= left && len <= cs - p % cs
                    &&& len == left || len == cs - p % cs
                },
                Ok(ReadStep::Advanced) => {
                    &&& final(chunks).buf_pos > old(chunks).buf_pos
                    &&& final(chunks).offset == old(chunks).offset
                    &&& final(chunks).result@.len() == old(chunks).result@.len()
                    &&& final(chunks).buf_pos - old(chunks).buf_pos <= left
                },
                Err(_) => *final(chunks) == *old(chunks) && left > 0,
            }
        }),
{
    let p = old(chunks).offset + old(chunks).buf_pos;
    let cs = old(chunks).chunksize as int;
    vstd::arithmetic::div_mod::lemma_mod_bound(p, cs);
    if let Ok(ReadStep::Advanced) = r {
        let b = old(chunks).next_segment(None)->Ok_0;
        assert(b.len() == old(chunks).next_len());
    }
}

/// What is supplied to a read stands behind what it has, which stays as it is.
pub proof fn law_supplied_read(chunks: &mut ChunkReader, bytes: &[u8], i: int)
    requires
        call_ensures(ChunkReader::supply, (chunks, bytes), ()),
        old(chunks).buf_pos + bytes@.len() <= old(chunks).result@.len(),
        0 <= i < old(chunks).result@.len(),
    ensures
        final(chunks).buf_pos == old(chunks).buf_pos + bytes@.len(),
        final(chunks).result@.len() == old(chunks).result@.len(),
        i < old(chunks).buf_pos ==> final(chunks).result@[i] == old(chunks).result@[i],
        old(chunks).buf_pos <= i < final(chunks).buf_pos ==> final(chunks).result@[i]
            == bytes@[i - old(chunks).buf_pos],
        final(chunks).offset == old(chunks).offset,
        final(chunks).chunksize == old(chunks).chunksize,
        final(chunks).ci_data == old(chunks).ci_data,
        final(chunks).reader == old(chunks).reader,
{
    let at = old(chunks).buf_pos as int;
    let after = final(chunks).result@;
    records::law_splice(old(chunks).result@, at, bytes@, i);
    if at <= i < at + bytes@.len() {
        assert(after.subrange(at, at + bytes@.len())[i - at] == after[i]);
    }
}

/// A read gives what it has read.
pub proof fn law_finished_read(chunks: ChunkReader, r: Vec<u8>)
    requires
        call_ensures(ChunkReader::finish, (chunks,), r),
    ensures
        r@ == chunks.result@,
{
}

/// The chunks of a file are 2^(u % 32) blocks long.
#[verifier::spinoff_prover]
pub proof fn law_chunk_size(reader: ErofsReader, inode: ErofsInode, r: u64)
    requires
        call_ensures(ErofsReader::chunksize, (&reader, &inode), r),
    ensures
        r == vstd::arithmetic::power2::pow2(reader.spec_sb().blkszbits as nat)
            * vstd::arithmetic::power2::pow2((inode.u % 32) as nat),
{
    let bits = reader.spec_sb().blkszbits as nat;
    let more = (inode.u % 32) as nat;
    assert(inode.spec_chunk_format() % 32 == inode.u % 32);
    assert(reader.spec_chunkbits(inode) == bits + more);
    assert(r == vstd::arithmetic::power2::pow2(bits + more));
    vstd::arithmetic::power2::lemma_pow2_adds(bits, more);
}

// ---------------------------------------------------------------------------
// The blob device
// ---------------------------------------------------------------------------

/// A read from the blob device starts with nothing.
pub proof fn law_device_read_starts(offset: i64, len: usize, r: PreadLoop)
    requires
        call_ensures(PreadLoop::new, (offset, len), r),
    ensures
        r.offset == offset,
        r.len == len,
        r.total == 0,
{
}

/// A read from the blob device asks for what is missing until nothing is.
pub proof fn law_next_call(state: PreadLoop, r: Option<PreadCall>)
    requires
        call_ensures(PreadLoop::next_call, (&state,), r),
        state.total <= state.len <= i64::MAX,
        state.offset + state.len <= i64::MAX + 1,
    ensures
        r is None <==> state.total == state.len,
        r matches Some(call) ==> {
            &&& call.start == state.total
            &&& call.start + call.len == state.len
            &&& call.offset == state.offset + call.start
        },
{
}

/// A call that returns a number of bytes brings the read on by that many; zero
/// is the end of the device, a negative number a failure, and both leave the
/// read as it is.
pub proof fn law_returned_call(state: &mut PreadLoop, ret: i64, r: Result<(), PreadFault>)
    requires
        call_ensures(PreadLoop::returned, (state, ret), r),
        ret <= old(state).len - old(state).total,
    ensures
        ret < 0 ==> r == Err::<(), PreadFault>(PreadFault::Os) && *final(state) == *old(state),
        ret == 0 ==> r == Err::<(), PreadFault>(PreadFault::Eof) && *final(state) == *old(state),
        ret > 0 ==> {
            &&& r is Ok
            &&& final(state).total == old(state).total + ret
            &&& final(state).len == old(state).len
            &&& final(state).offset == old(state).offset
        },
{
}

// ---------------------------------------------------------------------------
// Extended attributes
// ---------------------------------------------------------------------------

/// The extended attributes of an inode are those of its area and the shared ones
/// that it names; an inode without an area has none.
pub proof fn law_xattrs_read(
    reader: ErofsReader,
    nid: u64,
    inode: ErofsInode,
    r: Result<Vec<Xattr>, ReadError>,
    i: int,
)
    requires
        call_ensures(ErofsReader::read_xattrs, (&reader, nid, &inode), r),
        reader.image@.len() <= usize::MAX,
    ensures
        inode.xattr_icount == 0 ==> (r matches Ok(v) && v@.len() == 0),
        match reader.xattrs(nid, inode) {
            Ok(x) => r matches Ok(v) && v@.len() == x.len() && (0 <= i < x.len() ==> v@[i].name@
                == x[i].name && v@[i].value@ == x[i].value),
            Err(e) => r == Err::<Vec<Xattr>, ReadError>(e),
        },
{
    read::law_xattrs_of_an_inode(reader, nid, inode, Seq::empty());
    if let Ok(v) = r {
        let x = reader.xattrs(nid, inode)->Ok_0;
        assert(x.len() == v@.len());
        if 0 <= i < x.len() {
            assert(x[i] == v@[i]@);
        }
    }
}

// ---------------------------------------------------------------------------
// What may be asked for
// ---------------------------------------------------------------------------

/// A file can be read exactly if the read is behind its end, or the numbers that
/// locate its data fit: the address of the inode, and for chunks their size, their
/// `n` indexes and where these start.
pub proof fn law_readable(
    reader: ErofsReader,
    nid: u64,
    inode: ErofsInode,
    offset: u64,
    n: int,
    r: bool,
)
    requires
        call_ensures(ErofsReader::can_read, (&reader, nid, &inode, offset), r),
        ({
            let chunksize = vstd::arithmetic::power2::pow2(
                (reader.spec_sb().blkszbits + inode.u % 32) as nat,
            ) as int;
            (n - 1) * chunksize < inode.size <= n * chunksize
        }),
    ensures
        ({
            let layout = inode.format / 2 % 8;
            let at = reader.spec_sb().meta_blkaddr * 4096 + nid * 32;
            let tail = at + inode.spec_header_size() + inode.spec_xattr_size();
            r <==> (offset < inode.size ==> {
                &&& layout == 0 || layout == 2 || layout == 4 ==> at <= u64::MAX && at
                    <= usize::MAX
                &&& layout == 4 ==> {
                    &&& reader.spec_sb().blkszbits + inode.u % 32 < 64
                    &&& n * 8 <= usize::MAX
                    &&& tail <= usize::MAX
                }
            })
        }),
{
    let bits = (reader.spec_sb().blkszbits + inode.u % 32) as nat;
    let chunksize = vstd::arithmetic::power2::pow2(bits) as int;
    assert(inode.spec_chunk_format() % 32 == inode.u % 32);
    vstd::arithmetic::power2::lemma_pow2_pos(bits);
    assert(reader.spec_chunksize(inode) == chunksize);
    read::lemma_least_is_ceil(inode.size as int, chunksize, n);
    assert(reader.spec_nchunks(inode) == n);
}

/// Any inode of an image with a superblock may be asked for, and any file of an
/// inode with an address read.
pub proof fn law_what_may_be_read(
    reader: ErofsReader,
    nid: u64,
    inode: ErofsInode,
    name: &[u8],
    offset: u64,
    size: u32,
    len: usize,
    blob: Option<&[u8]>,
)
    requires
        reader.sb_offset + 128 <= reader.image@.len(),
        reader.spec_sb().meta_blkaddr * 4096 + nid * 32 + inode.spec_header_size()
            + inode.spec_xattr_size() <= usize::MAX,
        reader.spec_sb().blkszbits + inode.u % 32 < 64,
        inode.size * 8 <= usize::MAX,
    ensures
        call_requires(ErofsReader::inode, (&reader, nid)),
        call_requires(ErofsReader::read_symlink, (&reader, nid, &inode)),
        call_requires(ErofsReader::read_dir_cached, (&reader, nid, &inode)),
        call_requires(ErofsReader::find_dir_entry, (&reader, nid, &inode, name)),
        call_requires(ErofsReader::read_xattrs, (&reader, nid, &inode)),
        call_requires(ErofsReader::read_file_data, (&reader, nid, &inode, offset, size)),
        call_requires(
            ErofsReader::read_file_data_sync,
            (&reader, nid, &inode, offset, size, blob),
        ),
        offset + len <= inode.size ==> call_requires(
            ErofsReader::read_flat_data_vec,
            (&reader, nid, &inode, offset, len),
        ),
        call_requires(ErofsReader::chunksize, (&reader, &inode)),
{
    read::law_ordinary_files_can_be_read(reader, nid, inode, offset);
    assert(inode.spec_chunk_format() % 32 == inode.u % 32);
}

} // verus!
