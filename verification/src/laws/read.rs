//! What is read of an image.
use crate::blobchunk;
use crate::bytes;
use crate::fs;
use crate::fs::data;
use crate::fs::meta;
use crate::fs::xattr;
use crate::fs::{ErofsReader, ReadError};
use crate::inode;
use crate::metadata;
use crate::metadata::ErofsInode;
use crate::ondisk;
use crate::roundtrip;
use vstd::prelude::*;

verus! {

// ---------------------------------------------------------------------------
// Bytes of the image and of the blob device
// ---------------------------------------------------------------------------

/// A slice of the image is its bytes from the offset on, as many as were asked
/// for, and there is one exactly if they all stand in the image.
pub proof fn law_image_slice(image: Seq<u8>, offset: int, len: int, i: int)
    requires
        image.len() <= usize::MAX,
        offset >= 0,
        len >= 0,
    ensures
        fs::image_slice(image, offset, len) is Ok <==> offset + len <= image.len(),
        fs::image_slice(image, offset, len) matches Ok(s) ==> s.len() == len && (0 <= i < len
            ==> s[i] == image[offset + i]),
        offset + len > usize::MAX ==> fs::image_slice(image, offset, len) == Err::<
            Seq<u8>,
            ReadError,
        >(ReadError::OffsetOverflow),
        image.len() < offset + len <= usize::MAX ==> fs::image_slice(image, offset, len) == Err::<
            Seq<u8>,
            ReadError,
        >(
            ReadError::OutOfBounds {
                offset: offset as usize,
                len: len as usize,
                image_len: image.len() as usize,
            },
        ),
{
}

/// A slice of the blob device is its bytes from the offset on, as many as were
/// asked for, and there is one exactly if there is a device and they all stand
/// on it.
pub proof fn law_blob_slice(blob: Option<Seq<u8>>, offset: int, len: int, i: int)
    requires
        offset >= 0,
        len >= 0,
    ensures
        data::blob_slice(blob, offset, len) is Ok <==> blob is Some && offset + len
            <= blob->0.len(),
        data::blob_slice(blob, offset, len) matches Ok(s) ==> s.len() == len && (0 <= i < len
            ==> s[i] == blob->0[offset + i]),
        blob is None ==> data::blob_slice(blob, offset, len) == Err::<Seq<u8>, ReadError>(
            ReadError::BlobMissing,
        ),
        blob is Some && offset + len > blob->0.len() ==> data::blob_slice(blob, offset, len)
            == Err::<Seq<u8>, ReadError>(ReadError::BlobEof),
{
}

/// A blob device is all of its bytes.
pub proof fn law_blob_device(blob: Option<&[u8]>)
    ensures
        blob is None ==> data::blob_view(blob) is None,
        blob matches Some(b) ==> data::blob_view(blob) == Some(b@),
{
}

// ---------------------------------------------------------------------------
// Inodes
// ---------------------------------------------------------------------------

/// Inodes are numbered in slots of 32 bytes from the metadata block on.
pub proof fn law_inode_slots(reader: ErofsReader, nid: u64)
    ensures
        reader.inode_offset(0) == reader.spec_sb().meta_blkaddr * 4096,
        nid < u64::MAX ==> reader.inode_offset((nid + 1) as u64) == reader.inode_offset(nid) + 32,
        reader.nid_fits(nid) <==> reader.spec_sb().meta_blkaddr * 4096 + nid * 32 <= u64::MAX
            && reader.spec_sb().meta_blkaddr * 4096 + nid * 32 <= usize::MAX,
{
}

/// An inode is read where its number says, and can be read exactly if its
/// header stands in the image: 64 bytes if the first one is odd, or else 32. The
/// error tells a number without an address from a header that is cut off.
pub proof fn law_inode_is_read(reader: ErofsReader, nid: u64)
    requires
        reader.image@.len() <= usize::MAX,
    ensures
        ({
            let at = reader.spec_sb().meta_blkaddr * 4096 + nid * 32;
            let fits = at + 32 <= reader.image@.len() && (reader.image@[at] % 2 == 1 ==> at + 64
                <= reader.image@.len());
            &&& reader.spec_inode(nid) is Ok <==> at <= u64::MAX && fits
            &&& reader.spec_inode(nid) matches Ok(n) ==> n == metadata::inode_at(reader.image@, at)
            &&& reader.spec_inode(nid) matches Err(e) ==> if at > u64::MAX || at > usize::MAX {
                e == ReadError::BadNid { nid }
            } else if at + 32 > reader.image@.len() {
                fs::image_slice(reader.image@, at, 32) == Err::<Seq<u8>, ReadError>(e)
            } else {
                fs::image_slice(reader.image@, at, 64) == Err::<Seq<u8>, ReadError>(e)
            }
        }),
{
    let at = reader.spec_sb().meta_blkaddr * 4096 + nid * 32;
    assert(bytes::get16(reader.image@, at) == reader.image@[at] + 256 * reader.image@[at + 1]);
}

// ---------------------------------------------------------------------------
// Flat data
// ---------------------------------------------------------------------------

/// Where the bytes of flat data are: at their position behind the start block;
/// but what an inline inode has from `split`, the start of its last block, on,
/// is behind its header and its extended attributes. As many bytes are read as
/// were asked for, and they can be read exactly if they all stand in the image.
pub proof fn law_flat_bytes(
    reader: ErofsReader,
    nid: u64,
    inode: ErofsInode,
    offset: int,
    len: int,
    split: int,
    k: int,
)
    requires
        reader.image@.len() <= usize::MAX,
        0 <= offset,
        0 <= len,
        offset + len <= inode.size,
        inode.format / 2 % 8 == 2 ==> split % 4096 == 0 && split <= inode.size <= split + 4096 && (
        inode.size > 0 ==> split < inode.size) && split >= 0,
        inode.format / 2 % 8 != 2 ==> split == inode.size,
    ensures
        ({
            let blocks = inode.spec_startblk() * 4096;
            let tail = reader.spec_sb().meta_blkaddr * 4096 + nid * 32 + inode.spec_header_size()
                + inode.spec_xattr_size();
            let r = reader.flat_data(nid, inode, offset, len);
            &&& r matches Ok(v) ==> v.len() == len && (0 <= k < len ==> v[k] == (if offset + k
                < split {
                reader.image@[blocks + offset + k]
            } else {
                reader.image@[tail + (offset + k - split)]
            }))
            &&& len > 0 ==> (r is Ok <==> (offset < split ==> blocks + (if offset + len <= split {
                offset + len
            } else {
                split
            }) <= reader.image@.len()) && (offset + len > split ==> tail + (offset + len - split)
                <= reader.image@.len()))
        }),
{
    let blocks = inode.spec_startblk() * 4096;
    assert(ErofsReader::inline_start(inode) == split) by {
        if inode.format / 2 % 8 == 2 {
            if inode.size > 0 {
                assert((inode.size - 1) / 4096 * 4096 == split);
            } else {
                assert(split == 0);
            }
        }
    }
    let tail = reader.tail_offset(nid, inode);
    let r = reader.flat_data(nid, inode, offset, len);
    if offset + len <= split {
        law_image_slice(reader.image@, blocks + offset, len, k);
    } else if split <= offset {
        law_image_slice(reader.image@, tail + (offset - split), len, k);
    } else {
        law_image_slice(reader.image@, blocks + offset, split - offset, k);
        law_image_slice(reader.image@, tail, offset + len - split, k - (split - offset));
    }
}

/// A read of flat data that lies all before or all behind the split fails as a
/// read of the image does; one that goes over it fails as its first part does,
/// or else as its second part.
pub proof fn law_flat_read_fails_as_the_image(
    reader: ErofsReader,
    nid: u64,
    inode: ErofsInode,
    offset: int,
    len: int,
    split: int,
)
    requires
        0 <= offset,
        0 <= len,
        offset + len <= inode.size,
        inode.format / 2 % 8 == 2 ==> split % 4096 == 0 && split <= inode.size <= split + 4096 && (
        inode.size > 0 ==> split < inode.size) && split >= 0,
        inode.format / 2 % 8 != 2 ==> split == inode.size,
    ensures
        ({
            let blocks = (inode.nb * 0x1_0000_0000 + inode.u) * 4096;
            let tail = reader.spec_sb().meta_blkaddr * 4096 + nid * 32 + inode.spec_header_size()
                + inode.spec_xattr_size();
            let r = reader.flat_data(nid, inode, offset, len);
            &&& offset + len <= split ==> r == fs::image_slice(reader.image@, blocks + offset, len)
            &&& offset >= split && offset + len > split ==> r == fs::image_slice(
                reader.image@,
                tail + (offset - split),
                len,
            )
            &&& offset < split < offset + len ==> (r matches Err(e) ==> match fs::image_slice(
                reader.image@,
                blocks + offset,
                split - offset,
            ) {
                Err(first) => e == first,
                Ok(_) => fs::image_slice(reader.image@, tail, offset + len - split) == Err::<
                    Seq<u8>,
                    ReadError,
                >(e),
            })
        }),
{
    assert(ErofsReader::inline_start(inode) == split) by {
        if inode.format / 2 % 8 == 2 {
            if inode.size > 0 {
                assert((inode.size - 1) / 4096 * 4096 == split);
            } else {
                assert(split == 0);
            }
        }
    }
}

/// The target of a symbolic link is all of its flat data.
pub proof fn law_symlink_target_is_its_data(reader: ErofsReader, nid: u64, inode: ErofsInode)
    ensures
        inode.size <= usize::MAX ==> reader.symlink_target(nid, inode) == reader.flat_data(
            nid,
            inode,
            0,
            inode.size as int,
        ),
        inode.size > usize::MAX ==> reader.symlink_target(nid, inode) is Err,
{
}

// ---------------------------------------------------------------------------
// Directories
// ---------------------------------------------------------------------------

/// A directory is read in the fewest blocks that cover all of it.
pub proof fn law_blocks_cover_directory(size: int, p: int)
    requires
        size >= 0,
    ensures
        meta::dir_blocks(size) >= 0,
        0 <= p < size ==> p / 4096 < meta::dir_blocks(size),
        meta::dir_blocks(size) * 4096 >= size,
        meta::dir_blocks(size) > 0 ==> (meta::dir_blocks(size) - 1) * 4096 < size,
{
}

/// A block of a directory is the next 4096 bytes of its data, or what is left of
/// it.
pub proof fn law_directory_block(reader: ErofsReader, nid: u64, inode: ErofsInode, k: int)
    requires
        0 <= k,
        k * 4096 < inode.size,
    ensures
        ({
            let len = if inode.size - k * 4096 <= 4096 {
                inode.size - k * 4096
            } else {
                4096
            };
            match reader.flat_data(nid, inode, k * 4096, len) {
                Err(e) => reader.dir_block(nid, inode, k) == Err::<
                    Seq<meta::CachedEntryModel>,
                    ReadError,
                >(e),
                Ok(block) => if meta::block_valid(block) {
                    reader.dir_block(nid, inode, k) == Ok::<Seq<meta::CachedEntryModel>, ReadError>(
                        meta::block_entries(block),
                    )
                } else {
                    reader.dir_block(nid, inode, k) == Err::<
                        Seq<meta::CachedEntryModel>,
                        ReadError,
                    >(ReadError::CorruptDirectory)
                },
            }
        }),
{
}

/// The entries of each of the first `n` blocks are a part of what they hold
/// together.
proof fn lemma_block_is_part(
    reader: ErofsReader,
    nid: u64,
    inode: ErofsInode,
    n: nat,
    k: int,
) -> (at: int)
    requires
        reader.dir_entries(nid, inode, n) is Ok,
        0 <= k < n,
    ensures
        reader.dir_block(nid, inode, k) is Ok,
        ({
            let all = reader.dir_entries(nid, inode, n)->Ok_0;
            let block = reader.dir_block(nid, inode, k)->Ok_0;
            0 <= at <= all.len() - block.len() && all.subrange(at, at + block.len()) == block
        }),
    decreases n,
{
    let m = (n - 1) as nat;
    let all = reader.dir_entries(nid, inode, n)->Ok_0;
    let before = reader.dir_entries(nid, inode, m)->Ok_0;
    let last = reader.dir_block(nid, inode, m as int)->Ok_0;
    assert(all == before + last);
    if k == m {
        assert(all.subrange(before.len() as int, all.len() as int) =~= last);
        before.len() as int
    } else {
        let at = lemma_block_is_part(reader, nid, inode, m, k);
        let block = reader.dir_block(nid, inode, k)->Ok_0;
        assert(all.subrange(at, at + block.len()) =~= before.subrange(at, at + block.len()));
        at
    }
}

/// A listing holds the entries of every block of the directory, up to its last
/// byte.
pub proof fn law_listing_has_every_block(
    reader: ErofsReader,
    nid: u64,
    inode: ErofsInode,
    p: int,
) -> (at: int)
    requires
        reader.dir_entries(nid, inode, meta::dir_blocks(inode.size as int) as nat) is Ok,
        0 <= p < inode.size,
    ensures
        reader.dir_block(nid, inode, p / 4096) is Ok,
        ({
            let all = reader.dir_entries(
                nid,
                inode,
                meta::dir_blocks(inode.size as int) as nat,
            )->Ok_0;
            let block = reader.dir_block(nid, inode, p / 4096)->Ok_0;
            0 <= at <= all.len() - block.len() && all.subrange(at, at + block.len()) == block
        }),
{
    lemma_block_is_part(
        reader,
        nid,
        inode,
        meta::dir_blocks(inode.size as int) as nat,
        p / 4096,
    )
}

/// A listing holds nothing but the entries of the blocks of the directory.
pub proof fn law_listing_has_only_blocks(
    reader: ErofsReader,
    nid: u64,
    inode: ErofsInode,
    n: nat,
    i: int,
) -> (r: (int, int))
    requires
        reader.dir_entries(nid, inode, n) is Ok,
        0 <= i < reader.dir_entries(nid, inode, n)->Ok_0.len(),
    ensures
        0 <= r.0 < n,
        reader.dir_block(nid, inode, r.0) is Ok,
        0 <= r.1 < reader.dir_block(nid, inode, r.0)->Ok_0.len(),
        reader.dir_block(nid, inode, r.0)->Ok_0[r.1] == reader.dir_entries(
            nid,
            inode,
            n,
        )->Ok_0[i],
    decreases n,
{
    let m = (n - 1) as nat;
    let before = reader.dir_entries(nid, inode, m)->Ok_0;
    if i < before.len() {
        law_listing_has_only_blocks(reader, nid, inode, m, i)
    } else {
        (m as int, i - before.len())
    }
}

/// A listing grows block by block: nothing is between the entries of one block
/// and those of the next, and it fails with the first block that cannot be read.
pub proof fn law_listing_goes_block_by_block(
    reader: ErofsReader,
    nid: u64,
    inode: ErofsInode,
    n: nat,
)
    ensures
        reader.dir_entries(nid, inode, 0) == Ok::<Seq<meta::CachedEntryModel>, ReadError>(
            Seq::empty(),
        ),
        match (reader.dir_entries(nid, inode, n), reader.dir_block(nid, inode, n as int)) {
            (Ok(before), Ok(block)) => reader.dir_entries(nid, inode, n + 1) == Ok::<
                Seq<meta::CachedEntryModel>,
                ReadError,
            >(before + block),
            (Err(e), _) => reader.dir_entries(nid, inode, n + 1) == Err::<
                Seq<meta::CachedEntryModel>,
                ReadError,
            >(e),
            (_, Err(e)) => reader.dir_entries(nid, inode, n + 1) == Err::<
                Seq<meta::CachedEntryModel>,
                ReadError,
            >(e),
        },
{
}

/// A listing fails only if some block of the directory cannot be read, with the
/// error of the first such block.
pub proof fn law_listing_fails_with_a_block(
    reader: ErofsReader,
    nid: u64,
    inode: ErofsInode,
    n: nat,
) -> (k: int)
    requires
        reader.dir_entries(nid, inode, n) is Err,
    ensures
        0 <= k < n,
        reader.dir_block(nid, inode, k) == Err::<Seq<meta::CachedEntryModel>, ReadError>(
            reader.dir_entries(nid, inode, n)->Err_0,
        ),
        reader.dir_entries(nid, inode, k as nat) is Ok,
    decreases n,
{
    let m = (n - 1) as nat;
    if reader.dir_entries(nid, inode, m) is Err {
        law_listing_fails_with_a_block(reader, nid, inode, m)
    } else {
        m as int
    }
}

/// Where entry `i` of a directory block says that its name starts.
pub open spec fn name_offset(block: Seq<u8>, i: int) -> int {
    block[12 * i + 8] + 256 * block[12 * i + 9]
}

proof fn lemma_zero_found(block: Seq<u8>, from: int)
    requires
        0 <= from <= block.len(),
    ensures
        from <= meta::first_zero(block, from) <= block.len(),
        meta::first_zero(block, from) < block.len() ==> block[meta::first_zero(block, from)] == 0,
        forall|k: int| from <= k < meta::first_zero(block, from) ==> #[trigger] block[k] != 0,
    decreases block.len() - from,
{
    if from < block.len() && block[from] != 0 {
        lemma_zero_found(block, from + 1);
    }
}

/// A directory block can be read exactly if it holds whole entries up to where
/// the first name starts, and the names start in the block, none before the one
/// before it.
pub proof fn law_directory_block_is_valid(block: Seq<u8>)
    ensures
        meta::block_valid(block) <==> {
            let n = name_offset(block, 0) / 12;
            &&& block.len() >= 12
            &&& 12 <= name_offset(block, 0) <= block.len()
            &&& name_offset(block, 0) == 12 * n
            &&& forall|i: int| 0 <= i < n ==> #[trigger] name_offset(block, i) <= block.len()
            &&& forall|i: int, j: int|
                0 <= i < j < n ==> #[trigger] name_offset(block, i) <= #[trigger] name_offset(
                    block,
                    j,
                )
        },
{
    let n = name_offset(block, 0) / 12;
    assert(forall|i: int| #[trigger] meta::name_start(block, i) == name_offset(block, i));
    if meta::block_valid(block) {
        assert forall|i: int| 0 <= i < n implies #[trigger] name_offset(block, i)
            <= block.len() by {
            assert(meta::name_start(block, i) <= meta::name_end(block, i));
        }
        assert forall|i: int, j: int| 0 <= i < j < n implies #[trigger] name_offset(block, i)
            <= #[trigger] name_offset(block, j) by {
            lemma_offsets_ascend(block, i, j);
        }
    } else if block.len() >= 12 && 12 <= name_offset(block, 0) <= block.len() && name_offset(
        block,
        0,
    ) == 12 * n && (forall|i: int|
        0 <= i < n ==> #[trigger] name_offset(block, i) <= block.len()) && (forall|
        i: int,
        j: int,
    |
        0 <= i < j < n ==> #[trigger] name_offset(block, i) <= #[trigger] name_offset(block, j)) {
        assert forall|i: int| 0 <= i < meta::block_count(block) implies #[trigger] meta::name_start(
            block,
            i,
        ) <= meta::name_end(block, i) <= block.len() by {
            assert(name_offset(block, i) <= block.len());
            lemma_zero_found(block, meta::name_start(block, i));
            if i + 1 < n {
                assert(name_offset(block, i) <= name_offset(block, i + 1));
                assert(name_offset(block, i + 1) <= block.len());
                assert(meta::name_end(block, i) == meta::name_start(block, i + 1));
            }
        }
    }
}

proof fn lemma_offsets_ascend(block: Seq<u8>, i: int, j: int)
    requires
        meta::block_valid(block),
        0 <= i <= j < meta::block_count(block),
    ensures
        meta::name_start(block, i) <= meta::name_start(block, j),
    decreases j - i,
{
    if i < j {
        lemma_offsets_ascend(block, i, j - 1);
        assert(meta::name_start(block, j - 1) <= meta::name_end(block, j - 1));
    }
}

/// A directory block has as many entries as stand before the first name. Each has
/// the number and the file type that it says, and a name that ends where the next
/// one starts; the last one ends with the block or before the first zero byte.
#[verifier::spinoff_prover]
#[verifier::rlimit(40)]
pub proof fn law_directory_block_entries(block: Seq<u8>, i: int)
    requires
        meta::block_valid(block),
        0 <= i < name_offset(block, 0) / 12,
    ensures
        ({
            let n = name_offset(block, 0) / 12;
            let entries = meta::block_entries(block);
            let start = name_offset(block, i);
            let name = entries[i].name;
            &&& entries.len() == n
            &&& entries[i].nid == bytes::get64(block, 12 * i)
            &&& entries[i].file_type == block[12 * i + 10]
            &&& start + name.len() <= block.len()
            &&& name == block.subrange(start, start + name.len())
            &&& i + 1 < n ==> start + name.len() == name_offset(block, i + 1)
            &&& i + 1 == n ==> {
                &&& start + name.len() == block.len() || block[start + name.len()] == 0
                &&& forall|k: int| 0 <= k < name.len() ==> #[trigger] name[k] != 0
            }
        }),
{
    let n = name_offset(block, 0) / 12;
    let start = name_offset(block, i);
    let end = meta::name_end(block, i);
    let name = meta::block_entries(block)[i].name;
    assert(meta::name_start(block, i) == start);
    assert(meta::block_count(block) == n);
    assert(start <= end <= block.len());
    assert(name == block.subrange(start, end));
    assert(name.len() == end - start);
    if i + 1 < n {
        assert(end == meta::name_start(block, i + 1));
    } else {
        assert(end == meta::first_zero(block, start));
        lemma_zero_found(block, start);
        assert forall|k: int| 0 <= k < name.len() implies #[trigger] name[k] != 0 by {
            assert(name[k] == block[start + k]);
        }
    }
}

proof fn lemma_first_zero(block: Seq<u8>, from: int, end: int)
    requires
        0 <= from <= end <= block.len(),
        forall|i: int| from <= i < end ==> #[trigger] block[i] != 0,
        end == block.len() || block[end] == 0,
    ensures
        meta::first_zero(block, from) == end,
    decreases end - from,
{
    if from < end {
        lemma_first_zero(block, from + 1, end);
    }
}

/// A directory block is read back as it was written: entries one behind the
/// other, then their names one behind the other, the last one up to the end of
/// the block or to a zero byte.
pub proof fn law_directory_block_is_read_back(
    block: Seq<u8>,
    entries: Seq<meta::CachedEntryModel>,
    offs: Seq<u16>,
)
    requires
        entries.len() > 0,
        offs.len() == entries.len(),
        offs[0] == 12 * entries.len(),
        forall|i: int|
            0 <= i < entries.len() ==> 12 * i + 12 <= block.len() && block.subrange(
                12 * i,
                12 * i + 12,
            ) == ondisk::dirent(
                (#[trigger] entries[i]).nid,
                offs[i],
                entries[i].file_type,
            ),
        forall|i: int|
            0 <= i < entries.len() ==> offs[i] + (#[trigger] entries[i]).name.len() <= block.len()
                && block.subrange(offs[i] as int, offs[i] + entries[i].name.len())
                == entries[i].name,
        forall|i: int|
            0 <= i < entries.len() - 1 ==> offs[i + 1] == offs[i] + (
            #[trigger] entries[i]).name.len(),
        forall|i: int|
            0 <= i < entries.last().name.len() ==> #[trigger] entries.last().name[i] != 0,
        ({
            let end = offs.last() + entries.last().name.len();
            end == block.len() || block[end] == 0
        }),
    ensures
        meta::block_valid(block),
        meta::block_entries(block) == entries,
{
    let n = entries.len() as int;
    assert forall|i: int| 0 <= i < n implies metadata::dirent_at(block, 12 * i) == (
    metadata::ErofsDirent {
        nid: (#[trigger] entries[i]).nid,
        nameoff: offs[i],
        file_type: entries[i].file_type,
    }) by {
        let b = ondisk::dirent(entries[i].nid, offs[i], entries[i].file_type);
        assert(b.len() == 12);
        metadata::law_dirent_read_back(
            block,
            12 * i,
            entries[i].nid,
            offs[i],
            entries[i].file_type,
        );
    }
    assert(metadata::dirent_at(block, 0).nameoff == offs[0]) by {
        assert(entries[0] == entries[0]);
        assert(metadata::dirent_at(block, 12 * 0int).nameoff == offs[0]);
    }
    assert(meta::block_count(block) == n);
    let end = offs.last() + entries.last().name.len();
    assert(entries.last() == entries[n - 1]);
    assert(meta::first_zero(block, offs.last() as int) == end) by {
        let name = block.subrange(offs.last() as int, end);
        assert(name == entries.last().name);
        assert forall|i: int| offs.last() <= i < end implies #[trigger] block[i] != 0 by {
            assert(name[i - offs.last()] == block[i]);
            assert(entries.last().name[i - offs.last()] != 0);
        }
        lemma_first_zero(block, offs.last() as int, end);
    }
    assert forall|i: int| 0 <= i < n implies #[trigger] meta::name_start(block, i) == offs[i]
        && meta::name_end(block, i) == offs[i] + entries[i].name.len() by {
        assert(entries[i] == entries[i]);
        assert(metadata::dirent_at(block, 12 * i).nameoff == offs[i]);
        if i + 1 < n {
            assert(metadata::dirent_at(block, 12 * (i + 1)).nameoff == offs[i + 1]) by {
                assert(entries[i + 1] == entries[i + 1]);
            }
        }
    }
    assert(meta::name_start(block, 0) == offs[0]);
    assert(meta::block_valid(block));
    assert forall|i: int| 0 <= i < n implies meta::block_entries(block)[i]
        == #[trigger] entries[i] by {
        assert(meta::name_start(block, i) == offs[i]);
        assert(metadata::dirent_at(block, 12 * i).nid == entries[i].nid);
        assert(meta::block_entries(block)[i].name =~= entries[i].name);
    }
    assert(meta::block_entries(block) =~= entries);
}

// ---------------------------------------------------------------------------
// Lookup
// ---------------------------------------------------------------------------

/// Looking for a name in a list finds the first entry that has exactly that
/// name, and nothing if there is none.
pub proof fn law_lookup_is_exact(entries: Seq<meta::CachedEntryModel>, name: Seq<u8>)
    ensures
        match meta::find_name(entries, name, 0) {
            Some(nid) => exists|i: int|
                0 <= i < entries.len() && (#[trigger] entries[i]).name == name && entries[i].nid
                    == nid && forall|j: int|
                    0 <= j < i ==> (#[trigger] entries[j]).name != name,
            None => forall|i: int| 0 <= i < entries.len() ==> (#[trigger] entries[i]).name != name,
        },
{
    lemma_find_from(entries, name, 0);
}

proof fn lemma_find_from(entries: Seq<meta::CachedEntryModel>, name: Seq<u8>, from: int)
    requires
        0 <= from <= entries.len(),
        forall|j: int| 0 <= j < from ==> (#[trigger] entries[j]).name != name,
    ensures
        match meta::find_name(entries, name, from) {
            Some(nid) => exists|i: int|
                0 <= i < entries.len() && (#[trigger] entries[i]).name == name && entries[i].nid
                    == nid && forall|j: int|
                    0 <= j < i ==> (#[trigger] entries[j]).name != name,
            None => forall|i: int| 0 <= i < entries.len() ==> (#[trigger] entries[i]).name != name,
        },
    decreases entries.len() - from,
{
    if from < entries.len() {
        if entries[from].name == name {
            assert(entries[from].nid == meta::find_name(entries, name, from)->0);
        } else {
            lemma_find_from(entries, name, from + 1);
        }
    }
}

/// The entries of the blocks of a directory, by their numbers.
pub open spec fn blocks_of(reader: ErofsReader, nid: u64, inode: ErofsInode) -> spec_fn(
    int,
) -> Result<Seq<meta::CachedEntryModel>, ReadError> {
    |k: int| reader.dir_block(nid, inode, k)
}

/// Block `k` can be read, and no entry of it has the name.
pub open spec fn block_lacks(
    blocks: spec_fn(int) -> Result<Seq<meta::CachedEntryModel>, ReadError>,
    k: int,
    name: Seq<u8>,
) -> bool {
    blocks(k) matches Ok(block) && forall|j: int|
        0 <= j < block.len() ==> (#[trigger] block[j]).name != name
}

/// A search through blocks.
spec fn search(
    blocks: spec_fn(int) -> Result<Seq<meta::CachedEntryModel>, ReadError>,
    n: int,
    name: Seq<u8>,
    k: int,
) -> Result<Option<u64>, ReadError>
    decreases n - k,
{
    if k >= n {
        Ok(None)
    } else {
        match blocks(k) {
            Err(e) => Err(e),
            Ok(entries) => match meta::find_name(entries, name, 0) {
                Some(found) => Ok(Some(found)),
                None => search(blocks, n, name, k + 1),
            },
        }
    }
}

proof fn lemma_is_search(
    reader: ErofsReader,
    nid: u64,
    inode: ErofsInode,
    name: Seq<u8>,
    k: int,
)
    ensures
        reader.find_from(nid, inode, name, k) == search(
            blocks_of(reader, nid, inode),
            meta::dir_blocks(inode.size as int),
            name,
            k,
        ),
    decreases meta::dir_blocks(inode.size as int) - k,
{
    if k < meta::dir_blocks(inode.size as int) {
        lemma_is_search(reader, nid, inode, name, k + 1);
    }
}

proof fn lemma_search(
    blocks: spec_fn(int) -> Result<Seq<meta::CachedEntryModel>, ReadError>,
    n: int,
    name: Seq<u8>,
    from: int,
) -> (r: (int, int))
    requires
        0 <= from,
    ensures
        match search(blocks, n, name, from) {
            Ok(Some(found)) => {
                &&& from <= r.0 < n
                &&& blocks(r.0) is Ok
                &&& 0 <= r.1 < blocks(r.0)->Ok_0.len()
                &&& blocks(r.0)->Ok_0[r.1].name == name
                &&& blocks(r.0)->Ok_0[r.1].nid == found
                &&& forall|j: int|
                    0 <= j < r.1 ==> (#[trigger] blocks(r.0)->Ok_0[j]).name != name
                &&& forall|k: int| from <= k < r.0 ==> #[trigger] block_lacks(blocks, k, name)
            },
            Ok(None) => forall|k: int| from <= k < n ==> #[trigger] block_lacks(blocks, k, name),
            Err(e) => {
                &&& from <= r.0 < n
                &&& blocks(r.0) == Err::<Seq<meta::CachedEntryModel>, ReadError>(e)
                &&& forall|k: int| from <= k < r.0 ==> #[trigger] block_lacks(blocks, k, name)
            },
        },
    decreases n - from,
{
    if from >= n {
        (0, 0)
    } else {
        match blocks(from) {
            Err(_) => (from, 0),
            Ok(entries) => {
                law_lookup_is_exact(entries, name);
                match meta::find_name(entries, name, 0) {
                    Some(found) => {
                        let i = choose|i: int|
                            0 <= i < entries.len() && (#[trigger] entries[i]).name == name
                                && entries[i].nid == found && forall|j: int|
                                0 <= j < i ==> (#[trigger] entries[j]).name != name;
                        (from, i)
                    },
                    None => {
                        assert(block_lacks(blocks, from, name));
                        lemma_search(blocks, n, name, from + 1)
                    },
                }
            },
        }
    }
}

/// Looking a name up in a directory goes through its blocks in turn: it finds an
/// entry with exactly that name, the blocks before it can be read and do not have
/// the name, nor do the entries before it in its block. It finds nothing exactly
/// if all blocks can be read and none has the name. It fails at the first block
/// that cannot be read, if no block before that has the name.
pub proof fn law_directory_lookup(
    reader: ErofsReader,
    nid: u64,
    inode: ErofsInode,
    name: Seq<u8>,
) -> (r: (int, int))
    ensures
        ({
            let blocks = blocks_of(reader, nid, inode);
            match reader.find_from(nid, inode, name, 0) {
                Ok(Some(found)) => {
                    &&& 0 <= r.0 && r.0 * 4096 < inode.size
                    &&& blocks(r.0) is Ok
                    &&& 0 <= r.1 < blocks(r.0)->Ok_0.len()
                    &&& blocks(r.0)->Ok_0[r.1].name == name
                    &&& blocks(r.0)->Ok_0[r.1].nid == found
                    &&& forall|j: int|
                        0 <= j < r.1 ==> (#[trigger] blocks(r.0)->Ok_0[j]).name != name
                    &&& forall|k: int| 0 <= k < r.0 ==> #[trigger] block_lacks(blocks, k, name)
                },
                Ok(None) => forall|k: int|
                    0 <= k && k * 4096 < inode.size ==> #[trigger] block_lacks(blocks, k, name),
                Err(e) => {
                    &&& 0 <= r.0 && r.0 * 4096 < inode.size
                    &&& blocks(r.0) == Err::<Seq<meta::CachedEntryModel>, ReadError>(e)
                    &&& forall|k: int| 0 <= k < r.0 ==> #[trigger] block_lacks(blocks, k, name)
                },
            }
        }),
{
    let n = meta::dir_blocks(inode.size as int);
    lemma_is_search(reader, nid, inode, name, 0);
    lemma_search(blocks_of(reader, nid, inode), n, name, 0)
}

// ---------------------------------------------------------------------------
// File data
// ---------------------------------------------------------------------------

/// The byte at position `q` of a file whose chunks have these indexes, if it is
/// there: zero in a hole and behind the last chunk; otherwise so far into the
/// blocks of its chunk, on the blob device or, for device 0, in the image.
pub open spec fn stored_byte(
    image: Seq<u8>,
    blob: Option<Seq<u8>>,
    indexes: Seq<blobchunk::ChunkIndex>,
    chunksize: int,
    q: int,
) -> Option<u8> {
    let c = q / chunksize;
    let at = indexes[c].blkaddr * 4096 + q % chunksize;
    if c >= indexes.len() || indexes[c].blkaddr == 0xFFFF_FFFF_FFFF_FFFF {
        Some(0u8)
    } else if indexes[c].device_id == 0 {
        if at < image.len() {
            Some(image[at])
        } else {
            None
        }
    } else {
        if blob is Some && at < blob->0.len() {
            Some(blob->0[at])
        } else {
            None
        }
    }
}

/// The indexes can be stored: holes, and addresses of 48 bits.
pub open spec fn storable(indexes: Seq<blobchunk::ChunkIndex>) -> bool {
    forall|i: int|
        0 <= i < indexes.len() ==> (#[trigger] indexes[i]).blkaddr == 0xFFFF_FFFF_FFFF_FFFF
            || indexes[i].blkaddr < 0xFFFF_FFFF_FFFF
}

proof fn lemma_stored_byte(
    image: Seq<u8>,
    blob: Option<Seq<u8>>,
    indexes: Seq<blobchunk::ChunkIndex>,
    chunksize: int,
    q: int,
)
    requires
        chunksize > 0,
        q >= 0,
        storable(indexes),
    ensures
        ({
            let ci = inode::chunk_index_table(indexes);
            let byte = stored_byte(image, blob, indexes, chunksize, q);
            &&& data::byte_available(image, ci, chunksize, blob, q) <==> byte is Some
            &&& byte matches Some(b) ==> data::byte_value(image, ci, chunksize, blob, q) == b
        }),
{
    let ci = inode::chunk_index_table(indexes);
    let c = q / chunksize;
    vstd::arithmetic::div_mod::lemma_div_pos_is_pos(q, chunksize);
    assert(ci.len() == indexes.len() * 8);
    if c < indexes.len() {
        let index = indexes[c];
        roundtrip::lemma_table_index(indexes, c);
        metadata::law_chunk_index_read_back(ci, 8 * c, index.blkaddr, index.device_id);
    }
}

/// A read of chunks gives the bytes of the positions asked for, one for one, and
/// succeeds exactly if all of them are there.
pub proof fn law_chunks_are_read(
    image: Seq<u8>,
    blob: Option<Seq<u8>>,
    indexes: Seq<blobchunk::ChunkIndex>,
    chunksize: int,
    p: int,
    len: int,
)
    requires
        chunksize > 0,
        p >= 0,
        len >= 0,
        image.len() <= usize::MAX,
        storable(indexes),
    ensures
        ({
            let r = data::read_chunks(
                image,
                inode::chunk_index_table(indexes),
                chunksize,
                blob,
                p,
                len,
            );
            &&& r is Ok <==> forall|q: int|
                p <= q < p + len ==> (#[trigger] stored_byte(image, blob, indexes, chunksize, q)) is Some
            &&& r matches Ok(v) ==> v.len() == len && forall|q: int|
                p <= q < p + len ==> #[trigger] stored_byte(image, blob, indexes, chunksize, q)
                    == Some(v[q - p])
        }),
{
    let ci = inode::chunk_index_table(indexes);
    let r = data::read_chunks(image, ci, chunksize, blob, p, len);
    data::law_chunk_read_bytes(image, ci, chunksize, blob, p, len);
    assert forall|q: int| q >= 0 implies (data::byte_available(image, ci, chunksize, blob, q) <==> (
    #[trigger] stored_byte(image, blob, indexes, chunksize, q)) is Some) && (stored_byte(
        image,
        blob,
        indexes,
        chunksize,
        q,
    ) matches Some(b) ==> data::byte_value(image, ci, chunksize, blob, q) == b) by {
        lemma_stored_byte(image, blob, indexes, chunksize, q);
    }
    if r is Ok {
        assert forall|q: int| p <= q < p + len implies #[trigger] stored_byte(
            image,
            blob,
            indexes,
            chunksize,
            q,
        ) == Some(r->Ok_0[q - p]) by {
            assert(data::byte_available(image, ci, chunksize, blob, p + (q - p)));
        }
    } else if forall|q: int|
        p <= q < p + len ==> (#[trigger] stored_byte(image, blob, indexes, chunksize, q)) is Some {
        assert forall|k: int| 0 <= k < len implies #[trigger] data::byte_available(
            image,
            ci,
            chunksize,
            blob,
            p + k,
        ) by {
            assert(stored_byte(image, blob, indexes, chunksize, p + k) is Some);
        }
    }
}

/// A read inside one chunk gives what the blob device or the image gives there,
/// its errors included.
pub proof fn law_chunk_read_fails_as_its_device(
    image: Seq<u8>,
    blob: Option<Seq<u8>>,
    indexes: Seq<blobchunk::ChunkIndex>,
    chunksize: int,
    p: int,
    len: int,
)
    requires
        chunksize > 0,
        p >= 0,
        0 < len <= chunksize - p % chunksize,
        p / chunksize < indexes.len(),
        storable(indexes),
    ensures
        ({
            let index = indexes[p / chunksize];
            let at = index.blkaddr * 4096 + p % chunksize;
            let r = data::read_chunks(
                image,
                inode::chunk_index_table(indexes),
                chunksize,
                blob,
                p,
                len,
            );
            index.blkaddr != 0xFFFF_FFFF_FFFF_FFFF ==> if index.device_id == 0 {
                r == fs::image_slice(image, at, len)
            } else {
                r == data::blob_slice(blob, at, len)
            }
        }),
{
    let ci = inode::chunk_index_table(indexes);
    let c = p / chunksize;
    let index = indexes[c];
    vstd::arithmetic::div_mod::lemma_div_pos_is_pos(p, chunksize);
    assert(ci.len() == indexes.len() * 8);
    roundtrip::lemma_table_index(indexes, c);
    metadata::law_chunk_index_read_back(ci, 8 * c, index.blkaddr, index.device_id);
    let r = data::read_segment(image, ci, chunksize, blob, p, len);
    assert(data::segment_len(chunksize, p, len) == len);
    assert(data::read_chunks(image, ci, chunksize, blob, p + len, 0) == Ok::<Seq<u8>, ReadError>(
        Seq::empty(),
    ));
    if let Ok(first) = r {
        assert(first + Seq::<u8>::empty() =~= first);
    }
}

/// A read stops at the end of the file: it gives as many bytes as were asked
/// for, or as there are left. Behind the end there are none. Only flat data and
/// chunks can be read; flat data is read as it is.
pub proof fn law_reads_stop_at_the_end(
    reader: ErofsReader,
    nid: u64,
    inode: ErofsInode,
    blob: Option<Seq<u8>>,
    offset: int,
    size: int,
)
    requires
        reader.image@.len() <= usize::MAX,
        offset >= 0,
        size >= 0,
    ensures
        ({
            let r = reader.file_data(nid, inode, blob, offset, size);
            let layout = inode.format / 2 % 8;
            &&& offset >= inode.size ==> r == Ok::<Seq<u8>, ReadError>(Seq::empty())
            &&& offset < inode.size && layout != 0 && layout != 2 && layout != 4 ==> r == Err::<
                Seq<u8>,
                ReadError,
            >(ReadError::UnsupportedLayout { layout })
            &&& offset + size <= inode.size && (layout == 0 || layout == 2) && size > 0 ==> r
                == reader.flat_data(nid, inode, offset, size)
            &&& offset < inode.size < offset + size && (layout == 0 || layout == 2) ==> r
                == reader.flat_data(nid, inode, offset, inode.size - offset)
            &&& offset < inode.size < offset + size ==> r == reader.file_data(
                nid,
                inode,
                blob,
                offset,
                inode.size - offset,
            )
        }),
{
}

/// A chunk-based file is read by the indexes behind its inode. There is one for
/// each chunk, chunks are 2^(u % 32) blocks long, and a read gives the bytes of
/// the positions asked for, up to the end of the file, one for one.
pub proof fn law_chunk_file_is_read(
    reader: ErofsReader,
    nid: u64,
    inode: ErofsInode,
    blob: Option<Seq<u8>>,
    indexes: Seq<blobchunk::ChunkIndex>,
    chunksize: int,
    offset: int,
    size: int,
)
    requires
        reader.image@.len() <= usize::MAX,
        inode.format / 2 % 8 == 4,
        chunksize == vstd::arithmetic::power2::pow2(reader.spec_sb().blkszbits as nat)
            * vstd::arithmetic::power2::pow2((inode.u % 32) as nat),
        indexes.len() * chunksize >= inode.size,
        (indexes.len() - 1) * chunksize < inode.size,
        storable(indexes),
        ({
            let tail = reader.spec_sb().meta_blkaddr * 4096 + nid * 32 + inode.spec_header_size()
                + inode.spec_xattr_size();
            metadata::holds_at(reader.image@, tail, inode::chunk_index_table(indexes))
        }),
        0 <= offset < inode.size,
        0 <= size,
        offset + size <= inode.size,
    ensures
        ({
            let r = reader.file_data(nid, inode, blob, offset, size);
            &&& r is Ok <==> forall|q: int|
                offset <= q < offset + size ==> (#[trigger] stored_byte(
                    reader.image@,
                    blob,
                    indexes,
                    chunksize,
                    q,
                )) is Some
            &&& r matches Ok(v) ==> v.len() == size && forall|q: int|
                offset <= q < offset + size ==> #[trigger] stored_byte(
                    reader.image@,
                    blob,
                    indexes,
                    chunksize,
                    q,
                ) == Some(v[q - offset])
        }),
{
    let n = indexes.len() as int;
    let bits = reader.spec_sb().blkszbits as nat;
    let more = (inode.u % 32) as nat;
    vstd::arithmetic::power2::lemma_pow2_adds(bits, more);
    vstd::arithmetic::power2::lemma_pow2_pos(bits + more);
    assert(inode.spec_chunk_format() % 32 == inode.u % 32);
    assert(reader.spec_chunksize(inode) == chunksize);
    lemma_least_is_ceil(inode.size as int, chunksize, n);
    assert(reader.spec_nchunks(inode) == n);
    let ci = inode::chunk_index_table(indexes);
    assert(ci.len() == n * 8);
    assert(reader.spec_chunk_indexes(nid, inode) == Ok::<Seq<u8>, ReadError>(ci));
    law_chunks_are_read(reader.image@, blob, indexes, chunksize, offset, size);
}

/// The chunks of a chunk-based file are read by the indexes behind its inode, at
/// any position, also behind the end of the file; of any other file they are not.
pub proof fn law_chunks_of_a_file(
    reader: ErofsReader,
    nid: u64,
    inode: ErofsInode,
    blob: Option<Seq<u8>>,
    indexes: Seq<blobchunk::ChunkIndex>,
    chunksize: int,
    offset: int,
    size: int,
)
    requires
        reader.image@.len() <= usize::MAX,
        chunksize == vstd::arithmetic::power2::pow2(reader.spec_sb().blkszbits as nat)
            * vstd::arithmetic::power2::pow2((inode.u % 32) as nat),
        indexes.len() * chunksize >= inode.size,
        (indexes.len() - 1) * chunksize < inode.size,
        storable(indexes),
        ({
            let tail = reader.spec_sb().meta_blkaddr * 4096 + nid * 32 + inode.spec_header_size()
                + inode.spec_xattr_size();
            metadata::holds_at(reader.image@, tail, inode::chunk_index_table(indexes))
        }),
        0 <= offset,
        0 <= size,
    ensures
        ({
            let r = reader.chunk_read(nid, inode, blob, offset, size);
            &&& inode.format / 2 % 8 != 4 ==> r == Err::<Seq<u8>, ReadError>(
                ReadError::NotChunkBased,
            )
            &&& inode.format / 2 % 8 == 4 ==> {
                &&& r is Ok <==> forall|q: int|
                    offset <= q < offset + size ==> (#[trigger] stored_byte(
                        reader.image@,
                        blob,
                        indexes,
                        chunksize,
                        q,
                    )) is Some
                &&& r matches Ok(v) ==> v.len() == size && forall|q: int|
                    offset <= q < offset + size ==> #[trigger] stored_byte(
                        reader.image@,
                        blob,
                        indexes,
                        chunksize,
                        q,
                    ) == Some(v[q - offset])
            }
        }),
{
    let n = indexes.len() as int;
    let bits = reader.spec_sb().blkszbits as nat;
    let more = (inode.u % 32) as nat;
    vstd::arithmetic::power2::lemma_pow2_adds(bits, more);
    vstd::arithmetic::power2::lemma_pow2_pos(bits + more);
    assert(inode.spec_chunk_format() % 32 == inode.u % 32);
    assert(reader.spec_chunksize(inode) == chunksize);
    lemma_least_is_ceil(inode.size as int, chunksize, n);
    assert(reader.spec_nchunks(inode) == n);
    let ci = inode::chunk_index_table(indexes);
    assert(ci.len() == n * 8);
    if inode.format / 2 % 8 == 4 {
        assert(reader.spec_chunk_indexes(nid, inode) == Ok::<Seq<u8>, ReadError>(ci));
        law_chunks_are_read(reader.image@, blob, indexes, chunksize, offset, size);
    }
}

/// A file can be read if its inode has an address, its chunk indexes would fit
/// into memory even with chunks of one byte, and a chunk size is a number of 64
/// bits.
pub proof fn law_ordinary_files_can_be_read(
    reader: ErofsReader,
    nid: u64,
    inode: ErofsInode,
    offset: u64,
)
    requires
        reader.spec_sb().meta_blkaddr * 4096 + nid * 32 + inode.spec_header_size()
            + inode.spec_xattr_size() <= usize::MAX,
        reader.spec_sb().blkszbits + inode.u % 32 < 64,
        inode.size * 8 <= usize::MAX,
    ensures
        reader.nid_fits(nid),
        reader.geometry_fits(nid, inode),
        reader.read_fits(nid, inode, offset),
{
    let bits = (reader.spec_sb().blkszbits + inode.u % 32) as nat;
    let cs = vstd::arithmetic::power2::pow2(bits) as int;
    let size = inode.size as int;
    assert(inode.spec_chunk_format() % 32 == inode.u % 32);
    vstd::arithmetic::power2::lemma_pow2_pos(bits);
    assert(ondisk::ceil_div(size, cs) <= size) by {
        vstd::arithmetic::mul::lemma_mul_inequality(1, cs, size);
        vstd::arithmetic::mul::lemma_mul_is_commutative(size, cs);
        vstd::arithmetic::div_mod::lemma_div_is_ordered(size + cs - 1, size * cs + (cs - 1), cs);
        vstd::arithmetic::div_mod::lemma_fundamental_div_mod_converse(
            size * cs + (cs - 1),
            cs,
            size,
            cs - 1,
        );
    }
}

pub proof fn lemma_least_is_ceil(a: int, b: int, n: int)
    requires
        b > 0,
        n * b >= a,
        (n - 1) * b < a,
    ensures
        ondisk::ceil_div(a, b) == n,
{
    vstd::arithmetic::mul::lemma_mul_is_distributive_sub_other_way(b, n, 1);
    vstd::arithmetic::div_mod::lemma_fundamental_div_mod_converse(
        a + b - 1,
        b,
        n,
        a + b - 1 - n * b,
    );
}

// ---------------------------------------------------------------------------
// Extended attributes
// ---------------------------------------------------------------------------

/// An entry of extended attributes gives its value, and its name behind the
/// prefix that its index stands for: 1 "user.", 2 "system.posix_acl_access", 3
/// "system.posix_acl_default", 4 "trusted." and 6 "security.". Any other index
/// gives nothing.
pub proof fn law_xattr_entry(s: Seq<u8>, at: int, name: Seq<u8>, value: Seq<u8>)
    requires
        0 <= at,
        at + 4 + name.len() + value.len() <= s.len(),
        s[at] == name.len(),
        value.len() < 0x1_0000,
        s.subrange(at + 2, at + 4) == bytes::le16(value.len() as u16),
        s.subrange(at + 4, at + 4 + name.len()) == name,
        s.subrange(at + 4 + name.len(), at + 4 + name.len() + value.len()) == value,
    ensures
        xattr::entry_valid(s, at),
        xattr::entry_len(s, at) == 4 + name.len() + value.len(),
        ({
            let x = xattr::entry_xattrs(s, at);
            let known = s[at + 1] == 1 || s[at + 1] == 2 || s[at + 1] == 3 || s[at + 1] == 4
                || s[at + 1] == 6;
            &&& !known ==> x.len() == 0
            &&& known ==> x.len() == 1 && x[0].value == value && x[0].name.len() >= name.len()
                && x[0].name.skip(x[0].name.len() - name.len()) == name
            &&& s[at + 1] == 1 ==> x[0].name == seq![117u8, 115, 101, 114, 46] + name
            &&& s[at + 1] == 2 ==> x[0].name == seq![
                115u8, 121, 115, 116, 101, 109, 46, 112, 111, 115, 105, 120, 95, 97, 99, 108, 95,
                97, 99, 99, 101, 115, 115,
            ] + name
            &&& s[at + 1] == 3 ==> x[0].name == seq![
                115u8, 121, 115, 116, 101, 109, 46, 112, 111, 115, 105, 120, 95, 97, 99, 108, 95,
                100, 101, 102, 97, 117, 108, 116,
            ] + name
            &&& s[at + 1] == 4 ==> x[0].name == seq![116u8, 114, 117, 115, 116, 101, 100, 46] + name
            &&& s[at + 1] == 6 ==> x[0].name == seq![
                115u8, 101, 99, 117, 114, 105, 116, 121, 46,
            ] + name
        }),
{
    bytes::lemma_get16(s, at + 2, value.len() as u16);
    let x = xattr::entry_xattrs(s, at);
    if let Some(prefix) = xattr::name_prefix(s[at + 1]) {
        assert(x[0].name == prefix + name);
        assert((prefix + name).skip(prefix.len() as int) =~= name);
    }
}

/// The entries of extended attributes follow one another at multiples of 4
/// bytes, and the list ends where they do.
pub proof fn law_xattr_entries(s: Seq<u8>, at: int, next: int)
    requires
        0 <= at < s.len(),
        at + 4 <= s.len(),
        at + xattr::entry_len(s, at) <= s.len(),
        (next - at) % 4 == 0,
        xattr::entry_len(s, at) <= next - at < xattr::entry_len(s, at) + 4,
    ensures
        match xattr::inline_xattrs(s, next) {
            Ok(rest) => xattr::inline_xattrs(s, at) == Ok::<Seq<xattr::XattrModel>, ReadError>(
                xattr::entry_xattrs(s, at) + rest,
            ),
            Err(e) => xattr::inline_xattrs(s, at) == Err::<Seq<xattr::XattrModel>, ReadError>(e),
        },
        xattr::inline_xattrs(s, s.len() as int) == Ok::<Seq<xattr::XattrModel>, ReadError>(
            Seq::empty(),
        ),
{
    assert(next == at + xattr::round_up_4(xattr::entry_len(s, at)));
}

/// Entries that do not stand in the area are no attributes.
pub proof fn law_xattr_entry_cut_off(s: Seq<u8>, at: int)
    requires
        0 <= at < s.len(),
    ensures
        at + 4 > s.len() || at + 4 + s[at] + s[at + 2] + 256 * s[at + 3] > s.len()
            ==> xattr::inline_xattrs(s, at) == Err::<Seq<xattr::XattrModel>, ReadError>(
            ReadError::CorruptXattrs,
        ),
{
}

/// An inode without extended attributes has none; otherwise its own ones follow
/// the 12-byte head and the numbers of the shared ones, which come after them.
pub proof fn law_xattrs_of_an_inode(
    reader: ErofsReader,
    nid: u64,
    inode: ErofsInode,
    area: Seq<u8>,
)
    requires
        reader.image@.len() <= usize::MAX,
    ensures
        inode.xattr_icount == 0 ==> reader.xattrs(nid, inode) == Ok::<
            Seq<xattr::XattrModel>,
            ReadError,
        >(Seq::empty()),
        ({
            let at = reader.spec_sb().meta_blkaddr * 4096 + nid * 32 + inode.spec_header_size();
            let size = 8 + 4 * inode.xattr_icount;
            &&& inode.xattr_icount > 0 && at + size > reader.image@.len() ==> reader.xattrs(
                nid,
                inode,
            ) is Err
            &&& inode.xattr_icount > 0 && at + size <= reader.image@.len() && area
                == reader.image@.subrange(at, at + size) ==> if 12 + 4 * area[4] > size {
                reader.xattrs(nid, inode) == Err::<Seq<xattr::XattrModel>, ReadError>(
                    ReadError::CorruptXattrs,
                )
            } else {
                match (
                    xattr::inline_xattrs(area, 12 + 4 * area[4]),
                    reader.shared_xattrs(area, area[4] as nat),
                ) {
                    (Ok(own), Ok(shared)) => reader.xattrs(nid, inode) == Ok::<
                        Seq<xattr::XattrModel>,
                        ReadError,
                    >(own + shared),
                    (Err(e), _) => reader.xattrs(nid, inode) == Err::<
                        Seq<xattr::XattrModel>,
                        ReadError,
                    >(e),
                    (_, Err(e)) => reader.xattrs(nid, inode) == Err::<
                        Seq<xattr::XattrModel>,
                        ReadError,
                    >(e),
                }
            }
        }),
{
    assert(12 + 4 * (inode.xattr_icount - 1) <= usize::MAX);
}

/// Shared attribute `id` stands 4 * `id` bytes into the area of shared ones, and
/// can be read exactly if its entry stands in the image. The numbers of the
/// shared attributes of an inode are taken in turn, 4 bytes each, behind the
/// 12-byte head.
pub proof fn law_shared_xattrs(reader: ErofsReader, id: u32, area: Seq<u8>, n: nat)
    requires
        reader.image@.len() <= usize::MAX,
    ensures
        ({
            let at = reader.spec_sb().xattr_blkaddr * 4096 + id * 4;
            let len = 4 + reader.image@[at] + reader.image@[at + 2] + 256 * reader.image@[at + 3];
            &&& reader.shared_xattr(id) is Ok <==> at + 4 <= reader.image@.len() && at + len
                <= reader.image@.len()
            &&& reader.shared_xattr(id) matches Ok(x) ==> x == xattr::entry_xattrs(
                reader.image@.subrange(at, at + len),
                0,
            )
        }),
        reader.shared_xattrs(area, 0) == Ok::<Seq<xattr::XattrModel>, ReadError>(Seq::empty()),
        match (
            reader.shared_xattrs(area, n),
            reader.shared_xattr(bytes::get32(area, 12 + 4 * (n as int))),
        ) {
            (Ok(before), Ok(more)) => reader.shared_xattrs(area, n + 1) == Ok::<
                Seq<xattr::XattrModel>,
                ReadError,
            >(before + more),
            (Err(e), _) => reader.shared_xattrs(area, n + 1) == Err::<
                Seq<xattr::XattrModel>,
                ReadError,
            >(e),
            (_, Err(e)) => reader.shared_xattrs(area, n + 1) == Err::<
                Seq<xattr::XattrModel>,
                ReadError,
            >(e),
        },
{
}

} // verus!
