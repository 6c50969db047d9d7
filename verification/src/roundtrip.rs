//! What the writing side stores, the reading side gives back.
use crate::blobchunk;
use crate::bytes;
use crate::fs::data;
use crate::fs::fuse;
use crate::fs::{ErofsReader, ReadError};
use crate::inode;
use crate::metadata;
use crate::ondisk;
use crate::ondisk::EROFS_BLKSZBITS;
use crate::tree;
use vstd::prelude::*;

verus! {

/// The image of `reader` holds the serialized inode `m` where `nid` says.
pub open spec fn inode_stored(
    reader: ErofsReader,
    nid: u64,
    m: inode::InodeModel,
    epoch: u64,
    chunkbits: u32,
) -> bool {
    &&& reader.wf()
    &&& reader.image@.len() <= usize::MAX
    &&& reader.nid_fits(nid)
    &&& metadata::holds_inode(reader.image@, reader.inode_offset(nid), m, epoch, chunkbits)
}

/// Where the parts of a stored inode are.
proof fn lemma_inode_parts(
    reader: ErofsReader,
    nid: u64,
    m: inode::InodeModel,
    epoch: u64,
    chunkbits: u32,
)
    requires
        inode_stored(reader, nid, m, epoch, chunkbits),
    ensures
        ({
            let stored = metadata::stored_inode(m, epoch, chunkbits);
            &&& reader.image@.len() <= usize::MAX
            &&& reader.spec_inode(nid) == Ok::<metadata::ErofsInode, ReadError>(stored)
            &&& stored.spec_data_layout() == m.datalayout()
            &&& metadata::holds_at(reader.image@, reader.tail_offset(nid, stored), m.tail())
        }),
{
    let at = reader.inode_offset(nid);
    metadata::lemma_holds_inode(reader.image@, at, m, epoch, chunkbits);
    assert(metadata::inode_at(reader.image@, at).format == bytes::get16(reader.image@, at));
}

/// A stored inode is found under its NID.
pub proof fn law_inode_found(
    reader: ErofsReader,
    nid: u64,
    m: inode::InodeModel,
    epoch: u64,
    chunkbits: u32,
)
    requires
        inode_stored(reader, nid, m, epoch, chunkbits),
    ensures
        reader.spec_inode(nid) == Ok::<metadata::ErofsInode, ReadError>(
            metadata::stored_inode(m, epoch, chunkbits),
        ),
{
    lemma_inode_parts(reader, nid, m, epoch, chunkbits);
}

/// The header of a symbolic link keeps a size of 32 bits, and no start block.
proof fn lemma_symlink_header(m: inode::InodeModel, epoch: u64, chunkbits: u32)
    requires
        m.data is Symlink,
        m.size <= 4096,
    ensures
        metadata::stored_inode(m, epoch, chunkbits).size == m.size,
        metadata::stored_inode(m, epoch, chunkbits).spec_startblk() == 0,
{
}

/// Inline data of at most a block is read from behind the header.
proof fn lemma_inline_read(
    reader: ErofsReader,
    nid: u64,
    inode: metadata::ErofsInode,
    target: Seq<u8>,
)
    requires
        reader.image@.len() <= usize::MAX,
        inode.spec_data_layout() == ondisk::EROFS_INODE_FLAT_INLINE,
        inode.size == target.len() <= 4096,
        inode.spec_startblk() == 0,
        metadata::holds_at(reader.image@, reader.tail_offset(nid, inode), target),
    ensures
        reader.symlink_target(nid, inode) == Ok::<Seq<u8>, ReadError>(target),
{
    if inode.size == 0 {
        assert(reader.image@.subrange(0, 0) =~= target);
    } else {
        assert(ErofsReader::inline_start(inode) == 0);
    }
}

/// The target of a stored symbolic link is read back, if it has at most a block.
pub proof fn law_symlink_read_back(
    reader: ErofsReader,
    nid: u64,
    m: inode::InodeModel,
    epoch: u64,
    chunkbits: u32,
)
    requires
        inode_stored(reader, nid, m, epoch, chunkbits),
        m.data is Symlink,
        m.size == m.data->target.len(),
        m.size <= 4096,
    ensures
        reader.symlink_target(nid, metadata::stored_inode(m, epoch, chunkbits)) == Ok::<
            Seq<u8>,
            ReadError,
        >(m.data->target),
{
    lemma_inode_parts(reader, nid, m, epoch, chunkbits);
    lemma_symlink_header(m, epoch, chunkbits);
    lemma_inline_read(
        reader,
        nid,
        metadata::stored_inode(m, epoch, chunkbits),
        m.data->target,
    );
}

/// Index `i` of a serialized table stands 8 bytes behind index `i - 1`.
pub proof fn lemma_table_index(indexes: Seq<blobchunk::ChunkIndex>, i: int)
    requires
        0 <= i < indexes.len(),
    ensures
        metadata::holds_at(
            inode::chunk_index_table(indexes),
            8 * i,
            ondisk::chunk_index(indexes[i].blkaddr, indexes[i].device_id),
        ),
{
    let table = inode::chunk_index_table(indexes);
    let b = ondisk::chunk_index(indexes[i].blkaddr, indexes[i].device_id);
    assert(b.len() == 8);
    assert(table.subrange(8 * i, 8 * i + 8) =~= b) by {
        assert forall|k: int| 0 <= k < 8 implies #[trigger] table.subrange(8 * i, 8 * i + 8)[k]
            == b[k] by {
            assert((8 * i + k) / 8 == i && (8 * i + k) % 8 == k);
        }
    }
}

/// The chunk format of an inode gives its chunk bits back.
proof fn lemma_chunk_bits_kept(chunkbits: u32)
    requires
        12 <= chunkbits < 44,
    ensures
        inode::chunk_format_bits(chunkbits, 12) % 32 == chunkbits - 12,
        inode::chunk_format_bits(chunkbits, 12) as u32 % 0x1_0000 == inode::chunk_format_bits(
            chunkbits,
            12,
        ),
{
    let bits: u16 = (chunkbits - 12) as u16;
    assert(bits < 32 ==> (0x20u16 | bits) == 32 + bits) by (bit_vector);
}

/// The position `p` of a file is `p % chunksize` bytes into chunk
/// `p / chunksize`.
proof fn lemma_position_in_chunk(data: Seq<u8>, chunksize: int, p: int)
    requires
        chunksize > 0,
        0 <= p < data.len(),
    ensures
        0 <= p / chunksize < blobchunk::chunk_count(data.len() as int, chunksize),
        0 <= p % chunksize < blobchunk::chunk_length(data.len() as int, chunksize, p / chunksize),
        blobchunk::chunk_data(data, chunksize, p / chunksize)[p % chunksize] == data[p],
{
    let len = data.len() as int;
    let q = p / chunksize;
    let n = blobchunk::chunk_count(len, chunksize);
    vstd::arithmetic::div_mod::lemma_fundamental_div_mod(p, chunksize);
    vstd::arithmetic::div_mod::lemma_mod_bound(p, chunksize);
    vstd::arithmetic::mul::lemma_mul_is_commutative(chunksize, q);
    vstd::arithmetic::div_mod::lemma_div_pos_is_pos(p, chunksize);
    vstd::arithmetic::div_mod::lemma_div_is_ordered(p, len - 1, chunksize);
    vstd::arithmetic::div_mod::lemma_div_plus_one(len - 1, chunksize);
    assert(q < n);
    blobchunk::lemma_chunk_bounds(len, chunksize, q);
}

/// A file whose chunks `st` has placed: the inode `m` has their indexes.
pub open spec fn file_of(
    m: inode::InodeModel,
    st: blobchunk::BlobState,
    file: Seq<u8>,
) -> bool {
    let n = blobchunk::chunk_count(file.len() as int, st.chunksize as int) as nat;
    &&& m.data == (inode::DataModel::RegularFile { chunk_indexes: st.chunk_indexes(file, n) })
    &&& m.size == file.len()
    &&& m.is_extended || m.size < 0x1_0000_0000
}

/// `whole` is a blob device that had `blob` on it, with the chunks of `known`,
/// when a writer in state `st` appended the chunks of `file` to it. More may
/// follow. All its addresses have 48 bits.
pub open spec fn blob_holds_file(
    whole: Seq<u8>,
    st: blobchunk::BlobState,
    blob: Seq<u8>,
    known: Set<Seq<u8>>,
    file: Seq<u8>,
) -> bool {
    let n = blobchunk::chunk_count(file.len() as int, st.chunksize as int) as nat;
    let filled = blob + st.blob_data(file, n);
    &&& blobchunk::device_matches(st, blob, known)
    &&& blobchunk::hashes_distinct(
        known.union(blobchunk::chunks_of(file, st.chunksize as int, n)),
    )
    &&& st.room(blobchunk::file_blocks(file.len() as int, st.chunksize as int, n))
    &&& st.add_chunks(file, n).next_blkaddr <= 0x1_0000_0000_0000
    &&& filled.is_prefix_of(whole)
}

/// Chunk `c` of a stored file has an address of 48 bits and stands there.
proof fn lemma_chunk_on_device(
    whole: Seq<u8>,
    st: blobchunk::BlobState,
    blob: Seq<u8>,
    known: Set<Seq<u8>>,
    file: Seq<u8>,
    c: int,
)
    requires
        st.chunksize > 0,
        blob_holds_file(whole, st, blob, known, file),
        0 <= c < blobchunk::chunk_count(file.len() as int, st.chunksize as int),
    ensures
        st.index_of_chunk(file, c).blkaddr < 0x1_0000_0000_0000,
        blobchunk::stored_at(
            whole,
            st.index_of_chunk(file, c).blkaddr,
            blobchunk::padded(blobchunk::chunk_data(file, st.chunksize as int, c)),
        ),
{
    let cs = st.chunksize as int;
    let n = blobchunk::chunk_count(file.len() as int, cs) as nat;
    let filled = blob + st.blob_data(file, n);
    let chunk = blobchunk::chunk_data(file, cs, c);
    let addr = st.chunk_indexes(file, n)[c].blkaddr;
    blobchunk::lemma_chunk_bounds(file.len() as int, cs, c);
    blobchunk::law_chunks_stored(st, blob, known, file, n);
    assert(blobchunk::stored_at(filled, addr, blobchunk::padded(chunk)));
    assert(filled.len() == st.add_chunks(file, n).next_blkaddr * 4096);
    blobchunk::lemma_stored_kept(filled, whole, addr, blobchunk::padded(chunk));
}

/// The index of chunk `c` is read back from the serialized table.
proof fn lemma_table_entry(st: blobchunk::BlobState, file: Seq<u8>, n: nat, c: int)
    requires
        0 <= c < n,
        st.index_of_chunk(file, c).blkaddr < 0x1_0000_0000_0000,
    ensures
        metadata::chunk_index_at(inode::chunk_index_table(st.chunk_indexes(file, n)), 8 * c)
            == st.index_of_chunk(file, c),
{
    let indexes = st.chunk_indexes(file, n);
    let addr = indexes[c].blkaddr;
    lemma_table_index(indexes, c);
    metadata::law_chunk_index_read_back(
        inode::chunk_index_table(indexes),
        8 * c,
        addr,
        indexes[c].device_id,
    );
}

/// Reading position `p` through the index of its chunk.
proof fn lemma_byte_by_index(
    ci: Seq<u8>,
    chunksize: int,
    whole: Seq<u8>,
    image: Seq<u8>,
    index: blobchunk::ChunkIndex,
    chunk: Seq<u8>,
    p: int,
)
    requires
        chunksize > 0,
        0 <= p / chunksize < ci.len() as int / 8,
        0 <= p % chunksize < chunk.len(),
        metadata::chunk_index_at(ci, 8 * (p / chunksize)) == index,
        index.blkaddr < 0x1_0000_0000_0000,
        index.device_id > 0,
        blobchunk::stored_at(whole, index.blkaddr, chunk),
    ensures
        data::byte_available(image, ci, chunksize, Some(whole), p),
        data::byte_value(image, ci, chunksize, Some(whole), p) == chunk[p % chunksize],
{
    let a = index.blkaddr * 4096;
    let r = p % chunksize;
    assert(data::byte_source(ci, chunksize, p) == data::ByteSource::Blob(a + r));
    assert(whole.subrange(a, a + chunk.len())[r] == whole[a + r]);
}

/// What the byte at position `p` of a stored file is.
proof fn lemma_file_byte(
    whole: Seq<u8>,
    st: blobchunk::BlobState,
    blob: Seq<u8>,
    known: Set<Seq<u8>>,
    file: Seq<u8>,
    image: Seq<u8>,
    p: int,
)
    requires
        st.chunksize > 0,
        blob_holds_file(whole, st, blob, known, file),
        0 <= p < file.len(),
    ensures
        ({
            let n = blobchunk::chunk_count(file.len() as int, st.chunksize as int) as nat;
            let ci = inode::chunk_index_table(st.chunk_indexes(file, n));
            &&& data::byte_available(image, ci, st.chunksize as int, Some(whole), p)
            &&& data::byte_value(image, ci, st.chunksize as int, Some(whole), p) == file[p]
        }),
{
    let cs = st.chunksize as int;
    let n = blobchunk::chunk_count(file.len() as int, cs) as nat;
    let ci = inode::chunk_index_table(st.chunk_indexes(file, n));
    let c = p / cs;
    lemma_position_in_chunk(file, cs, p);
    lemma_chunk_on_device(whole, st, blob, known, file, c);
    lemma_table_entry(st, file, n, c);
    let chunk = blobchunk::chunk_data(file, cs, c);
    blobchunk::lemma_chunk_bounds(file.len() as int, cs, c);
    blobchunk::lemma_stored_data(whole, st.index_of_chunk(file, c).blkaddr, chunk);
    assert(ci.len() == n * 8);
    lemma_byte_by_index(ci, cs, whole, image, st.index_of_chunk(file, c), chunk, p);
}

/// The chunk indexes of a stored file are found, and its chunk size.
proof fn lemma_indexes_found(
    reader: ErofsReader,
    nid: u64,
    m: inode::InodeModel,
    epoch: u64,
    chunkbits: u32,
    st: blobchunk::BlobState,
    file: Seq<u8>,
)
    requires
        inode_stored(reader, nid, m, epoch, chunkbits),
        reader.spec_sb().blkszbits == EROFS_BLKSZBITS,
        chunkbits >= 12,
        st.chunksize == vstd::arithmetic::power2::pow2(chunkbits as nat),
        file_of(m, st, file),
        file.len() > 0,
    ensures
        ({
            let stored = metadata::stored_inode(m, epoch, chunkbits);
            let n = blobchunk::chunk_count(file.len() as int, st.chunksize as int) as nat;
            &&& reader.image@.len() <= usize::MAX
            &&& st.chunksize > 0
            &&& stored.size == file.len()
            &&& stored.spec_data_layout() == ondisk::EROFS_INODE_CHUNK_BASED
            &&& reader.spec_chunksize(stored) == st.chunksize
            &&& reader.spec_chunk_indexes(nid, stored) == Ok::<Seq<u8>, ReadError>(
                inode::chunk_index_table(st.chunk_indexes(file, n)),
            )
        }),
{
    let cs = st.chunksize as int;
    let n = blobchunk::chunk_count(file.len() as int, cs) as nat;
    let stored = metadata::stored_inode(m, epoch, chunkbits);
    let ci = inode::chunk_index_table(st.chunk_indexes(file, n));
    lemma_inode_parts(reader, nid, m, epoch, chunkbits);
    vstd::arithmetic::power2::lemma2_to64();
    if chunkbits >= 32 {
        if chunkbits > 32 {
            vstd::arithmetic::power2::lemma_pow2_strictly_increases(32, chunkbits as nat);
        }
        assert(false);
    }
    lemma_chunk_bits_kept(chunkbits);
    assert(reader.spec_chunkbits(stored) == chunkbits);
    vstd::arithmetic::power2::lemma_pow2_pos(chunkbits as nat);
    assert(reader.spec_nchunks(stored) == n);
    assert(m.tail() == ci);
    assert(ci.len() == n * 8);
}

/// Any part of a stored file is read from its chunks.
proof fn lemma_chunks_read(
    whole: Seq<u8>,
    st: blobchunk::BlobState,
    blob: Seq<u8>,
    known: Set<Seq<u8>>,
    file: Seq<u8>,
    image: Seq<u8>,
    offset: int,
    len: int,
)
    requires
        st.chunksize > 0,
        image.len() <= usize::MAX,
        blob_holds_file(whole, st, blob, known, file),
        0 <= offset,
        0 <= len <= file.len() - offset,
    ensures
        ({
            let n = blobchunk::chunk_count(file.len() as int, st.chunksize as int) as nat;
            let ci = inode::chunk_index_table(st.chunk_indexes(file, n));
            data::read_chunks(image, ci, st.chunksize as int, Some(whole), offset, len) == Ok::<
                Seq<u8>,
                ReadError,
            >(file.subrange(offset, offset + len))
        }),
{
    let cs = st.chunksize as int;
    let n = blobchunk::chunk_count(file.len() as int, cs) as nat;
    let ci = inode::chunk_index_table(st.chunk_indexes(file, n));
    data::law_chunk_read_bytes(image, ci, cs, Some(whole), offset, len);
    assert forall|k: int| 0 <= k < len implies #[trigger] data::byte_available(
        image,
        ci,
        cs,
        Some(whole),
        offset + k,
    ) && data::byte_value(image, ci, cs, Some(whole), offset + k) == file[offset + k] by {
        lemma_file_byte(whole, st, blob, known, file, image, offset + k);
    }
    let v = data::read_chunks(image, ci, cs, Some(whole), offset, len)->Ok_0;
    assert forall|k: int| 0 <= k < len implies #[trigger] v[k] == file.subrange(
        offset,
        offset + len,
    )[k] by {
        assert(data::byte_available(image, ci, cs, Some(whole), offset + k));
    }
    assert(v =~= file.subrange(offset, offset + len));
}

/// A stored file is read back byte for byte: a read gives the bytes from
/// `offset` on, as many as were asked for or as the file has. This holds for as
/// long as no two distinct chunks of the blob device have the same hash.
pub proof fn law_file_read_back(
    reader: ErofsReader,
    nid: u64,
    m: inode::InodeModel,
    epoch: u64,
    chunkbits: u32,
    whole: Seq<u8>,
    st: blobchunk::BlobState,
    blob: Seq<u8>,
    known: Set<Seq<u8>>,
    file: Seq<u8>,
    offset: int,
    size: int,
)
    requires
        inode_stored(reader, nid, m, epoch, chunkbits),
        reader.spec_sb().blkszbits == EROFS_BLKSZBITS,
        chunkbits >= 12,
        st.chunksize == vstd::arithmetic::power2::pow2(chunkbits as nat),
        file_of(m, st, file),
        blob_holds_file(whole, st, blob, known, file),
        0 <= offset,
        0 <= size,
    ensures
        reader.file_data(
            nid,
            metadata::stored_inode(m, epoch, chunkbits),
            Some(whole),
            offset,
            size,
        ) == Ok::<Seq<u8>, ReadError>(
            if offset >= file.len() {
                Seq::empty()
            } else if offset + size <= file.len() {
                file.subrange(offset, offset + size)
            } else {
                file.subrange(offset, file.len() as int)
            },
        ),
{
    let stored = metadata::stored_inode(m, epoch, chunkbits);
    if file.len() > 0 {
        lemma_indexes_found(reader, nid, m, epoch, chunkbits, st, file);
        if offset < file.len() {
            let len = if size <= file.len() - offset {
                size
            } else {
                file.len() - offset
            };
            lemma_chunks_read(whole, st, blob, known, file, reader.image@, offset, len);
        }
    } else {
        assert(stored.size == 0);
    }
}

/// A writer for an empty device.
pub open spec fn empty_device(chunksize: u32) -> blobchunk::BlobState {
    blobchunk::BlobState { chunksize, next_blkaddr: 0, dedup: Map::empty(), saved: 0 }
}

/// Number of chunks of a file.
pub open spec fn chunks_in(chunksize: u32, file: Seq<u8>) -> nat {
    blobchunk::chunk_count(file.len() as int, chunksize as int) as nat
}

/// The state of a writer after the first `n` files.
pub open spec fn device_state(chunksize: u32, files: Seq<Seq<u8>>, n: nat) -> blobchunk::BlobState
    decreases n,
{
    if n == 0 {
        empty_device(chunksize)
    } else {
        device_state(chunksize, files, (n - 1) as nat).add_chunks(
            files[n - 1],
            chunks_in(chunksize, files[n - 1]),
        )
    }
}

/// The device after the first `n` files.
pub open spec fn device_bytes(chunksize: u32, files: Seq<Seq<u8>>, n: nat) -> Seq<u8>
    decreases n,
{
    if n == 0 {
        Seq::empty()
    } else {
        device_bytes(chunksize, files, (n - 1) as nat) + device_state(
            chunksize,
            files,
            (n - 1) as nat,
        ).blob_data(files[n - 1], chunks_in(chunksize, files[n - 1]))
    }
}

/// The distinct chunks of the first `n` files.
pub open spec fn device_chunks(chunksize: u32, files: Seq<Seq<u8>>, n: nat) -> Set<Seq<u8>>
    decreases n,
{
    if n == 0 {
        Set::empty()
    } else {
        device_chunks(chunksize, files, (n - 1) as nat).union(
            blobchunk::chunks_of(
                files[n - 1],
                chunksize as int,
                chunks_in(chunksize, files[n - 1]),
            ),
        )
    }
}

/// The device has room for each of the first `n` files in turn.
pub open spec fn device_rooms(chunksize: u32, files: Seq<Seq<u8>>, n: nat) -> bool {
    forall|j: int|
        0 <= j < n ==> (#[trigger] device_state(chunksize, files, j as nat)).room(
            blobchunk::file_blocks(
                files[j].len() as int,
                chunksize as int,
                chunks_in(chunksize, files[j]),
            ),
        )
}

/// The device has room for the first `n` files, and its addresses have 48 bits.
pub open spec fn device_fits(chunksize: u32, files: Seq<Seq<u8>>, n: nat) -> bool {
    &&& device_rooms(chunksize, files, n)
    &&& device_state(chunksize, files, n).next_blkaddr <= 0x1_0000_0000_0000
}

/// A part of a set without equal hashes has none either.
proof fn lemma_distinct_subset(small: Set<Seq<u8>>, large: Set<Seq<u8>>)
    requires
        small.subset_of(large),
        blobchunk::hashes_distinct(large),
    ensures
        blobchunk::hashes_distinct(small),
{
    assert forall|a: Seq<u8>, b: Seq<u8>|
        small.contains(a) && small.contains(b) && #[trigger] blobchunk::blake3_digest(a)
            == #[trigger] blobchunk::blake3_digest(b) implies a == b by {
        assert(large.contains(a) && large.contains(b));
    }
}

/// The device stays in step with its writer from file to file.
proof fn lemma_device_in_step(chunksize: u32, files: Seq<Seq<u8>>, n: nat)
    requires
        chunksize > 0,
        n <= files.len(),
        device_fits(chunksize, files, n),
        blobchunk::hashes_distinct(device_chunks(chunksize, files, n)),
    ensures
        device_state(chunksize, files, n).chunksize == chunksize,
        blobchunk::device_matches(
            device_state(chunksize, files, n),
            device_bytes(chunksize, files, n),
            device_chunks(chunksize, files, n),
        ),
        n > 0 ==> device_fits(chunksize, files, (n - 1) as nat),
    decreases n,
{
    if n > 0 {
        let m = (n - 1) as nat;
        let st = device_state(chunksize, files, m);
        let file = files[n - 1];
        let count = chunks_in(chunksize, file);
        lemma_device_chunksize(chunksize, files, m);
        blobchunk::lemma_add_chunks_room(st, file, count);
        lemma_distinct_subset(
            device_chunks(chunksize, files, m),
            device_chunks(chunksize, files, n),
        );
        assert(st.room(blobchunk::file_blocks(file.len() as int, chunksize as int, count)));
        lemma_device_in_step(chunksize, files, m);
        blobchunk::law_chunks_stored(
            st,
            device_bytes(chunksize, files, m),
            device_chunks(chunksize, files, m),
            file,
            count,
        );
    }
}

proof fn lemma_device_chunksize(chunksize: u32, files: Seq<Seq<u8>>, n: nat)
    requires
        chunksize > 0,
    ensures
        device_state(chunksize, files, n).chunksize == chunksize,
    decreases n,
{
    if n > 0 {
        lemma_device_chunksize(chunksize, files, (n - 1) as nat);
        lemma_chunk_count_positive(chunksize, files[n - 1]);
        blobchunk::lemma_add_chunks_room(
            device_state(chunksize, files, (n - 1) as nat),
            files[n - 1],
            chunks_in(chunksize, files[n - 1]),
        );
    }
}

proof fn lemma_chunk_count_positive(chunksize: u32, file: Seq<u8>)
    requires
        chunksize > 0,
    ensures
        blobchunk::chunk_count(file.len() as int, chunksize as int) >= 0,
{
    if file.len() > 0 {
        vstd::arithmetic::div_mod::lemma_div_pos_is_pos(
            file.len() + chunksize - 1,
            chunksize as int,
        );
    }
}

/// Whatever files are written to an empty device one behind the other, the
/// device holds each of them in the end, so that `law_file_read_back` applies:
/// as long as no two distinct chunks have the same hash.
pub proof fn law_device_holds_every_file(
    chunksize: u32,
    files: Seq<Seq<u8>>,
    n: nat,
    j: int,
)
    requires
        chunksize > 0,
        n <= files.len(),
        0 <= j < n,
        device_fits(chunksize, files, n),
        blobchunk::hashes_distinct(device_chunks(chunksize, files, n)),
    ensures
        blob_holds_file(
            device_bytes(chunksize, files, n),
            device_state(chunksize, files, j as nat),
            device_bytes(chunksize, files, j as nat),
            device_chunks(chunksize, files, j as nat),
            files[j],
        ),
    decreases n,
{
    let m = (n - 1) as nat;
    lemma_device_chunksize(chunksize, files, m);
    lemma_chunk_count_positive(chunksize, files[n - 1]);
    lemma_device_in_step(chunksize, files, n);
    lemma_distinct_subset(device_chunks(chunksize, files, m), device_chunks(chunksize, files, n));
    if j < m {
        law_device_holds_every_file(chunksize, files, m, j);
        assert(device_bytes(chunksize, files, m).is_prefix_of(device_bytes(chunksize, files, n)));
    } else {
        lemma_device_in_step(chunksize, files, m);
        assert(device_state(chunksize, files, m).room(
            blobchunk::file_blocks(
                files[j].len() as int,
                chunksize as int,
                chunks_in(chunksize, files[j]),
            ),
        ));
    }
}

/// The chunks of `seen` and `chunk` have no hash in common.
pub open spec fn first_seen(seen: Set<Seq<u8>>, chunk: Seq<u8>) -> bool {
    forall|c: Seq<u8>| #[trigger]
        seen.contains(c) ==> blobchunk::blake3_digest(c) != blobchunk::blake3_digest(chunk)
}

/// The index of a writer holds the hashes of the chunks of `seen`, and no others.
pub open spec fn index_holds(st: blobchunk::BlobState, seen: Set<Seq<u8>>) -> bool {
    forall|h: Seq<u8>| #[trigger]
        st.dedup.dom().contains(h) <==> exists|c: Seq<u8>|
            seen.contains(c) && #[trigger] blobchunk::blake3_digest(c) == h
}

/// The first `i` chunks of a file join the index.
proof fn lemma_file_joins_index(
    st: blobchunk::BlobState,
    seen: Set<Seq<u8>>,
    file: Seq<u8>,
    i: nat,
)
    requires
        blobchunk::addresses_in_order(st),
        index_holds(st, seen),
        st.chunksize > 0,
        i <= blobchunk::chunk_count(file.len() as int, st.chunksize as int),
        st.room(blobchunk::file_blocks(file.len() as int, st.chunksize as int, i)),
    ensures
        blobchunk::addresses_in_order(st.add_chunks(file, i)),
        index_holds(
            st.add_chunks(file, i),
            seen.union(blobchunk::chunks_of(file, st.chunksize as int, i)),
        ),
{
    let cs = st.chunksize as int;
    let after = st.add_chunks(file, i);
    let all = seen.union(blobchunk::chunks_of(file, cs, i));
    blobchunk::lemma_file_hashes(st, file, i);
    assert forall|h: Seq<u8>| #[trigger]
        after.dedup.dom().contains(h) <==> exists|c: Seq<u8>|
            all.contains(c) && #[trigger] blobchunk::blake3_digest(c) == h by {
        if after.dedup.dom().contains(h) {
            if st.dedup.dom().contains(h) {
                let c = choose|c: Seq<u8>|
                    seen.contains(c) && #[trigger] blobchunk::blake3_digest(c) == h;
                assert(all.contains(c) && blobchunk::blake3_digest(c) == h);
            } else {
                assert(blobchunk::hash_among(file, cs, i, h));
                let k = choose|k: int|
                    0 <= k < i && blobchunk::blake3_digest(
                        #[trigger] blobchunk::chunk_data(file, cs, k),
                    ) == h;
                let c = blobchunk::chunk_data(file, cs, k);
                assert(all.contains(c) && blobchunk::blake3_digest(c) == h);
            }
        }
        if exists|c: Seq<u8>| all.contains(c) && #[trigger] blobchunk::blake3_digest(c) == h {
            let c = choose|c: Seq<u8>|
                all.contains(c) && #[trigger] blobchunk::blake3_digest(c) == h;
            if !seen.contains(c) {
                let k = choose|k: int|
                    0 <= k < i && c == #[trigger] blobchunk::chunk_data(file, cs, k);
                assert(blobchunk::blake3_digest(blobchunk::chunk_data(file, cs, k)) == h);
                assert(blobchunk::hash_among(file, cs, i, h));
            }
        }
    }
}

/// The addresses of a device stay in order from file to file, and its index
/// holds the hashes of its chunks.
proof fn lemma_device_ordered(chunksize: u32, files: Seq<Seq<u8>>, n: nat)
    requires
        chunksize > 0,
        device_rooms(chunksize, files, n),
    ensures
        device_state(chunksize, files, n).chunksize == chunksize,
        blobchunk::addresses_in_order(device_state(chunksize, files, n)),
        index_holds(device_state(chunksize, files, n), device_chunks(chunksize, files, n)),
    decreases n,
{
    lemma_device_chunksize(chunksize, files, n);
    if n > 0 {
        let m = (n - 1) as nat;
        lemma_device_ordered(chunksize, files, m);
        lemma_chunk_count_positive(chunksize, files[n - 1]);
        assert(device_state(chunksize, files, m).room(
            blobchunk::file_blocks(
                files[n - 1].len() as int,
                chunksize as int,
                chunks_in(chunksize, files[n - 1]),
            ),
        ));
        lemma_file_joins_index(
            device_state(chunksize, files, m),
            device_chunks(chunksize, files, m),
            files[n - 1],
            chunks_in(chunksize, files[n - 1]),
        );
    }
}

/// Chunk `i` of file `f`.
pub open spec fn chunk_at(chunksize: u32, files: Seq<Seq<u8>>, f: int, i: int) -> Seq<u8> {
    blobchunk::chunk_data(files[f], chunksize as int, i)
}

/// The address that chunk `i` of file `f` was given.
pub open spec fn address_at(chunksize: u32, files: Seq<Seq<u8>>, f: int, i: int) -> u64 {
    device_state(chunksize, files, f as nat).index_of_chunk(files[f], i).blkaddr
}

/// The index keeps the address of every chunk of the first `n` files.
proof fn lemma_address_kept(chunksize: u32, files: Seq<Seq<u8>>, n: nat, f: int, i: int)
    requires
        chunksize > 0,
        device_rooms(chunksize, files, n),
        0 <= f < n,
        0 <= i < chunks_in(chunksize, files[f]),
    ensures
        ({
            let st = device_state(chunksize, files, n);
            let hash = blobchunk::blake3_digest(chunk_at(chunksize, files, f, i));
            st.dedup.dom().contains(hash) && st.dedup[hash] == address_at(chunksize, files, f, i)
        }),
    decreases n,
{
    let m = (n - 1) as nat;
    let st = device_state(chunksize, files, m);
    let file = files[n - 1];
    let hash = blobchunk::blake3_digest(chunk_at(chunksize, files, f, i));
    lemma_device_ordered(chunksize, files, m);
    lemma_chunk_count_positive(chunksize, file);
    assert(st.room(
        blobchunk::file_blocks(file.len() as int, chunksize as int, chunks_in(chunksize, file)),
    ));
    if f < m {
        lemma_address_kept(chunksize, files, m, f, i);
        blobchunk::lemma_address_stays(st, file, 0, chunks_in(chunksize, file), hash);
    } else {
        blobchunk::lemma_chunk_address(st, file, chunks_in(chunksize, file), i);
    }
}

/// Whatever files one writer was given, two of their chunks have the same
/// address exactly if they have the same hash; so, as long as no two distinct
/// chunks have the same hash, exactly if they have the same length and bytes. A
/// short chunk never shares blocks with its zero-padded longer form.
pub proof fn law_same_address_same_chunk(
    chunksize: u32,
    files: Seq<Seq<u8>>,
    n: nat,
    f: int,
    i: int,
    g: int,
    j: int,
)
    requires
        chunksize > 0,
        device_rooms(chunksize, files, n),
        0 <= f < n,
        0 <= g < n,
        0 <= i < chunks_in(chunksize, files[f]),
        0 <= j < chunks_in(chunksize, files[g]),
    ensures
        ({
            let x = chunk_at(chunksize, files, f, i);
            let y = chunk_at(chunksize, files, g, j);
            let same = address_at(chunksize, files, f, i) == address_at(chunksize, files, g, j);
            &&& same <==> blobchunk::blake3_digest(x) == blobchunk::blake3_digest(y)
            &&& blobchunk::hashes_distinct(set![x, y]) ==> (same <==> x == y)
        }),
{
    let x = chunk_at(chunksize, files, f, i);
    let y = chunk_at(chunksize, files, g, j);
    lemma_address_kept(chunksize, files, n, f, i);
    lemma_address_kept(chunksize, files, n, g, j);
    lemma_device_ordered(chunksize, files, n);
    blobchunk::law_address_tells_hash(device_state(chunksize, files, n), x, y);
    assert(set![x, y].contains(x) && set![x, y].contains(y));
}

/// Over all files that one writer was given, the chunks that are seen for the
/// first time get ascending addresses without gaps: such a chunk starts where
/// the device ends, and the device then ends behind its blocks. Any other chunk
/// gets an address below the end, and leaves the end where it is.
pub proof fn law_first_seen_ascend(chunksize: u32, files: Seq<Seq<u8>>, n: nat, f: int, i: int)
    requires
        chunksize > 0,
        device_rooms(chunksize, files, n),
        0 <= f < n,
        0 <= i < chunks_in(chunksize, files[f]),
    ensures
        ({
            let st = device_state(chunksize, files, f as nat);
            let end = st.add_chunks(files[f], i as nat).next_blkaddr;
            let end_after = st.add_chunks(files[f], (i + 1) as nat).next_blkaddr;
            let chunk = chunk_at(chunksize, files, f, i);
            let seen = device_chunks(chunksize, files, f as nat).union(
                blobchunk::chunks_of(files[f], chunksize as int, i as nat),
            );
            if first_seen(seen, chunk) {
                &&& address_at(chunksize, files, f, i) == end
                &&& end_after == end + blobchunk::blocks_for(chunk.len() as int)
                &&& end_after > end
            } else {
                &&& address_at(chunksize, files, f, i) < end
                &&& end_after == end
            }
        }),
{
    let st = device_state(chunksize, files, f as nat);
    let file = files[f];
    let cs = chunksize as int;
    let count = chunks_in(chunksize, file);
    let chunk = chunk_at(chunksize, files, f, i);
    let seen = device_chunks(chunksize, files, f as nat).union(
        blobchunk::chunks_of(file, cs, i as nat),
    );
    assert(device_rooms(chunksize, files, f as nat));
    lemma_device_ordered(chunksize, files, f as nat);
    assert(st.room(blobchunk::file_blocks(file.len() as int, cs, count)));
    blobchunk::lemma_file_blocks_monotone(file.len() as int, cs, i as nat, count);
    blobchunk::lemma_file_blocks_monotone(file.len() as int, cs, (i + 1) as nat, count);
    blobchunk::lemma_chunk_bounds(file.len() as int, cs, i);
    lemma_file_joins_index(st, device_chunks(chunksize, files, f as nat), file, i as nat);
    blobchunk::lemma_add_chunks_room(st, file, i as nat);
    let before = st.add_chunks(file, i as nat);
    let hash = blobchunk::blake3_digest(chunk);
    blobchunk::law_new_chunks_ascend(before, chunk);
    assert(st.add_chunks(file, (i + 1) as nat) == before.add_chunk(chunk));
    if before.dedup.dom().contains(hash) {
        let c = choose|c: Seq<u8>|
            seen.contains(c) && #[trigger] blobchunk::blake3_digest(c) == hash;
        assert(seen.contains(c));
    } else {
        assert forall|c: Seq<u8>| #[trigger] seen.contains(c) implies blobchunk::blake3_digest(c)
            != hash by {}
    }
}

/// The header of anything but a directory keeps what fits into it.
proof fn lemma_header_keeps(m: inode::InodeModel, epoch: u64, chunkbits: u32)
    requires
        !(m.data is Directory),
        m.is_extended || m.size < 0x1_0000_0000 && m.uid < 0x1_0000 && m.gid < 0x1_0000 && m.nlink
            == 1,
    ensures
        ({
            let stored = metadata::stored_inode(m, epoch, chunkbits);
            &&& stored.mode == m.mode
            &&& stored.uid == m.uid
            &&& stored.gid == m.gid
            &&& stored.nlink == m.nlink
            &&& stored.size == m.i_size()
            &&& m.data matches inode::DataModel::SpecialDev { rdev } ==> stored.u == rdev
            &&& metadata::is_extended_format(stored.format) == m.is_extended
            &&& m.is_extended || epoch <= m.mtime < epoch + 0x1_0000_0000 ==> stored.spec_mtime(
                epoch,
            ) == m.mtime
            &&& m.is_extended ==> stored.mtime_nsec == m.mtime_nsec
        }),
{
    ondisk::law_i_format_fields(m.datalayout(), true);
}

/// Anything of a source tree but a directory keeps its mode, owner, group, size
/// and link count in `stat`, a device its number, and all keep their time: in the
/// compact format only to the second, and only within 32 bits after the epoch.
pub proof fn law_stat_read_back(
    fs: fuse::ErofsFs,
    nid: u64,
    node: tree::SourceNode,
    ino: u32,
    chunkbits: u32,
)
    requires
        !(node.content is Directory),
        node.content matches tree::SourceContent::Symlink { target } ==> target@.len()
            < 0x1_0000_0000,
        node.meta.nlink >= 1,
        node.meta.nlink <= u32::MAX,
    ensures
        ({
            let m = node.inode(ino);
            let epoch = fs.reader.spec_sb().epoch;
            let st = fs.stat_of(nid, metadata::stored_inode(m, epoch, chunkbits));
            &&& st.mode == m.mode
            &&& st.uid == node.meta.uid
            &&& st.gid == node.meta.gid
            &&& st.nlink == node.meta.nlink
            &&& st.size == m.size as i64
            &&& node.content is Special && node.meta.is_device() ==> st.rdev == bytes::low32(
                node.meta.rdev,
            )
            &&& m.is_extended || epoch <= m.mtime < epoch + 0x1_0000_0000 ==> st.time
                == m.mtime as i64
            &&& m.is_extended ==> st.time_nsec == m.mtime_nsec as i64
        }),
{
    let m = node.inode(ino);
    assert(m.mode as u32 & fuse::S_IFMT == (m.mode & 0o170000) as u32);
    lemma_header_keeps(m, fs.reader.spec_sb().epoch, chunkbits);
}

} // verus!
