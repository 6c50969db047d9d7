//! What the writing operations give, stated of their arguments and results.
use crate::blobchunk;
use crate::blobchunk::{
    BlobWriter, ChunkIndex, FileChunks, Placement, PlannedChunk, WrittenChunk, WrittenFile,
};
use crate::bytes;
use crate::dedup::DedupIndex;
use crate::inode;
use crate::inode::{DirEntry, InodeData, InodeInfo};
use crate::laws::blob;
use crate::laws::records;
use crate::laws::tree as tree_laws;
use crate::names;
use crate::ondisk;
use crate::tree;
use crate::tree::{SourceContent, SourceKind, SourceNode, TreePlan};
use vstd::prelude::*;

verus! {

// ---------------------------------------------------------------------------
// Arithmetic
// ---------------------------------------------------------------------------

/// Dividing and rounding up gives the least number of parts that suffices.
pub proof fn law_div_ceil(a: u64, b: u64, r: u64)
    requires
        call_ensures(ondisk::div_ceil, (a, b), r),
        b > 0,
    ensures
        r * b >= a,
        r > 0 ==> (r - 1) * b < a,
{
    records::law_least_parts(a as int, b as int);
}

/// Rounding up gives the least multiple that is not less.
pub proof fn law_round_up(val: usize, align: usize, r: usize)
    requires
        call_ensures(ondisk::round_up, (val, align), r),
        align > 0,
    ensures
        val <= r < val + align,
        r as int % align as int == 0,
{
}

/// A chunk size is told by its bits exactly if it is a power of two and at least
/// a block.
pub proof fn law_chunk_bits(chunksize: u32, bits: u32, r: Option<u32>)
    requires
        call_ensures(blobchunk::chunk_bits, (chunksize,), r),
    ensures
        r matches Some(b) ==> b >= 12 && chunksize == vstd::arithmetic::power2::pow2(b as nat),
        bits >= 12 && chunksize == vstd::arithmetic::power2::pow2(bits as nat) ==> r == Some(bits),
{
    if bits >= 12 && chunksize == vstd::arithmetic::power2::pow2(bits as nat) {
        vstd::arithmetic::power2::lemma2_to64();
        if bits > 12 {
            vstd::arithmetic::power2::lemma_pow2_strictly_increases(12, bits as nat);
        }
        assert(ondisk::is_power_of_two(chunksize as int));
        let b = r->0;
        if b < bits {
            vstd::arithmetic::power2::lemma_pow2_strictly_increases(b as nat, bits as nat);
        } else if b > bits {
            vstd::arithmetic::power2::lemma_pow2_strictly_increases(bits as nat, b as nat);
        }
    }
}

/// An integer is written as its digits to the base 256, lowest first.
pub proof fn law_written_integers(
    a: u16,
    two: [u8; 2],
    b: u32,
    four: [u8; 4],
    c: u64,
    eight: [u8; 8],
)
    requires
        call_ensures(bytes::u16_le, (a,), two),
        call_ensures(bytes::u32_le, (b,), four),
        call_ensures(bytes::u64_le, (c,), eight),
    ensures
        two@[0] + 256 * two@[1] == a,
        four@[0] + 256 * four@[1] + 65536 * four@[2] + 16777216 * four@[3] == b,
        eight@[0] + 256 * eight@[1] + 65536 * eight@[2] + 16777216 * eight@[3] == c
            % 0x1_0000_0000,
        eight@[4] + 256 * eight@[5] + 65536 * eight@[6] + 16777216 * eight@[7] == c
            / 0x1_0000_0000,
{
    let low = (c % 0x1_0000_0000) as u32;
    let high = (c / 0x1_0000_0000) as u32;
    records::law_two_digits(a);
    records::law_four_digits(b);
    records::law_four_digits(low);
    records::law_four_digits(high);
    assert(bytes::le64(c) == bytes::le32(low) + bytes::le32(high));
    assert(eight@[4] == bytes::le32(high)[0]);
    assert(eight@[5] == bytes::le32(high)[1]);
    assert(eight@[6] == bytes::le32(high)[2]);
    assert(eight@[7] == bytes::le32(high)[3]);
}

/// An integer is read from its digits to the base 256, lowest first.
pub proof fn law_read_integers(s: &[u8], at: usize, a: u16, b: u32, c: u64)
    requires
        call_ensures(bytes::read_u16, (s, at), a),
        call_ensures(bytes::read_u32, (s, at), b),
        call_ensures(bytes::read_u64, (s, at), c),
    ensures
        a == s@[at as int] + 256 * s@[at + 1],
        b == a + 65536 * s@[at + 2] + 16777216 * s@[at + 3],
        c == b + 0x1_0000_0000 * (s@[at + 4] + 256 * s@[at + 5] + 65536 * s@[at + 6] + 16777216
            * s@[at + 7]),
{
    records::law_digits_are_read(s@, at as int);
}

/// The halves of an integer.
pub proof fn law_halves(v: u64, low: u32, high: u32, quarter: u16)
    requires
        call_ensures(bytes::low_u32, (v,), low),
        call_ensures(bytes::high_u32, (v,), high),
        call_ensures(bytes::high_u16, (v,), quarter),
    ensures
        low + 0x1_0000_0000 * high == v,
        quarter == high % 0x1_0000,
{
}

/// Copying into a buffer changes the bytes that are copied to, and no others.
pub proof fn law_copied_bytes(buf: &mut Vec<u8>, at: usize, src: &[u8], i: int)
    requires
        call_ensures(bytes::put_vec, (buf, at, src), ()),
        at + src@.len() <= old(buf)@.len(),
        0 <= i < old(buf)@.len(),
    ensures
        final(buf)@.len() == old(buf)@.len(),
        at <= i < at + src@.len() ==> final(buf)@[i] == src@[i - at],
        i < at || i >= at + src@.len() ==> final(buf)@[i] == old(buf)@[i],
{
    records::law_splice(old(buf)@, at as int, src@, i);
    assert(final(buf)@.subrange(at as int, at + src@.len()) == src@);
    if at <= i < at + src@.len() {
        assert(final(buf)@.subrange(at as int, at + src@.len())[i - at] == final(buf)@[i]);
    }
}

// ---------------------------------------------------------------------------
// Writing chunks
// ---------------------------------------------------------------------------

/// An index gives for a hash what was stored for exactly that hash, and nothing
/// at the start.
pub proof fn law_index_of_hashes(
    index: &mut DedupIndex,
    hash: &[u8; 32],
    blkaddr: u64,
    other: &[u8; 32],
    before: Option<u64>,
    after: Option<u64>,
    empty: DedupIndex,
    none: Option<u64>,
)
    requires
        call_ensures(DedupIndex::insert, (index, hash, blkaddr), ()),
        call_ensures(DedupIndex::get, (&*old(index), other), before),
        call_ensures(DedupIndex::get, (&*final(index), other), after),
        call_ensures(DedupIndex::new, (), empty),
        call_ensures(DedupIndex::get, (&empty, other), none),
    ensures
        other@ == hash@ ==> after == Some(blkaddr),
        other@ != hash@ ==> after == before,
        none is None,
{
}

/// A writer starts with an empty device and nothing saved.
pub proof fn law_device_starts_empty(
    chunksize: u32,
    writer: BlobWriter,
    blocks: u64,
    saved: u64,
)
    requires
        call_ensures(BlobWriter::new, (chunksize,), writer),
        call_ensures(BlobWriter::total_blocks, (&writer,), blocks),
        call_ensures(BlobWriter::saved_by_dedup, (&writer,), saved),
    ensures
        blocks == 0,
        saved == 0,
        writer@.chunksize == chunksize,
        forall|hash: Seq<u8>| !#[trigger] writer@.dedup.dom().contains(hash),
{
}

/// A chunk that is on the device appends nothing. Any other appends the fewest
/// whole blocks that hold it: its data, then zeros.
pub proof fn law_planned_chunk(writer: BlobWriter, data: &[u8], r: PlannedChunk)
    requires
        call_ensures(BlobWriter::plan_chunk, (&writer, data), r),
    ensures
        r.hash@ == blobchunk::blake3_digest(data@),
        writer@.dedup.dom().contains(r.hash@) ==> r.blob_data@.len() == 0,
        !writer@.dedup.dom().contains(r.hash@) ==> {
            &&& r.blob_data@.len() % 4096 == 0
            &&& data@.len() <= r.blob_data@.len() < data@.len() + 4096
            &&& r.blob_data@.take(data@.len() as int) == data@
            &&& forall|i: int|
                data@.len() <= i < r.blob_data@.len() ==> #[trigger] r.blob_data@[i] == 0
        },
{
    if !writer@.dedup.dom().contains(r.hash@) {
        assert(r.blob_data@.take(data@.len() as int) =~= data@);
    }
}

/// A file has a further chunk exactly if the chunks before it do not reach its
/// end, and the chunk is full unless the file ends in it.
pub proof fn law_next_chunk(chunks: FileChunks, r: Option<usize>)
    requires
        call_ensures(FileChunks::next_len, (&chunks,), r),
        chunks.chunksize > 0,
    ensures
        ({
            let done = chunks.indexes@.len() * chunks.chunksize;
            match r {
                None => done >= chunks.file_size,
                Some(len) => {
                    &&& done < chunks.file_size
                    &&& done + chunks.chunksize <= chunks.file_size ==> len == chunks.chunksize
                    &&& done + chunks.chunksize > chunks.file_size ==> done + len
                        == chunks.file_size
                },
            }
        }),
{
    let size = chunks.file_size as int;
    let cs = chunks.chunksize as int;
    let i = chunks.indexes@.len() as int;
    let n = blobchunk::chunk_count(size, cs);
    records::law_least_parts(size, cs);
    if i < n {
        vstd::arithmetic::mul::lemma_mul_inequality(i, n - 1, cs);
    } else {
        vstd::arithmetic::mul::lemma_mul_inequality(n, i, cs);
    }
}

/// Placing a chunk by its hash: one that is on the device keeps its address and
/// saves its blocks; any other gets the end of the device, which then moves on by
/// the fewest blocks that hold it. No other chunk moves.
pub proof fn law_placed_chunk(writer: &mut BlobWriter, hash: &[u8; 32], len: usize, r: Placement)
    requires
        call_ensures(BlobWriter::place_chunk, (writer, hash, len), r),
    ensures
        ({
            let before = old(writer)@;
            let after = final(writer)@;
            let known = before.dedup.dom().contains(hash@);
            let grown = (after.next_blkaddr - before.next_blkaddr) * 4096;
            let saved = after.saved - before.saved;
            &&& r.fresh == !known
            &&& known ==> r.blkaddr == before.dedup[hash@] && grown == 0 && saved % 4096 == 0
                && len <= saved < len + 4096
            &&& !known ==> r.blkaddr == before.next_blkaddr as u64 && saved == 0 && len <= grown
                < len + 4096
            &&& after.dedup.dom().contains(hash@) && after.dedup[hash@] == r.blkaddr
            &&& forall|h: Seq<u8>|
                h != hash@ ==> (#[trigger] after.dedup.dom().contains(h)
                    <==> before.dedup.dom().contains(h)) && after.dedup[h] == before.dedup[h]
            &&& after.chunksize == before.chunksize
        }),
{
}

/// Writing a chunk gives its index on device 1 and the bytes to append, which the
/// device grows by.
pub proof fn law_written_chunk(writer: &mut BlobWriter, data: &[u8], r: WrittenChunk)
    requires
        call_ensures(BlobWriter::write_chunk, (writer, data), r),
    ensures
        ({
            let before = old(writer)@;
            let after = final(writer)@;
            let hash = blobchunk::blake3_digest(data@);
            let known = before.dedup.dom().contains(hash);
            &&& r.index.device_id == 1
            &&& r.index.blkaddr == (if known {
                before.dedup[hash]
            } else {
                before.next_blkaddr as u64
            })
            &&& after.dedup.dom().contains(hash) && after.dedup[hash] == r.index.blkaddr
            &&& (after.next_blkaddr - before.next_blkaddr) * 4096 == r.blob_data@.len()
            &&& known ==> r.blob_data@.len() == 0
            &&& !known ==> {
                &&& data@.len() <= r.blob_data@.len() < data@.len() + 4096
                &&& r.blob_data@.take(data@.len() as int) == data@
                &&& forall|i: int|
                    data@.len() <= i < r.blob_data@.len() ==> #[trigger] r.blob_data@[i] == 0
            }
        }),
{
    if !old(writer)@.dedup.dom().contains(blobchunk::blake3_digest(data@)) {
        assert(r.blob_data@.take(data@.len() as int) =~= data@);
    }
}

/// A chunk that is written twice has the same index both times, and the second
/// time the device does not grow.
pub proof fn law_chunk_written_twice(
    first: &mut BlobWriter,
    second: &mut BlobWriter,
    data: &[u8],
    a: WrittenChunk,
    b: WrittenChunk,
)
    requires
        call_ensures(BlobWriter::write_chunk, (first, data), a),
        *old(second) == *final(first),
        call_ensures(BlobWriter::write_chunk, (second, data), b),
    ensures
        a.index == b.index,
        b.blob_data@.len() == 0,
        final(second)@.next_blkaddr == final(first)@.next_blkaddr,
        final(second)@.saved - final(first)@.saved >= data@.len(),
{
}

/// Writing a file gives the fewest indexes that its chunks need, all on device
/// 1, and the bytes to append, which the device grows by.
pub proof fn law_written_file(writer: &mut BlobWriter, data: &[u8], r: WrittenFile, i: int)
    requires
        call_ensures(BlobWriter::write_file_chunks, (writer, data), r),
        old(writer)@.chunksize > 0,
    ensures
        ({
            let before = old(writer)@;
            let after = final(writer)@;
            let n = r.indexes@.len() as int;
            let cs = before.chunksize as int;
            &&& n * cs >= data@.len()
            &&& n > 0 ==> (n - 1) * cs < data@.len()
            &&& 0 <= i < n ==> r.indexes@[i].device_id == 1
            &&& (after.next_blkaddr - before.next_blkaddr) * 4096 == r.blob_data@.len()
            &&& after.chunksize == before.chunksize
        }),
{
    let st = old(writer)@;
    let cs = st.chunksize as int;
    let n = blobchunk::chunk_count(data@.len() as int, cs);
    blob::law_file_is_cut_into_chunks(data@, cs, i);
    blobchunk::law_blocks_match_bytes(st, data@, n as nat);
    blobchunk::lemma_add_chunks_room(st, data@, n as nat);
}

/// Writing files chunk by chunk: each one adds its index behind those before it.
pub proof fn law_chunk_of_a_file(
    chunks: &mut FileChunks,
    writer: &mut BlobWriter,
    chunk: &[u8],
    r: Vec<u8>,
)
    requires
        call_ensures(FileChunks::write, (chunks, writer, chunk), r),
    ensures
        final(chunks).indexes@.len() == old(chunks).indexes@.len() + 1,
        final(chunks).indexes@.drop_last() == old(chunks).indexes@,
        final(chunks).indexes@.last().device_id == 1,
        ({
            let hash = blobchunk::blake3_digest(chunk@);
            &&& final(writer)@.dedup.dom().contains(hash)
            &&& final(chunks).indexes@.last().blkaddr == final(writer)@.dedup[hash]
        }),
        (final(writer)@.next_blkaddr - old(writer)@.next_blkaddr) * 4096 == r@.len(),
        final(chunks).file_size == old(chunks).file_size,
        final(chunks).chunksize == old(chunks).chunksize,
{
    assert(final(chunks).indexes@.drop_last() =~= old(chunks).indexes@);
}

/// Placing the chunk that comes next by its hash adds its index.
pub proof fn law_placed_chunk_of_a_file(
    chunks: &mut FileChunks,
    writer: &mut BlobWriter,
    hash: &[u8; 32],
    len: usize,
)
    requires
        call_ensures(FileChunks::next_len, (&*old(chunks),), Some(len)),
        call_ensures(FileChunks::place, (chunks, writer, hash), ()),
    ensures
        final(chunks).indexes@.len() == old(chunks).indexes@.len() + 1,
        final(chunks).indexes@.drop_last() == old(chunks).indexes@,
        final(chunks).indexes@.last().device_id == 1,
        final(writer)@.dedup.dom().contains(hash@),
        final(chunks).indexes@.last().blkaddr == final(writer)@.dedup[hash@],
        ({
            let before = old(writer)@;
            let after = final(writer)@;
            let grown = (after.next_blkaddr - before.next_blkaddr) * 4096;
            &&& before.dedup.dom().contains(hash@) ==> grown == 0
            &&& !before.dedup.dom().contains(hash@) ==> len <= grown < len + 4096
        }),
        final(chunks).file_size == old(chunks).file_size,
        final(chunks).chunksize == old(chunks).chunksize,
{
    assert(final(chunks).indexes@.drop_last() =~= old(chunks).indexes@);
}

/// A file starts without chunks, and has the indexes that were added in the end.
pub proof fn law_file_from_start_to_end(
    writer: BlobWriter,
    file_size: u64,
    started: FileChunks,
    done: FileChunks,
    r: Vec<ChunkIndex>,
)
    requires
        call_ensures(FileChunks::new, (&writer, file_size), started),
        call_ensures(FileChunks::finish, (done,), r),
    ensures
        started.file_size == file_size,
        started.chunksize == writer@.chunksize,
        started.indexes@.len() == 0,
        r@ == done.indexes@,
{
}

/// The count of blocks follows the bytes that are appended to the device.
pub proof fn law_device_length(
    writer: &mut BlobWriter,
    data: &[u8],
    r: WrittenFile,
    before: u64,
    after: u64,
)
    requires
        call_ensures(BlobWriter::write_file_chunks, (writer, data), r),
        call_ensures(BlobWriter::total_blocks, (&*old(writer),), before),
        call_ensures(BlobWriter::total_blocks, (&*final(writer),), after),
        old(writer)@.chunksize > 0,
    ensures
        after * 4096 == before * 4096 + r.blob_data@.len(),
{
    law_written_file(writer, data, r, 0);
}

// ---------------------------------------------------------------------------
// Names
// ---------------------------------------------------------------------------

/// A name is not after another one exactly if it is a start of it, or has the
/// smaller byte where they first differ.
pub proof fn law_name_not_after(a: Vec<u8>, b: Vec<u8>, r: bool)
    requires
        call_ensures(names::name_not_after, (&a, &b), r),
    ensures
        r <==> exists|k: int|
            0 <= k <= a@.len() && k <= b@.len() && #[trigger] a@.take(k) == b@.take(k) && (k
                == a@.len() || (k < b@.len() && a@[k] < b@[k])),
{
    tree_laws::law_names_are_ordered_by_bytes(a@, b@);
}

/// Sorting names gives each of them once, in byte order.
pub proof fn law_sorted_names(list: Vec<&Vec<u8>>, r: Vec<usize>, k: int, l: int)
    requires
        call_ensures(names::sort_by_name, (&list,), r),
        0 <= k < l < list@.len(),
    ensures
        r@.len() == list@.len(),
        r@[k] < list@.len(),
        r@[l] < list@.len(),
        r@[k] != r@[l],
        ({
            let a = list@[r@[k] as int]@;
            let b = list@[r@[l] as int]@;
            exists|j: int|
                0 <= j <= a.len() && j <= b.len() && #[trigger] a.take(j) == b.take(j) && (j
                    == a.len() || (j < b.len() && a[j] < b[j]))
        }),
{
    let all = Seq::new(list@.len(), |i: int| list@[i]@);
    assert(list.len() <= usize::MAX);
    names::law_sorted_order(all);
    let a = list@[r@[k] as int]@;
    let b = list@[r@[l] as int]@;
    assert(0 <= r@[k] < all.len() && 0 <= r@[l] < all.len());
    assert(all[r@[k] as int] == a && all[r@[l] as int] == b);
    assert(names::name_le(a, b));
    tree_laws::law_names_are_ordered_by_bytes(a, b);
}

// ---------------------------------------------------------------------------
// The inode list
// ---------------------------------------------------------------------------

/// The kind of a source file depends on the file type bits of its mode alone.
pub proof fn law_source_kind(mode: u32, r: SourceKind)
    requires
        call_ensures(tree::source_kind, (mode,), r),
    ensures
        r == SourceKind::Directory <==> mode / 4096 % 16 == 4,
        r == SourceKind::File <==> mode / 4096 % 16 == 8,
        r == SourceKind::Symlink <==> mode / 4096 % 16 == 10,
{
    tree_laws::law_kinds_of_files(mode);
}

/// A directory entry keeps its name and its inode; its type depends on the file
/// type bits of the mode alone.
pub proof fn law_child_entry(name: &[u8], mode: u32, idx: usize, r: DirEntry)
    requires
        call_ensures(tree::child_entry, (name, mode, idx), r),
    ensures
        r.name@ == tree::lossy_text(name@),
        r.inode_idx == idx,
        ({
            let t = mode / 4096 % 16;
            let ft = r.file_type;
            &&& t == 8 <==> ft == 1
            &&& t == 4 <==> ft == 2
            &&& t == 2 <==> ft == 3
            &&& t == 6 <==> ft == 4
            &&& t == 1 <==> ft == 5
            &&& t == 12 <==> ft == 6
            &&& t == 10 <==> ft == 7
            &&& ft <= 7
        }),
{
    let low: u16 = (mode % 0x1_0000) as u16;
    assert(low / 4096 == mode / 4096 % 16);
    records::law_file_types(low);
}

/// The inode list of a source tree: every inode behind the first is made from an
/// entry of the tree and has its attributes; the size of a regular file is the
/// size of its source.
pub proof fn law_built_inodes(source: SourceNode, r: Option<TreePlan>, i: int) -> (j: int)
    requires
        call_ensures(tree::build_tree, (&source,), r),
        r is Some,
        0 < i < r->0.inodes@.len(),
    ensures
        0 <= j < tree::tree_references(source).len(),
        tree::tree_references(source)[j].idx == i,
        tree::tree_references(source)[j].dir < i,
        ({
            let m = r->0.inodes@[i];
            let node = tree::tree_references(source)[j].entry.node;
            &&& m.mode == node.meta.mode % 0x1_0000
            &&& m.uid == node.meta.uid
            &&& m.gid == node.meta.gid
            &&& node.meta.mtime >= 0 ==> m.mtime == node.meta.mtime
            &&& node.meta.mtime < 0 ==> m.mtime == node.meta.mtime + 0x1_0000_0000_0000_0000
            &&& 0 <= node.meta.mtime_nsec < 0x1_0000_0000 ==> m.mtime_nsec == node.meta.mtime_nsec
            &&& m.nlink == node.meta.nlink % 0x1_0000_0000
            &&& m.ino == i + 1
            &&& m.is_extended <==> node.meta.size >= 0x1_0000_0000 || node.meta.uid >= 0x1_0000
                || node.meta.gid >= 0x1_0000 || node.meta.nlink % 0x1_0000_0000 >= 2
            &&& match node.content {
                SourceContent::Directory { .. } => m.data is Directory && m.size == 0,
                SourceContent::File { .. } => m.data is RegularFile && m.size == node.meta.size
                    && m.data->chunk_indexes@.len() == 0,
                SourceContent::Symlink { target } => m.data is Symlink && m.size == target@.len()
                    && m.data->target@ == target@,
                SourceContent::Special => m.size == 0 && if node.meta.mode / 4096 % 16 == 2
                    || node.meta.mode / 4096 % 16 == 6 {
                    m.data is SpecialDev && m.data->rdev == node.meta.rdev % 0x1_0000_0000
                } else {
                    m.data is SpecialNoData
                },
            }
        }),
{
    let plan = r->0;
    let st = tree::tree_of(source);
    assert(tree::inodes_view(plan.inodes@)[i] == plan.inodes@[i]@);
    let j = tree_laws::law_inodes_have_their_files_attributes(source, i);
    let node = tree::tree_references(source)[j].entry.node;
    if let SourceContent::Symlink { target } = node.content {
        assert(target.len() <= usize::MAX);
    }
    j
}

/// The first inode is that of the source itself, with all its attributes.
pub proof fn law_built_root(source: SourceNode, r: Option<TreePlan>)
    requires
        call_ensures(tree::build_tree, (&source,), r),
        r is Some,
    ensures
        r->0.inodes@.len() > 0,
        !(source.content is Directory) ==> r->0.inodes@.len() == 1,
        ({
            let m = r->0.inodes@[0];
            &&& m.mode == source.meta.mode % 0x1_0000
            &&& m.uid == source.meta.uid
            &&& m.gid == source.meta.gid
            &&& source.meta.mtime >= 0 ==> m.mtime == source.meta.mtime
            &&& source.meta.mtime < 0 ==> m.mtime == source.meta.mtime + 0x1_0000_0000_0000_0000
            &&& 0 <= source.meta.mtime_nsec < 0x1_0000_0000 ==> m.mtime_nsec
                == source.meta.mtime_nsec
            &&& m.nlink == source.meta.nlink % 0x1_0000_0000
            &&& m.ino == 1
            &&& m.is_extended <==> source.meta.size >= 0x1_0000_0000 || source.meta.uid >= 0x1_0000
                || source.meta.gid >= 0x1_0000 || source.meta.nlink % 0x1_0000_0000 >= 2
            &&& source.content is Directory <==> m.data is Directory
            &&& source.content is Directory ==> m.size == 0
            &&& source.content is File ==> m.size == source.meta.size
        }),
{
    let plan = r->0;
    tree_laws::law_root_has_the_sources_attributes(source);
    assert(tree::inodes_view(plan.inodes@)[0] == plan.inodes@[0]@);
}

/// Every file to write is a regular file of the source tree, in its whole size,
/// and the inode that it belongs to has that size.
pub proof fn law_built_files(source: SourceNode, r: Option<TreePlan>, f: int) -> (j: int)
    requires
        call_ensures(tree::build_tree, (&source,), r),
        r is Some,
        source.content is Directory,
        0 <= f < r->0.files@.len(),
    ensures
        0 <= j < tree::tree_references(source).len(),
        ({
            let job = r->0.files@[f];
            let entry = tree::tree_references(source)[j];
            &&& entry.idx == job.inode_idx < r->0.inodes@.len()
            &&& entry.entry.node.content == (SourceContent::File { source: job.source })
            &&& job.size == entry.entry.node.meta.size
            &&& r->0.inodes@[job.inode_idx as int].size == job.size
        }),
{
    let plan = r->0;
    tree::law_tree_consistent(source);
    let j = tree_laws::law_files_are_written_whole(source, f);
    let idx = plan.files@[f].inode_idx as int;
    assert(tree::tree_of(source).files[f].inode_idx < tree::tree_of(source).inodes.len());
    assert(tree::inodes_view(plan.inodes@)[idx] == plan.inodes@[idx]@);
    j
}

/// The files to write come in the order of their inodes, and each regular file of
/// the list is among them.
pub proof fn law_built_files_in_order(
    source: SourceNode,
    r: Option<TreePlan>,
    f: int,
    g: int,
    i: int,
)
    requires
        call_ensures(tree::build_tree, (&source,), r),
        r is Some,
    ensures
        0 <= f < g < r->0.files@.len() ==> r->0.files@[f].inode_idx < r->0.files@[g].inode_idx,
        0 <= i < r->0.inodes@.len() && r->0.inodes@[i].data is RegularFile ==> exists|j: int|
            0 <= j < r->0.files@.len() && (#[trigger] r->0.files@[j]).inode_idx == i,
{
    tree::law_tree_consistent(source);
    let st = tree::tree_of(source);
    if 0 <= i < r->0.inodes@.len() && r->0.inodes@[i].data is RegularFile {
        assert(tree::inodes_view(r->0.inodes@)[i] == r->0.inodes@[i]@);
        assert(st.inodes[i].data is RegularFile);
        let j = choose|j: int| 0 <= j < st.files.len() && (#[trigger] st.files[j]).inode_idx == i;
        assert(r->0.files@[j].inode_idx == i);
    }
    if 0 <= f < g < r->0.files@.len() {
        assert(st.files[f].inode_idx < st.files[g].inode_idx);
    }
}

/// The root directory has one child for each of its entries, in the byte order of
/// their names.
pub proof fn law_built_root_children(
    source: SourceNode,
    r: Option<TreePlan>,
    k: int,
    l: int,
) -> (order: (int, int))
    requires
        call_ensures(tree::build_tree, (&source,), r),
        r is Some,
        source.content is Directory,
        0 <= k < l < source.content->entries@.len(),
    ensures
        r->0.inodes@[0].data is Directory,
        r->0.inodes@[0].data->children@.len() == source.content->entries@.len(),
        0 <= order.0 < source.content->entries@.len(),
        0 <= order.1 < source.content->entries@.len(),
        order.0 != order.1,
        ({
            let children = r->0.inodes@[0].data->children@;
            let a = source.content->entries@[order.0].file_name@;
            let b = source.content->entries@[order.1].file_name@;
            &&& children[k].name@ == tree::lossy_text(a)
            &&& children[l].name@ == tree::lossy_text(b)
            &&& exists|j: int|
                0 <= j <= a.len() && j <= b.len() && #[trigger] a.take(j) == b.take(j) && (j
                    == a.len() || (j < b.len() && a[j] < b[j]))
        }),
{
    let start = tree::TreeState::start();
    let order = tree::entry_order(source.content->entries@);
    tree_laws::law_children_are_the_entries_in_order(source, start, k, l);
    tree::lemma_visit_extends(source, start);
    assert(tree::inodes_view(r->0.inodes@)[0] == r->0.inodes@[0]@);
    let children = r->0.inodes@[0].data->children@;
    assert(inode::entries_view(children)[k] == children[k]@);
    assert(inode::entries_view(children)[l] == children[l]@);
    (order[k] as int, order[l] as int)
}

/// A child in the list has its entry's name as text, and leads to the inode that
/// its entry is about.
pub proof fn law_built_children(source: SourceNode, r: Option<TreePlan>, j: int)
    requires
        call_ensures(tree::build_tree, (&source,), r),
        r is Some,
        0 <= j < tree::tree_references(source).len(),
    ensures
        ({
            let entry = tree::tree_references(source)[j];
            let dir = r->0.inodes@[entry.dir];
            let child = dir.data->children@[entry.pos];
            &&& 0 <= entry.dir < r->0.inodes@.len()
            &&& dir.data is Directory
            &&& 0 <= entry.pos < dir.data->children@.len()
            &&& child.name@ == tree::lossy_text(entry.entry.file_name@)
            &&& child.inode_idx == entry.idx
            &&& child.file_type == inode::file_type_of(
                (entry.entry.node.meta.mode % 0x1_0000) as u16,
            )
        }),
{
    let plan = r->0;
    let entry = tree::tree_references(source)[j];
    tree_laws::law_children_have_their_entries_names(source, j);
    assert(tree::inodes_view(plan.inodes@)[entry.dir] == plan.inodes@[entry.dir]@);
    let children = plan.inodes@[entry.dir].data->children@;
    assert(inode::entries_view(children)[entry.pos] == children[entry.pos]@);
}

/// Every child in the list is that of an entry of the source tree.
pub proof fn law_built_child_has_an_entry(
    source: SourceNode,
    r: Option<TreePlan>,
    dir: int,
    pos: int,
) -> (j: int)
    requires
        call_ensures(tree::build_tree, (&source,), r),
        r is Some,
        0 <= dir < r->0.inodes@.len(),
        r->0.inodes@[dir].data is Directory,
        0 <= pos < r->0.inodes@[dir].data->children@.len(),
    ensures
        0 <= j < tree::tree_references(source).len(),
        tree::tree_references(source)[j].dir == dir,
        tree::tree_references(source)[j].pos == pos,
{
    let st = tree::tree_of(source);
    let refs = tree::tree_references(source);
    tree::law_references_are_children(source);
    assert(tree::inodes_view(r->0.inodes@)[dir] == r->0.inodes@[dir]@);
    assert(tree::has_child(st, dir, pos));
    assert(tree::has_reference(refs, dir, pos));
    choose|j: int| 0 <= j < refs.len() && (#[trigger] refs[j]).dir == dir && refs[j].pos == pos
}

/// Two entries of the source tree share an inode exactly if they are names of one
/// file: no directory, more than one link, the same device and inode number.
pub proof fn law_built_links(source: SourceNode, r: Option<TreePlan>, j: int, k: int)
    requires
        call_ensures(tree::build_tree, (&source,), r),
        r is Some,
        0 <= j < k < tree::tree_references(source).len(),
    ensures
        ({
            let a = tree::tree_references(source)[j];
            let b = tree::tree_references(source)[k];
            let shared = r->0.inodes@[a.dir].data->children@[a.pos].inode_idx
                == r->0.inodes@[b.dir].data->children@[b.pos].inode_idx;
            shared <==> {
                &&& !(a.entry.node.content is Directory) && a.entry.node.meta.nlink > 1
                &&& !(b.entry.node.content is Directory) && b.entry.node.meta.nlink > 1
                &&& a.entry.node.meta.dev == b.entry.node.meta.dev
                &&& a.entry.node.meta.ino == b.entry.node.meta.ino
            }
        }),
{
    tree::law_shared_exactly_by_links(source, j, k);
    law_built_children(source, r, j);
    law_built_children(source, r, k);
}

/// There is an inode list unless the tree has more inodes than there are numbers.
pub proof fn law_built_tree(source: SourceNode, r: Option<TreePlan>)
    requires
        call_ensures(tree::build_tree, (&source,), r),
    ensures
        r is Some <==> tree::tree_of(source).inodes.len() <= u32::MAX,
        r matches Some(plan) ==> plan.inodes@.len() == tree::tree_of(source).inodes.len()
            && plan.files@.len() == tree::tree_of(source).files.len(),
{
    tree::lemma_visit_extends(source, tree::TreeState::start());
}

/// Attaching chunks sets the indexes of one file and changes nothing else.
pub proof fn law_attached_chunks(
    inodes: &mut Vec<InodeInfo>,
    idx: usize,
    chunks: Vec<ChunkIndex>,
    i: int,
)
    requires
        call_ensures(tree::attach_chunks, (inodes, idx, chunks), ()),
        idx < old(inodes)@.len(),
        0 <= i < old(inodes)@.len(),
    ensures
        final(inodes)@.len() == old(inodes)@.len(),
        i != idx ==> final(inodes)@[i]@ == old(inodes)@[i]@,
        ({
            let was = old(inodes)@[idx as int];
            let is = final(inodes)@[idx as int];
            &&& is.data is RegularFile
            &&& is.data->chunk_indexes@ == chunks@
            &&& is.mode == was.mode
            &&& is.uid == was.uid
            &&& is.gid == was.gid
            &&& is.size == was.size
            &&& is.mtime == was.mtime
            &&& is.mtime_nsec == was.mtime_nsec
            &&& is.nlink == was.nlink
            &&& is.ino == was.ino
            &&& is.nid == was.nid
            &&& is.meta_offset == was.meta_offset
            &&& is.is_extended == was.is_extended
        }),
{
    let before = tree::inodes_view(old(inodes)@);
    let after = tree::inodes_view(final(inodes)@);
    assert(before.len() == old(inodes)@.len() && after.len() == final(inodes)@.len());
    assert(after[i] == final(inodes)@[i]@ && before[i] == old(inodes)@[i]@);
    assert(after[idx as int] == final(inodes)@[idx as int]@);
    assert(before[idx as int] == old(inodes)@[idx as int]@);
}

/// The file type depends on the top four bits of the mode alone.
pub proof fn law_file_type(mode: u16, r: u8)
    requires
        call_ensures(inode::mode_to_file_type, (mode,), r),
    ensures
        r <= 7,
        r > 0 ==> mode / 4096 == seq![8u16, 4, 2, 6, 1, 12, 10][r - 1],
        r == 0 ==> !seq![8u16, 4, 2, 6, 1, 12, 10].contains((mode / 4096) as u16),
{
    records::law_file_types(mode);
}

/// The chunk format is 32 and the number of bits that chunks have over blocks;
/// the format of an inode is twice its data layout, with the marks for the
/// extended format and for one link.
pub proof fn law_formats(
    chunkbits: u32,
    blkszbits: u32,
    chunk_format: u16,
    layout: u16,
    one_link: bool,
    compact: u16,
    extended: u16,
)
    requires
        call_ensures(inode::chunk_format, (chunkbits, blkszbits), chunk_format),
        call_ensures(ondisk::compact_i_format, (layout, one_link), compact),
        call_ensures(ondisk::extended_i_format, (layout,), extended),
        blkszbits <= chunkbits < blkszbits + 32,
        layout < 8,
    ensures
        chunk_format == 32 + chunkbits - blkszbits,
        one_link ==> compact == 16 + 2 * layout,
        !one_link ==> compact == 2 * layout,
        extended == 1 + 2 * layout,
{
}

// ---------------------------------------------------------------------------
// Serialization
// ---------------------------------------------------------------------------

/// A serialized inode is as long as its size in the metadata area says.
pub proof fn law_inode_fills_its_place(
    info: InodeInfo,
    epoch: u64,
    chunkbits: u32,
    blkszbits: u32,
    size: usize,
    r: Vec<u8>,
)
    requires
        call_ensures(inode::inode_meta_size, (&info, chunkbits, blkszbits), size),
        call_ensures(inode::serialize_inode, (&info, epoch, chunkbits), r),
    ensures
        r@.len() == size,
        ({
            let base = if info.is_extended {
                64int
            } else {
                32int
            };
            match info.data {
                InodeData::RegularFile { chunk_indexes } => size == base + 8
                    * chunk_indexes@.len(),
                InodeData::Symlink { target } => size == base + target@.len(),
                _ => size == base,
            }
        }),
{
    records::law_inode_tail(info@, epoch, chunkbits);
}

/// A serialized inode has the attributes of the inode where the format has them,
/// and behind its header the chunk indexes or the target of a link.
pub proof fn law_serialized_inode(
    info: InodeInfo,
    epoch: u64,
    chunkbits: u32,
    r: Vec<u8>,
    i: int,
)
    requires
        call_ensures(inode::serialize_inode, (&info, epoch, chunkbits), r),
        12 <= chunkbits < 44,
    ensures
        ({
            let b = r@;
            let base = if info.is_extended {
                64int
            } else {
                32int
            };
            &&& b.subrange(4, 6) == bytes::le16(info.mode)
            &&& b.subrange(20, 24) == bytes::le32(info.ino)
            &&& info.is_extended ==> {
                &&& b.subrange(24, 28) == bytes::le32(info.uid)
                &&& b.subrange(28, 32) == bytes::le32(info.gid)
                &&& b.subrange(32, 40) == bytes::le64(info.mtime)
                &&& b.subrange(40, 44) == bytes::le32(info.mtime_nsec)
                &&& b.subrange(44, 48) == bytes::le32(info.nlink)
            }
            &&& !info.is_extended ==> {
                &&& b.subrange(12, 16) == bytes::le32(
                    ((info.mtime - epoch) % 0x1_0000_0000) as u32,
                )
                &&& b.subrange(24, 26) == bytes::le16((info.uid % 0x1_0000) as u16)
                &&& b.subrange(26, 28) == bytes::le16((info.gid % 0x1_0000) as u16)
            }
            &&& info.is_extended && !(info.data is SpecialDev || info.data is SpecialNoData)
                ==> b.subrange(8, 16) == bytes::le64(info.size)
            &&& !info.is_extended && !(info.data is SpecialDev || info.data is SpecialNoData)
                ==> b.subrange(8, 12) == bytes::le32((info.size % 0x1_0000_0000) as u32)
            &&& match info.data {
                InodeData::RegularFile { chunk_indexes } => {
                    &&& b.subrange(16, 20) == bytes::le32((20 + chunkbits) as u32)
                    &&& 0 <= i < chunk_indexes@.len() ==> b.subrange(
                        base + 8 * i,
                        base + 8 * i + 8,
                    ) == ondisk::chunk_index(
                        chunk_indexes@[i].blkaddr,
                        chunk_indexes@[i].device_id,
                    )
                },
                InodeData::Symlink { target } => b.subrange(base, base + target@.len()) == target@,
                InodeData::Directory { startblk, .. } => {
                    &&& b.subrange(6, 8) == bytes::le16(
                        (startblk / 0x1_0000_0000 % 0x1_0000) as u16,
                    )
                    &&& b.subrange(16, 20) == bytes::le32((startblk % 0x1_0000_0000) as u32)
                },
                InodeData::SpecialDev { rdev } => b.subrange(16, 20) == bytes::le32(rdev),
                InodeData::SpecialNoData => true,
            }
        }),
{
    let m = info@;
    records::law_inode_tail(m, epoch, chunkbits);
    if m.is_extended {
        records::law_extended_inode_bytes(m, epoch, chunkbits);
    } else {
        records::law_compact_inode_bytes(m, epoch, chunkbits);
    }
}

/// A serialized superblock has its fields where the format has them.
pub proof fn law_serialized_superblock(
    feature_compat: u32,
    feature_incompat: u32,
    root_nid: u16,
    inos: u64,
    epoch: u64,
    blocks: u64,
    meta_blkaddr: u32,
    extra_devices: u16,
    devt_slotoff: u16,
    uuid: &[u8; 16],
    r: [u8; 128],
)
    requires
        call_ensures(
            ondisk::serialize_superblock,
            (
                feature_compat,
                feature_incompat,
                root_nid,
                inos,
                epoch,
                blocks,
                meta_blkaddr,
                extra_devices,
                devt_slotoff,
                uuid,
            ),
            r,
        ),
    ensures
        ({
            let b = r@;
            &&& b.subrange(0, 4) == bytes::le32(0xE0F5_E1E2)
            &&& b.subrange(8, 12) == bytes::le32((feature_compat - feature_compat % 2) as u32)
            &&& b[12] == 12
            &&& b.subrange(14, 16) == bytes::le16(root_nid)
            &&& b.subrange(16, 24) == bytes::le64(inos)
            &&& b.subrange(24, 32) == bytes::le64(epoch)
            &&& b.subrange(36, 40) == bytes::le32((blocks % 0x1_0000_0000) as u32)
            &&& b.subrange(40, 44) == bytes::le32(meta_blkaddr)
            &&& b.subrange(48, 64) == uuid@
            &&& b.subrange(80, 84) == bytes::le32(feature_incompat)
            &&& b.subrange(86, 88) == bytes::le16(extra_devices)
            &&& b.subrange(88, 90) == bytes::le16(devt_slotoff)
        }),
{
    records::law_superblock_fields(
        feature_compat,
        feature_incompat,
        root_nid,
        inos,
        epoch,
        blocks,
        meta_blkaddr,
        extra_devices,
        devt_slotoff,
        uuid@,
    );
}

/// A serialized directory entry, chunk index and device slot have their fields
/// where the format has them.
pub proof fn law_serialized_small_records(
    nid: u64,
    nameoff: u16,
    file_type: u8,
    entry: [u8; 12],
    blkaddr: u64,
    device_id: u16,
    index: [u8; 8],
    blocks: u64,
    slot: [u8; 128],
)
    requires
        call_ensures(ondisk::serialize_dirent, (nid, nameoff, file_type), entry),
        call_ensures(ondisk::serialize_chunk_index, (blkaddr, device_id), index),
        call_ensures(ondisk::serialize_device_slot, (blocks,), slot),
    ensures
        entry@.subrange(0, 8) == bytes::le64(nid),
        entry@.subrange(8, 10) == bytes::le16(nameoff),
        entry@[10] == file_type,
        blkaddr != 0xFFFF_FFFF_FFFF_FFFF ==> {
            &&& index@.subrange(0, 2) == bytes::le16(((blkaddr / 0x1_0000_0000) % 0x1_0000) as u16)
            &&& index@.subrange(2, 4) == bytes::le16(device_id)
            &&& index@.subrange(4, 8) == bytes::le32((blkaddr % 0x1_0000_0000) as u32)
        },
        blkaddr == 0xFFFF_FFFF_FFFF_FFFF ==> forall|i: int|
            0 <= i < 8 ==> #[trigger] index@[i] == 0xFF,
        slot@.subrange(64, 68) == bytes::le32((blocks % 0x1_0000_0000) as u32),
        forall|i: int| 0 <= i < 128 && !(64 <= i < 68) ==> #[trigger] slot@[i] == 0,
{
    records::law_dirent_and_slot_fields(nid, nameoff, file_type, blocks);
    records::law_chunk_index_fields(blkaddr, device_id);
}

// ---------------------------------------------------------------------------
// What may be asked for
// ---------------------------------------------------------------------------

/// A writer on a device of less than 2^40 blocks, with less than 2^52 bytes
/// saved, may place and write any chunk and any file of less than 2^40 bytes.
pub proof fn law_ordinary_files_may_be_written(
    writer: &mut BlobWriter,
    hash: &[u8; 32],
    len: usize,
    data: &[u8],
)
    requires
        old(writer).wf(),
        0 <= old(writer)@.next_blkaddr < 0x100_0000_0000,
        0 <= old(writer)@.saved < 0x10_0000_0000_0000,
        old(writer)@.chunksize > 0,
        len < 0x100_0000_0000,
        data@.len() < 0x100_0000_0000,
        data@.len() + 4096 <= usize::MAX,
    ensures
        call_requires(BlobWriter::place_chunk, (writer, hash, len)),
        call_requires(BlobWriter::write_chunk, (writer, data)),
        call_requires(BlobWriter::write_file_chunks, (writer, data)),
{
    blob::law_ordinary_files_have_room(old(writer)@, len as int, hash@);
    blob::law_ordinary_files_have_room(old(writer)@, data@.len() as int, hash@);
}

/// There is room for a file exactly if the counts of blocks and of saved bytes
/// would stay within 64 bits, with a block for each of its bytes; and for a chunk
/// exactly if they stay within 64 bits once it is placed.
pub proof fn law_room(
    writer: BlobWriter,
    file_size: u64,
    room: bool,
    hash: &[u8; 32],
    len: usize,
    blocks: int,
    place: bool,
)
    requires
        call_ensures(BlobWriter::has_room, (&writer, file_size), room),
        call_ensures(BlobWriter::can_place, (&writer, hash, len), place),
        (blocks - 1) * 4096 < len <= blocks * 4096,
    ensures
        room <==> writer@.next_blkaddr + file_size <= u64::MAX && writer@.saved + file_size * 4096
            <= u64::MAX,
        writer@.next_blkaddr <= u64::MAX && writer@.saved <= u64::MAX ==> (place
            <==> if writer@.dedup.dom().contains(hash@) {
            writer@.saved + blocks * 4096 <= u64::MAX
        } else {
            writer@.next_blkaddr + blocks <= u64::MAX
        }),
{
    assert(blobchunk::blocks_for(len as int) == blocks);
}

/// The chunks of a file may be asked for and hashed one after the other.
pub proof fn law_chunks_may_be_asked_for(
    chunks: FileChunks,
    writer: BlobWriter,
    file_size: u64,
    data: &[u8],
)
    requires
        chunks.chunksize > 0,
        writer@.chunksize > 0,
        writer.wf(),
        data@.len() + 4096 <= usize::MAX,
    ensures
        call_requires(FileChunks::new, (&writer, file_size)),
        call_requires(FileChunks::next_len, (&chunks,)),
        call_requires(BlobWriter::plan_chunk, (&writer, data)),
        call_requires(BlobWriter::has_room, (&writer, file_size)),
{
}

/// An inode may be serialized if what it holds fits into memory.
pub proof fn law_inodes_may_be_serialized(info: InodeInfo, epoch: u64, chunkbits: u32)
    requires
        chunkbits >= 12,
        match info.data {
            InodeData::RegularFile { chunk_indexes } => 64 + 8 * chunk_indexes@.len()
                <= usize::MAX,
            InodeData::Symlink { target } => 64 + target@.len() <= usize::MAX,
            _ => true,
        },
    ensures
        call_requires(inode::serialize_inode, (&info, epoch, chunkbits)),
        call_requires(inode::inode_meta_size, (&info, chunkbits, 12)),
{
}

} // verus!
