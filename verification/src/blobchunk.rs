//! Splitting files into chunks and placing the chunks on the blob device,
//! each distinct chunk once.
use crate::bytes;
use crate::dedup::DedupIndex;
use crate::ondisk;
use crate::ondisk::EROFS_BLOCK_SIZE;
use vstd::prelude::*;

verus! {

/// Device id of the blob device in chunk indexes.
pub const BLOB_DEVICE_ID: u16 = 1;

/// Information about a single chunk, as stored behind an inode.
#[derive(Clone, Copy, PartialEq, Eq, Structural, Debug)]
pub struct ChunkIndex {
    /// Block address on the device.
    pub blkaddr: u64,
    /// Device: 1 for the blob device.
    pub device_id: u16,
}

// ---------------------------------------------------------------------------
// Model
// ---------------------------------------------------------------------------

/// The BLAKE3 hash of `data`.
pub uninterp spec fn blake3_digest(data: Seq<u8>) -> Seq<u8>;

/// Blocks that `len` bytes take.
pub open spec fn blocks_for(len: int) -> int {
    (len + 4095) / 4096
}

/// `data`, zero-padded to a whole number of blocks.
pub open spec fn padded(data: Seq<u8>) -> Seq<u8> {
    data + bytes::zeros((blocks_for(data.len() as int) * 4096 - data.len()) as nat)
}

/// Number of chunks of a file.
pub open spec fn chunk_count(file_size: int, chunksize: int) -> int {
    if file_size == 0 {
        0
    } else {
        ondisk::ceil_div(file_size, chunksize)
    }
}

/// Length of chunk `i`: every chunk is full but for the last one.
pub open spec fn chunk_length(file_size: int, chunksize: int, i: int) -> int {
    if file_size - i * chunksize <= chunksize {
        file_size - i * chunksize
    } else {
        chunksize
    }
}

/// The bytes of chunk `i`.
pub open spec fn chunk_data(data: Seq<u8>, chunksize: int, i: int) -> Seq<u8> {
    data.subrange(
        i * chunksize,
        i * chunksize + chunk_length(data.len() as int, chunksize, i),
    )
}

/// Blocks that a file takes when none of its chunks is on the device yet.
pub open spec fn file_blocks(file_size: int, chunksize: int, n: nat) -> int
    decreases n,
{
    if n == 0 {
        0
    } else {
        file_blocks(file_size, chunksize, (n - 1) as nat) + blocks_for(
            chunk_length(file_size, chunksize, n - 1),
        )
    }
}

/// What a `BlobWriter` keeps track of.
#[verifier::ext_equal]
pub struct BlobState {
    pub chunksize: u32,
    /// Blocks on the device.
    pub next_blkaddr: int,
    /// Address of the chunk with a given hash.
    pub dedup: Map<Seq<u8>, u64>,
    /// Bytes that were not written because their chunk was there already.
    pub saved: int,
}

impl BlobState {
    /// The address that a chunk with this hash gets.
    pub open spec fn address(self, hash: Seq<u8>) -> u64 {
        if self.dedup.dom().contains(hash) {
            self.dedup[hash]
        } else {
            self.next_blkaddr as u64
        }
    }

    /// The state after a chunk of `len` bytes with this hash: a known chunk
    /// saves its blocks, a new one goes to the end of the device.
    pub open spec fn place(self, hash: Seq<u8>, len: int) -> BlobState {
        if self.dedup.dom().contains(hash) {
            BlobState { saved: self.saved + blocks_for(len) * 4096, ..self }
        } else {
            BlobState {
                next_blkaddr: self.next_blkaddr + blocks_for(len),
                dedup: self.dedup.insert(hash, self.next_blkaddr as u64),
                ..self
            }
        }
    }

    /// The state after the chunk `data`.
    pub open spec fn add_chunk(self, data: Seq<u8>) -> BlobState {
        self.place(blake3_digest(data), data.len() as int)
    }

    /// The bytes that the chunk `data` appends to the device.
    pub open spec fn appended(self, data: Seq<u8>) -> Seq<u8> {
        if self.dedup.dom().contains(blake3_digest(data)) {
            Seq::empty()
        } else {
            padded(data)
        }
    }

    /// The state after the first `n` chunks of a file.
    pub open spec fn add_chunks(self, data: Seq<u8>, n: nat) -> BlobState
        decreases n,
    {
        if n == 0 {
            self
        } else {
            self.add_chunks(data, (n - 1) as nat).add_chunk(
                chunk_data(data, self.chunksize as int, n - 1),
            )
        }
    }

    /// The index of chunk `i` of a file.
    pub open spec fn index_of_chunk(self, data: Seq<u8>, i: int) -> ChunkIndex {
        ChunkIndex {
            blkaddr: self.add_chunks(data, i as nat).address(
                blake3_digest(chunk_data(data, self.chunksize as int, i)),
            ),
            device_id: BLOB_DEVICE_ID,
        }
    }

    /// The indexes of the first `n` chunks of a file.
    pub open spec fn chunk_indexes(self, data: Seq<u8>, n: nat) -> Seq<ChunkIndex> {
        Seq::new(n, |i: int| self.index_of_chunk(data, i))
    }

    /// The bytes that the first `n` chunks of a file append to the device.
    pub open spec fn blob_data(self, data: Seq<u8>, n: nat) -> Seq<u8>
        decreases n,
    {
        if n == 0 {
            Seq::empty()
        } else {
            self.blob_data(data, (n - 1) as nat) + self.add_chunks(data, (n - 1) as nat).appended(
                chunk_data(data, self.chunksize as int, n - 1),
            )
        }
    }

    /// Placing a chunk of `len` bytes with this hash keeps the counts within 64
    /// bits.
    pub open spec fn place_fits(self, hash: Seq<u8>, len: int) -> bool {
        &&& self.place(hash, len).next_blkaddr <= u64::MAX
        &&& self.place(hash, len).saved <= u64::MAX
    }

    /// The device has room for `blocks` more blocks, and so has the count of
    /// saved bytes.
    pub open spec fn room(self, blocks: int) -> bool {
        &&& self.next_blkaddr + blocks <= u64::MAX
        &&& self.saved + blocks * 4096 <= u64::MAX
    }
}

// ---------------------------------------------------------------------------
// Arithmetic of chunks
// ---------------------------------------------------------------------------

/// The chunks of a file are non-empty, at most `chunksize` long, and end with
/// the file.
pub proof fn lemma_chunk_bounds(file_size: int, chunksize: int, i: int)
    requires
        file_size >= 0,
        chunksize > 0,
        0 <= i < chunk_count(file_size, chunksize),
    ensures
        0 <= i * chunksize < file_size,
        0 < chunk_length(file_size, chunksize, i) <= chunksize,
        i * chunksize + chunk_length(file_size, chunksize, i) <= file_size,
        i + 1 < chunk_count(file_size, chunksize) ==> chunk_length(file_size, chunksize, i)
            == chunksize,
        i + 1 == chunk_count(file_size, chunksize) ==> i * chunksize + chunk_length(
            file_size,
            chunksize,
            i,
        ) == file_size,
{
    let n = chunk_count(file_size, chunksize);
    let q = (file_size + chunksize - 1) / chunksize;
    vstd::arithmetic::div_mod::lemma_fundamental_div_mod(file_size + chunksize - 1, chunksize);
    vstd::arithmetic::div_mod::lemma_mod_bound(file_size + chunksize - 1, chunksize);
    vstd::arithmetic::mul::lemma_mul_is_commutative(chunksize, q);
    vstd::arithmetic::mul::lemma_mul_inequality(i, q - 1, chunksize);
    vstd::arithmetic::mul::lemma_mul_is_distributive_sub_other_way(chunksize, q, 1);
    vstd::arithmetic::mul::lemma_mul_nonnegative(i, chunksize);
    if i + 1 < n {
        vstd::arithmetic::mul::lemma_mul_inequality(i + 1, q - 1, chunksize);
        vstd::arithmetic::mul::lemma_mul_is_distributive_add_other_way(chunksize, i, 1);
    }
}

/// `file_blocks` grows with the number of chunks.
pub proof fn lemma_file_blocks_monotone(file_size: int, chunksize: int, m: nat, n: nat)
    requires
        file_size >= 0,
        chunksize > 0,
        m <= n <= chunk_count(file_size, chunksize),
    ensures
        0 <= file_blocks(file_size, chunksize, m) <= file_blocks(file_size, chunksize, n),
    decreases n,
{
    if n == 0 {
    } else {
        lemma_chunk_bounds(file_size, chunksize, n - 1);
        if m < n {
            lemma_file_blocks_monotone(file_size, chunksize, m, (n - 1) as nat);
        } else {
            lemma_file_blocks_monotone(file_size, chunksize, 0, (n - 1) as nat);
        }
    }
}

/// A file takes no more blocks than it has bytes.
pub proof fn lemma_file_blocks_bound(file_size: int, chunksize: int, n: nat)
    requires
        file_size >= 0,
        n > 0 ==> chunksize > 0,
        n <= chunk_count(file_size, chunksize),
    ensures
        file_blocks(file_size, chunksize, n) <= file_size,
        n < chunk_count(file_size, chunksize) && chunksize > 0 ==> file_blocks(
            file_size,
            chunksize,
            n,
        ) <= n * chunksize,
    decreases n,
{
    if n > 0 {
        lemma_chunk_bounds(file_size, chunksize, n - 1);
        lemma_file_blocks_bound(file_size, chunksize, (n - 1) as nat);
        vstd::arithmetic::mul::lemma_mul_is_distributive_add_other_way(chunksize, n - 1, 1);
    }
}

/// A file adds at most `file_blocks` to either count.
pub proof fn lemma_add_chunks_room(st: BlobState, data: Seq<u8>, n: nat)
    requires
        st.chunksize > 0,
        n <= chunk_count(data.len() as int, st.chunksize as int),
    ensures
        st.add_chunks(data, n).chunksize == st.chunksize,
        st.next_blkaddr <= st.add_chunks(data, n).next_blkaddr <= st.next_blkaddr + file_blocks(
            data.len() as int,
            st.chunksize as int,
            n,
        ),
        st.saved <= st.add_chunks(data, n).saved <= st.saved + 4096 * file_blocks(
            data.len() as int,
            st.chunksize as int,
            n,
        ),
    decreases n,
{
    if n > 0 {
        lemma_add_chunks_room(st, data, (n - 1) as nat);
        lemma_chunk_bounds(data.len() as int, st.chunksize as int, n - 1);
        lemma_file_blocks_monotone(
            data.len() as int,
            st.chunksize as int,
            (n - 1) as nat,
            n,
        );
    }
}

/// Bits of a position inside a chunk. A chunk size has to be a power of two and
/// at least a block.
pub fn chunk_bits(chunksize: u32) -> (r: Option<u32>)
    ensures
        match r {
            Some(bits) => bits >= 12 && chunksize == vstd::arithmetic::power2::pow2(bits as nat),
            None => chunksize < 4096 || !ondisk::is_power_of_two(chunksize as int),
        },
{
    let mut bits: u32 = 12;
    let mut size: u64 = EROFS_BLOCK_SIZE as u64;
    proof {
        vstd::arithmetic::power2::lemma2_to64();
    }
    while size < chunksize as u64
        invariant
            12 <= bits <= 32,
            size == vstd::arithmetic::power2::pow2(bits as nat),
            bits > 12 ==> vstd::arithmetic::power2::pow2((bits - 1) as nat) < chunksize,
        decreases 32 - bits,
    {
        proof {
            vstd::arithmetic::power2::lemma2_to64();
            if bits == 32 {
                assert(false);
            }
            vstd::arithmetic::power2::lemma_pow2_unfold((bits + 1) as nat);
        }
        size = size * 2;
        bits = bits + 1;
    }
    if size == chunksize as u64 {
        Some(bits)
    } else {
        proof {
            assert forall|k: nat| chunksize != #[trigger] vstd::arithmetic::power2::pow2(k)
                || chunksize < 4096 by {
                if k > bits {
                    vstd::arithmetic::power2::lemma_pow2_strictly_increases(bits as nat, k);
                } else if bits > 12 && k < bits - 1 {
                    vstd::arithmetic::power2::lemma_pow2_strictly_increases(k, (bits - 1) as nat);
                } else if bits == 12 && k < 12 {
                    vstd::arithmetic::power2::lemma_pow2_strictly_increases(k, 12);
                }
            }
        }
        None
    }
}

// ---------------------------------------------------------------------------
// Writer
// ---------------------------------------------------------------------------

/// Calls `blake3::hash`, which computes the 32-byte BLAKE3 hash of its input:
/// a function of the input bytes alone.
#[verifier::external_body]
fn blake3_hash(data: &[u8]) -> (r: [u8; 32])
    ensures
        r@ == blake3_digest(data@),
{
    *blake3::hash(data).as_bytes()
}

/// Blocks that `len` bytes take.
fn blocks_of(len: usize) -> (r: u64)
    ensures
        r == blocks_for(len as int),
{
    if len % 4096 == 0 {
        (len / 4096) as u64
    } else {
        (len / 4096 + 1) as u64
    }
}

/// Where a chunk goes.
#[derive(Clone, Copy, PartialEq, Eq, Structural, Debug)]
pub struct Placement {
    pub blkaddr: u64,
    /// The chunk is not on the device yet and has to be written.
    pub fresh: bool,
}

/// A chunk that is about to be placed: its hash, and the bytes to append to the
/// device first.
pub struct PlannedChunk {
    pub hash: [u8; 32],
    pub blob_data: Vec<u8>,
}

/// What writing a chunk gives: its index, and the bytes to append to the device.
pub struct WrittenChunk {
    pub index: ChunkIndex,
    pub blob_data: Vec<u8>,
}

/// What writing a file gives: the indexes of its chunks, and the bytes to
/// append to the device.
pub struct WrittenFile {
    pub indexes: Vec<ChunkIndex>,
    pub blob_data: Vec<u8>,
}

/// Places chunks on the blob device, and each distinct chunk once.
pub struct BlobWriter {
    chunksize: u32,
    /// Current end of the device, in blocks.
    next_blkaddr: u64,
    /// Hash to address.
    dedup: DedupIndex,
    /// Total bytes saved by deduplication.
    saved_by_dedup: u64,
}

impl View for BlobWriter {
    type V = BlobState;

    closed spec fn view(&self) -> BlobState {
        BlobState {
            chunksize: self.chunksize,
            next_blkaddr: self.next_blkaddr as int,
            dedup: self.dedup@,
            saved: self.saved_by_dedup as int,
        }
    }
}

impl BlobWriter {
    pub closed spec fn wf(self) -> bool {
        self.dedup.wf()
    }

    /// A writer for an empty device.
    pub fn new(chunksize: u32) -> (r: BlobWriter)
        ensures
            r.wf(),
            r@ == (BlobState {
                chunksize,
                next_blkaddr: 0,
                dedup: Map::<Seq<u8>, u64>::empty(),
                saved: 0,
            }),
    {
        BlobWriter { chunksize, next_blkaddr: 0, dedup: DedupIndex::new(), saved_by_dedup: 0 }
    }

    /// Total number of blocks on the blob device.
    pub fn total_blocks(&self) -> (r: u64)
        ensures
            r == self@.next_blkaddr,
    {
        self.next_blkaddr
    }

    /// Total bytes saved by deduplication.
    pub fn saved_by_dedup(&self) -> (r: u64)
        ensures
            r == self@.saved,
    {
        self.saved_by_dedup
    }

    /// Tell whether the counts have room for a file of `file_size` bytes, even
    /// if each byte took a block.
    pub fn has_room(&self, file_size: u64) -> (r: bool)
        requires
            file_size > 0 ==> self@.chunksize > 0,
        ensures
            r == self@.room(file_size as int),
            r ==> self@.room(
                file_blocks(
                    file_size as int,
                    self@.chunksize as int,
                    chunk_count(file_size as int, self@.chunksize as int) as nat,
                ),
            ),
    {
        proof {
            if file_size > 0 {
                let n = chunk_count(file_size as int, self@.chunksize as int);
                vstd::arithmetic::div_mod::lemma_div_pos_is_pos(
                    file_size + self@.chunksize - 1,
                    self@.chunksize as int,
                );
                lemma_file_blocks_bound(file_size as int, self@.chunksize as int, n as nat);
            }
        }
        file_size <= u64::MAX - self.next_blkaddr && file_size <= (u64::MAX - self.saved_by_dedup)
            / 4096
    }

    /// Tell whether a chunk of `len` bytes can be placed by its hash.
    pub fn can_place(&self, hash: &[u8; 32], len: usize) -> (r: bool)
        requires
            self.wf(),
        ensures
            r == self@.place_fits(hash@, len as int),
    {
        let nblocks: u64 = blocks_of(len);
        match self.dedup.get(hash) {
            Some(_) => nblocks <= (u64::MAX - self.saved_by_dedup) / 4096,
            None => nblocks <= u64::MAX - self.next_blkaddr,
        }
    }

    /// Place a chunk of `len` bytes by its hash.
    pub fn place_chunk(&mut self, hash: &[u8; 32], len: usize) -> (r: Placement)
        requires
            old(self).wf(),
            old(self)@.place_fits(hash@, len as int),
        ensures
            final(self).wf(),
            final(self)@ == old(self)@.place(hash@, len as int),
            r.blkaddr == old(self)@.address(hash@),
            r.fresh == !old(self)@.dedup.dom().contains(hash@),
    {
        let nblocks: u64 = blocks_of(len);
        match self.dedup.get(hash) {
            Some(blkaddr) => {
                self.saved_by_dedup = self.saved_by_dedup + nblocks * (EROFS_BLOCK_SIZE as u64);
                Placement { blkaddr, fresh: false }
            },
            None => {
                let blkaddr: u64 = self.next_blkaddr;
                self.next_blkaddr = self.next_blkaddr + nblocks;
                self.dedup.insert(hash, blkaddr);
                Placement { blkaddr, fresh: true }
            },
        }
    }

    /// Hash a chunk with BLAKE3, and tell the bytes to append to the device: for
    /// a chunk that is not on it yet, its data, zero-padded to whole blocks.
    pub fn plan_chunk(&self, data: &[u8]) -> (r: PlannedChunk)
        requires
            self.wf(),
            data@.len() + 4096 <= usize::MAX,
        ensures
            r.hash@ == blake3_digest(data@),
            r.blob_data@ == self@.appended(data@),
            r.blob_data@.len() % 4096 == 0,
            r.blob_data@.len() == 0 || data@.len() <= r.blob_data@.len() < data@.len() + 4096,
    {
        let hash: [u8; 32] = blake3_hash(data);
        let mut blob_data: Vec<u8> = Vec::new();
        if self.dedup.get(&hash).is_none() {
            blob_data = vstd::slice::slice_to_vec(data);
            let over: usize = data.len() % 4096;
            if over > 0 {
                blob_data.resize(data.len() + (4096 - over), 0);
            }
            assert(blob_data@ =~= padded(data@));
        }
        PlannedChunk { hash, blob_data }
    }

    /// Place the chunk `data` by its BLAKE3 hash. A chunk that is not on the
    /// device yet is appended to it, zero-padded to whole blocks.
    pub fn write_chunk(&mut self, data: &[u8]) -> (r: WrittenChunk)
        requires
            old(self).wf(),
            old(self)@.room(blocks_for(data@.len() as int)),
            data@.len() + 4096 <= usize::MAX,
        ensures
            final(self).wf(),
            final(self)@ == old(self)@.add_chunk(data@),
            r.index == (ChunkIndex {
                blkaddr: old(self)@.address(blake3_digest(data@)),
                device_id: BLOB_DEVICE_ID,
            }),
            r.blob_data@ == old(self)@.appended(data@),
    {
        let planned = self.plan_chunk(data);
        let placement = self.place_chunk(&planned.hash, data.len());
        WrittenChunk {
            index: ChunkIndex { blkaddr: placement.blkaddr, device_id: BLOB_DEVICE_ID },
            blob_data: planned.blob_data,
        }
    }

    /// Split a file into chunks and place each of them.
    pub fn write_file_chunks(&mut self, data: &[u8]) -> (r: WrittenFile)
        requires
            old(self).wf(),
            data@.len() > 0 ==> old(self)@.chunksize > 0,
            old(self)@.room(
                file_blocks(
                    data@.len() as int,
                    old(self)@.chunksize as int,
                    chunk_count(data@.len() as int, old(self)@.chunksize as int) as nat,
                ),
            ),
            data@.len() + 4096 <= usize::MAX,
        ensures
            final(self).wf(),
            ({
                let n = chunk_count(data@.len() as int, old(self)@.chunksize as int) as nat;
                &&& final(self)@ == old(self)@.add_chunks(data@, n)
                &&& r.indexes@ == old(self)@.chunk_indexes(data@, n)
                &&& r.blob_data@ == old(self)@.blob_data(data@, n)
            }),
    {
        let ghost st = self@;
        let ghost n = chunk_count(data@.len() as int, st.chunksize as int) as nat;
        let mut chunks = FileChunks::new(self, data.len() as u64);
        let mut blob_data: Vec<u8> = Vec::new();
        let mut at: usize = 0;
        let mut next: Option<usize> = chunks.next_len();
        assert(chunks.indexes@ =~= st.chunk_indexes(data@, 0));
        while next.is_some()
            invariant
                self.wf(),
                chunks.wf(),
                chunks.file_size == data@.len(),
                chunks.chunksize == st.chunksize,
                st == old(self)@,
                n == chunk_count(data@.len() as int, st.chunksize as int),
                data@.len() + 4096 <= usize::MAX,
                data@.len() > 0 ==> st.chunksize > 0,
                st.room(file_blocks(data@.len() as int, st.chunksize as int, n)),
                next == chunks.spec_next_len(),
                self@ == st.add_chunks(data@, chunks.indexes@.len()),
                self@.chunksize == st.chunksize,
                chunks.indexes@.len() <= n,
                chunks.indexes@.len() < n ==> at == chunks.indexes@.len() * st.chunksize,
                chunks.indexes@ == st.chunk_indexes(data@, chunks.indexes@.len()),
                blob_data@ == st.blob_data(data@, chunks.indexes@.len()),
            decreases n - chunks.indexes@.len(),
        {
            let ghost i = chunks.indexes@.len();
            proof {
                lemma_chunk_bounds(data@.len() as int, st.chunksize as int, i as int);
                lemma_add_chunks_room(st, data@, i);
                lemma_file_blocks_monotone(data@.len() as int, st.chunksize as int, i + 1, n);
                law_chunk_by_chunk(st, data@, i);
            }
            let len: usize = next.unwrap();
            let chunk: &[u8] = vstd::slice::slice_subrange(data, at, at + len);
            assert(chunk@ == chunk_data(data@, st.chunksize as int, i as int));
            let mut appended: Vec<u8> = chunks.write(self, chunk);
            blob_data.append(&mut appended);
            at = at + len;
            next = chunks.next_len();
            proof {
                if i + 1 < n {
                    vstd::arithmetic::mul::lemma_mul_is_distributive_add_other_way(
                        st.chunksize as int,
                        i as int,
                        1,
                    );
                }
            }
        }
        WrittenFile { indexes: chunks.finish(), blob_data }
    }
}

/// A regular file that is written chunk by chunk.
pub struct FileChunks {
    pub file_size: u64,
    pub chunksize: u32,
    /// The indexes of the chunks written so far.
    pub indexes: Vec<ChunkIndex>,
}

impl FileChunks {
    pub open spec fn wf(self) -> bool {
        self.file_size > 0 ==> self.chunksize > 0
    }

    /// Number of chunks of the file.
    pub open spec fn count(self) -> int {
        chunk_count(self.file_size as int, self.chunksize as int)
    }

    /// Length of the chunk that comes next, if there is one.
    pub open spec fn spec_next_len(self) -> Option<usize> {
        if self.indexes@.len() < self.count() {
            Some(
                chunk_length(
                    self.file_size as int,
                    self.chunksize as int,
                    self.indexes@.len() as int,
                ) as usize,
            )
        } else {
            None
        }
    }

    /// Start a file of `file_size` bytes.
    pub fn new(writer: &BlobWriter, file_size: u64) -> (r: FileChunks)
        requires
            file_size > 0 ==> writer@.chunksize > 0,
        ensures
            r.wf(),
            r.file_size == file_size,
            r.chunksize == writer@.chunksize,
            r.indexes@ == Seq::<ChunkIndex>::empty(),
    {
        FileChunks { file_size, chunksize: writer.chunksize, indexes: Vec::new() }
    }

    /// Length of the chunk that comes next, if there is one.
    pub fn next_len(&self) -> (r: Option<usize>)
        requires
            self.wf(),
        ensures
            r == self.spec_next_len(),
            r matches Some(len) ==> 0 < len <= self.chunksize && len == chunk_length(
                self.file_size as int,
                self.chunksize as int,
                self.indexes@.len() as int,
            ),
    {
        if self.file_size == 0 {
            return None;
        }
        let cs: u64 = self.chunksize as u64;
        let i: u64 = self.indexes.len() as u64;
        if i >= ondisk::div_ceil(self.file_size, cs) {
            return None;
        }
        proof {
            lemma_chunk_bounds(self.file_size as int, cs as int, i as int);
        }
        let remaining: u64 = self.file_size - i * cs;
        if remaining <= cs {
            Some(remaining as usize)
        } else {
            Some(self.chunksize as usize)
        }
    }

    /// Place the chunk that comes next by its hash, once its bytes are on the
    /// device.
    pub fn place(&mut self, writer: &mut BlobWriter, hash: &[u8; 32])
        requires
            old(self).wf(),
            old(writer).wf(),
            old(self).spec_next_len() matches Some(len) && old(writer)@.place_fits(
                hash@,
                len as int,
            ),
        ensures
            final(writer).wf(),
            final(writer)@ == old(writer)@.place(hash@, old(self).spec_next_len()->0 as int),
            final(self).file_size == old(self).file_size,
            final(self).chunksize == old(self).chunksize,
            final(self).indexes@ == old(self).indexes@.push(
                ChunkIndex { blkaddr: old(writer)@.address(hash@), device_id: BLOB_DEVICE_ID },
            ),
    {
        match self.next_len() {
            None => {},
            Some(len) => {
                let placement = writer.place_chunk(hash, len);
                self.indexes.push(
                    ChunkIndex { blkaddr: placement.blkaddr, device_id: BLOB_DEVICE_ID },
                );
            },
        }
    }

    /// Write the chunk that comes next; gives the bytes to append to the device.
    pub fn write(&mut self, writer: &mut BlobWriter, chunk: &[u8]) -> (r: Vec<u8>)
        requires
            old(self).wf(),
            old(writer).wf(),
            old(writer)@.room(blocks_for(chunk@.len() as int)),
            old(self).spec_next_len() == Some(chunk@.len() as usize),
            chunk@.len() + 4096 <= usize::MAX,
        ensures
            final(writer).wf(),
            final(writer)@ == old(writer)@.add_chunk(chunk@),
            final(self).file_size == old(self).file_size,
            final(self).chunksize == old(self).chunksize,
            final(self).indexes@ == old(self).indexes@.push(
                ChunkIndex {
                    blkaddr: old(writer)@.address(blake3_digest(chunk@)),
                    device_id: BLOB_DEVICE_ID,
                },
            ),
            r@ == old(writer)@.appended(chunk@),
    {
        let planned = writer.plan_chunk(chunk);
        self.place(writer, &planned.hash);
        planned.blob_data
    }

    /// The indexes of all chunks.
    pub fn finish(self) -> (r: Vec<ChunkIndex>)
        ensures
            r@ == self.indexes@,
    {
        self.indexes
    }
}

// ---------------------------------------------------------------------------
// Laws
// ---------------------------------------------------------------------------

/// `chunk` stands on the device `blob`, from block `blkaddr` on.
pub open spec fn stored_at(blob: Seq<u8>, blkaddr: u64, chunk: Seq<u8>) -> bool {
    &&& blkaddr * 4096 + chunk.len() <= blob.len()
    &&& blob.subrange(blkaddr * 4096, blkaddr * 4096 + chunk.len()) == chunk
}

/// No two chunks of `chunks` have the same hash.
pub open spec fn hashes_distinct(chunks: Set<Seq<u8>>) -> bool {
    forall|a: Seq<u8>, b: Seq<u8>|
        chunks.contains(a) && chunks.contains(b) && #[trigger] blake3_digest(a)
            == #[trigger] blake3_digest(b) ==> a == b
}

/// The first `n` chunks of a file.
pub open spec fn chunks_of(data: Seq<u8>, chunksize: int, n: nat) -> Set<Seq<u8>> {
    Set::new(|c: Seq<u8>| exists|i: int| 0 <= i < n && c == #[trigger] chunk_data(data, chunksize, i))
}

/// `blob` is the device that a writer in state `st` has filled with the chunks
/// of `known`: it ends where the writer says, and every hash of the index is
/// that of a known chunk, which stands at its address, with zeros up to the end
/// of its last block.
pub open spec fn device_matches(st: BlobState, blob: Seq<u8>, known: Set<Seq<u8>>) -> bool {
    &&& 0 <= st.next_blkaddr <= u64::MAX
    &&& blob.len() == st.next_blkaddr * 4096
    &&& forall|hash: Seq<u8>| #[trigger]
        st.dedup.dom().contains(hash) ==> exists|c: Seq<u8>|
            known.contains(c) && #[trigger] blake3_digest(c) == hash && stored_at(
                blob,
                st.dedup[hash],
                padded(c),
            )
}

/// A chunk that was placed once gets the same address again, adds nothing to
/// the device and counts as saved.
pub proof fn law_chunk_stored_once(st: BlobState, data: Seq<u8>)
    requires
        0 <= st.next_blkaddr <= u64::MAX,
    ensures
        ({
            let hash = blake3_digest(data);
            let once = st.add_chunk(data);
            let twice = once.add_chunk(data);
            &&& once.address(hash) == st.address(hash)
            &&& once.appended(data) == Seq::<u8>::empty()
            &&& twice.next_blkaddr == once.next_blkaddr
            &&& twice.dedup == once.dedup
            &&& twice.saved == once.saved + blocks_for(data.len() as int) * 4096
        }),
{
}

/// Addresses follow the order of the chunks: every address is in use, and no two
/// hashes share one.
pub open spec fn addresses_in_order(st: BlobState) -> bool {
    &&& 0 <= st.next_blkaddr <= u64::MAX
    &&& forall|h: Seq<u8>| #[trigger] st.dedup.dom().contains(h) ==> st.dedup[h] < st.next_blkaddr
    &&& forall|g: Seq<u8>, h: Seq<u8>|
        #![trigger st.dedup[g], st.dedup[h]]
        st.dedup.dom().contains(g) && st.dedup.dom().contains(h) && st.dedup[g] == st.dedup[h]
            ==> g == h
}

/// New chunks get ascending addresses without gaps: one that is not on the
/// device yet gets the end of the device, which then grows by its blocks, and
/// one that is there gets an address in use and leaves the end as it is. No
/// chunk moves, and chunks with different hashes never share an address.
pub proof fn law_new_chunks_ascend(st: BlobState, chunk: Seq<u8>)
    requires
        addresses_in_order(st),
        chunk.len() > 0,
        st.next_blkaddr + blocks_for(chunk.len() as int) <= u64::MAX,
    ensures
        ({
            let hash = blake3_digest(chunk);
            let after = st.add_chunk(chunk);
            &&& addresses_in_order(after)
            &&& after.dedup.dom().contains(hash) && after.dedup[hash] == st.address(hash)
            &&& if st.dedup.dom().contains(hash) {
                st.address(hash) < st.next_blkaddr && after.next_blkaddr == st.next_blkaddr
            } else {
                st.address(hash) == st.next_blkaddr && after.next_blkaddr == st.next_blkaddr
                    + blocks_for(chunk.len() as int) > st.next_blkaddr
            }
            &&& forall|h: Seq<u8>| #[trigger]
                after.dedup.dom().contains(h) <==> st.dedup.dom().contains(h) || h == hash
            &&& forall|h: Seq<u8>| #[trigger]
                st.dedup.dom().contains(h) ==> after.dedup[h] == st.dedup[h]
        }),
{
}

/// Two chunks that a writer has placed have the same address exactly if they
/// have the same hash.
pub proof fn law_address_tells_hash(st: BlobState, x: Seq<u8>, y: Seq<u8>)
    requires
        addresses_in_order(st),
        st.dedup.dom().contains(blake3_digest(x)),
        st.dedup.dom().contains(blake3_digest(y)),
    ensures
        st.address(blake3_digest(x)) == st.address(blake3_digest(y)) <==> blake3_digest(x)
            == blake3_digest(y),
{
}

/// `h` is the hash of one of the first `n` chunks of a file.
pub open spec fn hash_among(data: Seq<u8>, chunksize: int, n: nat, h: Seq<u8>) -> bool {
    exists|i: int| 0 <= i < n && blake3_digest(#[trigger] chunk_data(data, chunksize, i)) == h
}

/// The chunk behind the first `n` adds its hash to theirs.
proof fn lemma_hash_among_next(data: Seq<u8>, chunksize: int, n: nat, h: Seq<u8>)
    ensures
        hash_among(data, chunksize, n + 1, h) <==> hash_among(data, chunksize, n, h)
            || blake3_digest(chunk_data(data, chunksize, n as int)) == h,
{
    if hash_among(data, chunksize, n + 1, h) {
        let i = choose|i: int|
            0 <= i < n + 1 && blake3_digest(#[trigger] chunk_data(data, chunksize, i)) == h;
        if i < n {
            assert(hash_among(data, chunksize, n, h));
        }
    }
    if hash_among(data, chunksize, n, h) {
        let i = choose|i: int|
            0 <= i < n && blake3_digest(#[trigger] chunk_data(data, chunksize, i)) == h;
        assert(0 <= i < n + 1 && blake3_digest(chunk_data(data, chunksize, i)) == h);
    }
    if blake3_digest(chunk_data(data, chunksize, n as int)) == h {
        assert(0 <= n < n + 1);
    }
}

/// Chunk `n` of a file keeps the addresses in order and adds its hash; nothing
/// that was there moves.
proof fn lemma_next_chunk(st: BlobState, data: Seq<u8>, n: nat)
    requires
        addresses_in_order(st.add_chunks(data, n)),
        st.chunksize > 0,
        n < chunk_count(data.len() as int, st.chunksize as int),
        st.room(file_blocks(data.len() as int, st.chunksize as int, n + 1)),
    ensures
        ({
            let before = st.add_chunks(data, n);
            let after = st.add_chunks(data, n + 1);
            let hash = blake3_digest(chunk_data(data, st.chunksize as int, n as int));
            &&& addresses_in_order(after)
            &&& after.dedup.dom().contains(hash)
            &&& after.dedup[hash] == st.index_of_chunk(data, n as int).blkaddr
            &&& forall|h: Seq<u8>| #[trigger]
                after.dedup.dom().contains(h) <==> before.dedup.dom().contains(h) || h == hash
            &&& forall|h: Seq<u8>| #[trigger]
                before.dedup.dom().contains(h) ==> after.dedup[h] == before.dedup[h]
        }),
{
    let cs = st.chunksize as int;
    let chunk = chunk_data(data, cs, n as int);
    lemma_chunk_bounds(data.len() as int, cs, n as int);
    lemma_add_chunks_room(st, data, n);
    law_new_chunks_ascend(st.add_chunks(data, n), chunk);
}

/// The first `n` chunks of a file keep the addresses in order, and their hashes
/// join those that were there.
pub proof fn lemma_file_hashes(st: BlobState, data: Seq<u8>, n: nat)
    requires
        addresses_in_order(st),
        st.chunksize > 0,
        n <= chunk_count(data.len() as int, st.chunksize as int),
        st.room(file_blocks(data.len() as int, st.chunksize as int, n)),
    ensures
        addresses_in_order(st.add_chunks(data, n)),
        forall|h: Seq<u8>| #[trigger]
            st.add_chunks(data, n).dedup.dom().contains(h) <==> st.dedup.dom().contains(h)
                || hash_among(data, st.chunksize as int, n, h),
    decreases n,
{
    if n > 0 {
        let cs = st.chunksize as int;
        let m = (n - 1) as nat;
        lemma_file_blocks_monotone(data.len() as int, cs, m, n);
        lemma_file_hashes(st, data, m);
        lemma_next_chunk(st, data, m);
        assert forall|h: Seq<u8>| #[trigger]
            st.add_chunks(data, n).dedup.dom().contains(h) <==> st.dedup.dom().contains(h)
                || hash_among(data, cs, n, h) by {
            lemma_hash_among_next(data, cs, m, h);
        }
    }
}

/// A hash that is in the index keeps its address.
pub proof fn lemma_address_stays(st: BlobState, data: Seq<u8>, m: nat, n: nat, h: Seq<u8>)
    requires
        addresses_in_order(st),
        st.chunksize > 0,
        m <= n <= chunk_count(data.len() as int, st.chunksize as int),
        st.room(file_blocks(data.len() as int, st.chunksize as int, n)),
        st.add_chunks(data, m).dedup.dom().contains(h),
    ensures
        st.add_chunks(data, n).dedup.dom().contains(h),
        st.add_chunks(data, n).dedup[h] == st.add_chunks(data, m).dedup[h],
    decreases n,
{
    if m < n {
        let p = (n - 1) as nat;
        lemma_file_blocks_monotone(data.len() as int, st.chunksize as int, p, n);
        lemma_address_stays(st, data, m, p, h);
        lemma_file_hashes(st, data, p);
        lemma_next_chunk(st, data, p);
    }
}

/// Each of the first `n` chunks of a file keeps the address that it got.
pub proof fn lemma_chunk_address(st: BlobState, data: Seq<u8>, n: nat, i: int)
    requires
        addresses_in_order(st),
        st.chunksize > 0,
        n <= chunk_count(data.len() as int, st.chunksize as int),
        st.room(file_blocks(data.len() as int, st.chunksize as int, n)),
        0 <= i < n,
    ensures
        ({
            let hash = blake3_digest(chunk_data(data, st.chunksize as int, i));
            let after = st.add_chunks(data, n);
            after.dedup.dom().contains(hash) && after.dedup[hash] == st.index_of_chunk(
                data,
                i,
            ).blkaddr
        }),
{
    let k = i as nat;
    let hash = blake3_digest(chunk_data(data, st.chunksize as int, i));
    lemma_file_blocks_monotone(data.len() as int, st.chunksize as int, k, n);
    lemma_file_blocks_monotone(data.len() as int, st.chunksize as int, k + 1, n);
    lemma_file_hashes(st, data, k);
    lemma_next_chunk(st, data, k);
    lemma_address_stays(st, data, k + 1, n, hash);
}

/// The block count follows the bytes that were appended: the device is always
/// `total_blocks` blocks long.
pub proof fn law_blocks_match_bytes(st: BlobState, data: Seq<u8>, n: nat)
    requires
        st.chunksize > 0,
        n <= chunk_count(data.len() as int, st.chunksize as int),
    ensures
        st.blob_data(data, n).len() == (st.add_chunks(data, n).next_blkaddr - st.next_blkaddr)
            * 4096,
    decreases n,
{
    if n > 0 {
        law_blocks_match_bytes(st, data, (n - 1) as nat);
        lemma_add_chunks_room(st, data, (n - 1) as nat);
        lemma_chunk_bounds(data.len() as int, st.chunksize as int, n - 1);
    }
}

/// A file can be written chunk by chunk: each chunk adds its index, its place
/// and its bytes to those of the chunks before it.
pub proof fn law_chunk_by_chunk(st: BlobState, data: Seq<u8>, i: nat)
    ensures
        ({
            let chunk = chunk_data(data, st.chunksize as int, i as int);
            let before = st.add_chunks(data, i);
            &&& st.add_chunks(data, i + 1) == before.add_chunk(chunk)
            &&& st.chunk_indexes(data, i + 1) == st.chunk_indexes(data, i).push(
                ChunkIndex {
                    blkaddr: before.address(blake3_digest(chunk)),
                    device_id: BLOB_DEVICE_ID,
                },
            )
            &&& st.blob_data(data, i + 1) == st.blob_data(data, i) + before.appended(chunk)
        }),
{
    let chunk = chunk_data(data, st.chunksize as int, i as int);
    assert(st.chunk_indexes(data, i + 1) =~= st.chunk_indexes(data, i).push(
        st.index_of_chunk(data, i as int),
    ));
}

/// What a file would take without deduplication is what it takes with it and
/// what was saved.
pub proof fn law_saved_bytes(st: BlobState, data: Seq<u8>, n: nat)
    requires
        st.chunksize > 0,
        n <= chunk_count(data.len() as int, st.chunksize as int),
    ensures
        ({
            let after = st.add_chunks(data, n);
            (after.next_blkaddr - st.next_blkaddr) * 4096 + (after.saved - st.saved) == file_blocks(
                data.len() as int,
                st.chunksize as int,
                n,
            ) * 4096
        }),
    decreases n,
{
    if n > 0 {
        law_saved_bytes(st, data, (n - 1) as nat);
        lemma_add_chunks_room(st, data, (n - 1) as nat);
        lemma_chunk_bounds(data.len() as int, st.chunksize as int, n - 1);
    }
}

/// Placing one chunk keeps the device in step, and the chunk then stands at
/// the address that it was given.
proof fn lemma_add_chunk_matches(st: BlobState, blob: Seq<u8>, known: Set<Seq<u8>>, chunk: Seq<u8>)
    requires
        device_matches(st, blob, known),
        hashes_distinct(known.insert(chunk)),
        st.next_blkaddr + blocks_for(chunk.len() as int) <= u64::MAX,
    ensures
        device_matches(
            st.add_chunk(chunk),
            blob + st.appended(chunk),
            known.insert(chunk),
        ),
        stored_at(blob + st.appended(chunk), st.address(blake3_digest(chunk)), padded(chunk)),
{
    let hash = blake3_digest(chunk);
    let after = st.add_chunk(chunk);
    let blob2 = blob + st.appended(chunk);
    let known2 = known.insert(chunk);
    assert(padded(chunk).len() == blocks_for(chunk.len() as int) * 4096);
    if st.dedup.dom().contains(hash) {
        let c = choose|c: Seq<u8>|
            known.contains(c) && #[trigger] blake3_digest(c) == hash && stored_at(
                blob,
                st.dedup[hash],
                padded(c),
            );
        assert(known2.contains(c) && known2.contains(chunk));
        assert(c == chunk);
        assert(blob2 =~= blob);
    } else {
        let a = st.next_blkaddr * 4096;
        assert(blob2.subrange(a, a + padded(chunk).len()) =~= padded(chunk));
    }
    assert forall|h: Seq<u8>| #[trigger] after.dedup.dom().contains(h) implies exists|c: Seq<u8>|
        known2.contains(c) && #[trigger] blake3_digest(c) == h && stored_at(
            blob2,
            after.dedup[h],
            padded(c),
        ) by {
        if st.dedup.dom().contains(h) {
            let c = choose|c: Seq<u8>|
                known.contains(c) && #[trigger] blake3_digest(c) == h && stored_at(
                    blob,
                    st.dedup[h],
                    padded(c),
                );
            lemma_stored_kept(blob, blob2, st.dedup[h], padded(c));
            assert(known2.contains(c) && blake3_digest(c) == h && stored_at(
                blob2,
                after.dedup[h],
                padded(c),
            ));
        } else {
            assert(h == hash);
            assert(known2.contains(chunk) && blake3_digest(chunk) == h && stored_at(
                blob2,
                after.dedup[h],
                padded(chunk),
            ));
        }
    }
}

/// What stands on a device stays there when the device grows.
pub proof fn lemma_stored_kept(blob: Seq<u8>, larger: Seq<u8>, blkaddr: u64, data: Seq<u8>)
    requires
        stored_at(blob, blkaddr, data),
        blob.is_prefix_of(larger),
    ensures
        stored_at(larger, blkaddr, data),
{
    let a = blkaddr * 4096;
    assert(larger.subrange(a, a + data.len()) =~= blob.subrange(a, a + data.len()));
}

/// A chunk with its padding starts with the chunk.
pub proof fn lemma_stored_data(blob: Seq<u8>, blkaddr: u64, chunk: Seq<u8>)
    requires
        stored_at(blob, blkaddr, padded(chunk)),
    ensures
        stored_at(blob, blkaddr, chunk),
{
    let a = blkaddr * 4096;
    assert(blob.subrange(a, a + chunk.len()) =~= blob.subrange(
        a,
        a + padded(chunk).len(),
    ).take(chunk.len() as int));
    assert(padded(chunk).take(chunk.len() as int) =~= chunk);
}

/// Once the bytes of a file have been appended, every chunk of the file stands
/// on the device at the address that its index gives, with zeros up to the end
/// of its last block, and so does every chunk that was there before: as long as
/// no two of the chunks have the same hash.
pub proof fn law_chunks_stored(
    st: BlobState,
    blob: Seq<u8>,
    known: Set<Seq<u8>>,
    data: Seq<u8>,
    n: nat,
)
    requires
        device_matches(st, blob, known),
        st.chunksize > 0,
        n <= chunk_count(data.len() as int, st.chunksize as int),
        hashes_distinct(known.union(chunks_of(data, st.chunksize as int, n))),
        st.room(file_blocks(data.len() as int, st.chunksize as int, n)),
    ensures
        device_matches(
            st.add_chunks(data, n),
            blob + st.blob_data(data, n),
            known.union(chunks_of(data, st.chunksize as int, n)),
        ),
        forall|i: int|
            0 <= i < n ==> stored_at(
                blob + st.blob_data(data, n),
                (#[trigger] st.chunk_indexes(data, n)[i]).blkaddr,
                padded(chunk_data(data, st.chunksize as int, i)),
            ),
    decreases n,
{
    let cs = st.chunksize as int;
    let all = known.union(chunks_of(data, cs, n));
    if n == 0 {
        assert(chunks_of(data, cs, n) =~= Set::<Seq<u8>>::empty());
        assert(all =~= known);
        assert(blob + st.blob_data(data, n) =~= blob);
    } else {
        let m = (n - 1) as nat;
        let chunk = chunk_data(data, cs, n - 1);
        let most = known.union(chunks_of(data, cs, m));
        assert(all =~= most.insert(chunk)) by {
            assert forall|c: Seq<u8>| #[trigger] all.contains(c) == most.insert(chunk).contains(c) by {
                if chunks_of(data, cs, n).contains(c) {
                    let i = choose|i: int| 0 <= i < n && c == #[trigger] chunk_data(data, cs, i);
                    if i < m {
                        assert(chunks_of(data, cs, m).contains(c));
                    }
                }
                if chunks_of(data, cs, m).contains(c) {
                    let i = choose|i: int| 0 <= i < m && c == #[trigger] chunk_data(data, cs, i);
                    assert(chunks_of(data, cs, n).contains(c));
                }
            }
        }
        assert(hashes_distinct(most)) by {
            assert forall|a: Seq<u8>, b: Seq<u8>|
                most.contains(a) && most.contains(b) && #[trigger] blake3_digest(a)
                    == #[trigger] blake3_digest(b) implies a == b by {
                assert(all.contains(a) && all.contains(b));
            }
        }
        lemma_chunk_bounds(data.len() as int, cs, n - 1);
        lemma_file_blocks_monotone(data.len() as int, cs, m, n);
        law_chunks_stored(st, blob, known, data, m);
        lemma_add_chunks_room(st, data, m);
        let before = blob + st.blob_data(data, m);
        let mid = st.add_chunks(data, m);
        lemma_add_chunk_matches(mid, before, most, chunk);
        let after = blob + st.blob_data(data, n);
        assert(after =~= before + mid.appended(chunk));
        assert forall|i: int| 0 <= i < n implies stored_at(
            after,
            (#[trigger] st.chunk_indexes(data, n)[i]).blkaddr,
            padded(chunk_data(data, cs, i)),
        ) by {
            if i < m {
                assert(st.chunk_indexes(data, m)[i] == st.chunk_indexes(data, n)[i]);
                lemma_stored_kept(
                    before,
                    after,
                    st.chunk_indexes(data, m)[i].blkaddr,
                    padded(chunk_data(data, cs, i)),
                );
            }
        }
    }
}

} // verus!
