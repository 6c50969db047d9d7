//! Reading file data.
use crate::blobchunk::ChunkIndex;
use crate::bytes;
use crate::fs;
use crate::fs::{ErofsReader, ReadError};
use crate::metadata;
use crate::metadata::ErofsInode;
use crate::ondisk;
use crate::ondisk::{
    EROFS_CHUNK_INDEX_SIZE, EROFS_INODE_CHUNK_BASED, EROFS_INODE_FLAT_INLINE,
    EROFS_INODE_FLAT_PLAIN, EROFS_NULL_ADDR,
};
use vstd::prelude::*;

verus! {

// ---------------------------------------------------------------------------
// Model
// ---------------------------------------------------------------------------

/// Where a byte of a chunk-based file is.
pub enum ByteSource {
    /// In a hole, or behind the last chunk: it is zero.
    Zero,
    /// At this offset of the blob device.
    Blob(int),
    /// At this offset of the image.
    Image(int),
}

/// Where the byte at file position `p` is, by the chunk indexes `ci`.
pub open spec fn byte_source(ci: Seq<u8>, chunksize: int, p: int) -> ByteSource {
    let c = p / chunksize;
    if c >= ci.len() as int / 8 {
        ByteSource::Zero
    } else {
        let index = metadata::chunk_index_at(ci, 8 * c);
        let at = index.blkaddr * 4096 + p % chunksize;
        if index.blkaddr == EROFS_NULL_ADDR {
            ByteSource::Zero
        } else if index.device_id > 0 {
            ByteSource::Blob(at)
        } else {
            ByteSource::Image(at)
        }
    }
}

/// Bytes from position `p` on that belong to one chunk, at most `remaining`.
pub open spec fn segment_len(chunksize: int, p: int, remaining: int) -> int {
    if remaining <= chunksize - p % chunksize {
        remaining
    } else {
        chunksize - p % chunksize
    }
}

/// Reading `len` bytes at `offset` of the blob device.
pub open spec fn blob_slice(blob: Option<Seq<u8>>, offset: int, len: int) -> Result<
    Seq<u8>,
    ReadError,
> {
    match blob {
        None => Err(ReadError::BlobMissing),
        Some(b) => if offset + len > b.len() {
            Err(ReadError::BlobEof)
        } else {
            Ok(b.subrange(offset, offset + len))
        },
    }
}

/// Reading one segment.
pub open spec fn read_segment(
    image: Seq<u8>,
    ci: Seq<u8>,
    chunksize: int,
    blob: Option<Seq<u8>>,
    p: int,
    len: int,
) -> Result<Seq<u8>, ReadError> {
    match byte_source(ci, chunksize, p) {
        ByteSource::Zero => Ok(bytes::zeros(len as nat)),
        ByteSource::Blob(at) => blob_slice(blob, at, len),
        ByteSource::Image(at) => fs::image_slice(image, at, len),
    }
}

/// Reading `remaining` bytes from file position `p` on, segment by segment; the
/// first segment that cannot be read decides the error.
pub open spec fn read_chunks(
    image: Seq<u8>,
    ci: Seq<u8>,
    chunksize: int,
    blob: Option<Seq<u8>>,
    p: int,
    remaining: int,
) -> Result<Seq<u8>, ReadError>
    decreases remaining,
{
    let len = segment_len(chunksize, p, remaining);
    if remaining <= 0 || len <= 0 {
        Ok(Seq::empty())
    } else {
        match read_segment(image, ci, chunksize, blob, p, len) {
            Err(e) => Err(e),
            Ok(first) => match read_chunks(image, ci, chunksize, blob, p + len, remaining - len) {
                Err(e) => Err(e),
                Ok(rest) => Ok(first + rest),
            },
        }
    }
}

impl<'a> ErofsReader<'a> {
    pub open spec fn spec_chunkbits(self, inode: ErofsInode) -> int {
        self.spec_sb().blkszbits + inode.spec_chunk_format() % 32
    }

    pub open spec fn spec_chunksize(self, inode: ErofsInode) -> int {
        vstd::arithmetic::power2::pow2(self.spec_chunkbits(inode) as nat) as int
    }

    pub open spec fn spec_nchunks(self, inode: ErofsInode) -> int {
        ondisk::ceil_div(inode.size as int, self.spec_chunksize(inode))
    }

    /// The numbers that locate the chunk indexes of an inode fit into machine
    /// integers.
    pub open spec fn geometry_fits(self, nid: u64, inode: ErofsInode) -> bool {
        &&& self.nid_fits(nid)
        &&& self.spec_chunkbits(inode) < 64
        &&& self.spec_nchunks(inode) * 8 <= usize::MAX
        &&& self.tail_offset(nid, inode) <= usize::MAX
    }

    /// The numbers that a read at position `offset` of a file works with fit
    /// into machine integers.
    pub open spec fn read_fits(self, nid: u64, inode: ErofsInode, offset: u64) -> bool {
        let layout = inode.spec_data_layout();
        offset < inode.size ==> {
            &&& layout == EROFS_INODE_FLAT_PLAIN || layout == EROFS_INODE_FLAT_INLINE
                ==> self.nid_fits(nid)
            &&& layout == EROFS_INODE_CHUNK_BASED ==> self.geometry_fits(nid, inode)
        }
    }

    /// Reading the chunk indexes of an inode.
    pub open spec fn spec_chunk_indexes(self, nid: u64, inode: ErofsInode) -> Result<
        Seq<u8>,
        ReadError,
    > {
        if inode.spec_data_layout() != EROFS_INODE_CHUNK_BASED {
            Err(ReadError::NotChunkBased)
        } else {
            fs::image_slice(
                self.image@,
                self.tail_offset(nid, inode),
                self.spec_nchunks(inode) * 8,
            )
        }
    }

    /// Reading `size` bytes at position `offset` of a chunk-based file; what is
    /// behind its last chunk is zero.
    pub open spec fn chunk_read(
        self,
        nid: u64,
        inode: ErofsInode,
        blob: Option<Seq<u8>>,
        offset: int,
        size: int,
    ) -> Result<Seq<u8>, ReadError> {
        match self.spec_chunk_indexes(nid, inode) {
            Err(e) => Err(e),
            Ok(ci) => read_chunks(
                self.image@,
                ci,
                self.spec_chunksize(inode),
                blob,
                offset,
                size,
            ),
        }
    }

    /// Reading `size` bytes at position `offset` of a file, or up to its end.
    pub open spec fn file_data(
        self,
        nid: u64,
        inode: ErofsInode,
        blob: Option<Seq<u8>>,
        offset: int,
        size: int,
    ) -> Result<Seq<u8>, ReadError> {
        let layout = inode.spec_data_layout();
        let len = if size <= inode.size - offset {
            size
        } else {
            inode.size - offset
        };
        if offset >= inode.size {
            Ok(Seq::empty())
        } else if layout == EROFS_INODE_FLAT_PLAIN || layout == EROFS_INODE_FLAT_INLINE {
            self.flat_data(nid, inode, offset, len)
        } else if layout == EROFS_INODE_CHUNK_BASED {
            self.chunk_read(nid, inode, blob, offset, len)
        } else {
            Err(ReadError::UnsupportedLayout { layout })
        }
    }
}

// ---------------------------------------------------------------------------
// Chunk indexes
// ---------------------------------------------------------------------------

impl<'a> ErofsReader<'a> {
    /// Bits of a file position inside a chunk.
    pub fn chunkbits(&self, inode: &ErofsInode) -> (r: u32)
        requires
            self.wf(),
        ensures
            r == self.spec_chunkbits(*inode),
    {
        self.sb().blkszbits as u32 + (inode.chunk_format() % 32) as u32
    }

    /// Size of a chunk.
    pub fn chunksize(&self, inode: &ErofsInode) -> (r: u64)
        requires
            self.wf(),
            self.spec_chunkbits(*inode) < 64,
        ensures
            r == self.spec_chunksize(*inode),
            0 < r <= 0x8000_0000_0000_0000,
    {
        let bits: u32 = self.chunkbits(inode);
        proof {
            vstd::bits::lemma_u64_pow2_no_overflow(bits as nat);
            vstd::bits::lemma_u64_shl_is_mul(1, bits as u64);
            vstd::arithmetic::power2::lemma2_to64_rest();
            if bits < 63 {
                vstd::arithmetic::power2::lemma_pow2_strictly_increases(bits as nat, 63);
            }
        }
        1u64 << (bits as u64)
    }

    /// Tell whether the chunk indexes of an inode can be located.
    fn can_locate(&self, nid: u64, inode: &ErofsInode) -> (r: bool)
        requires
            self.wf(),
        ensures
            r == self.geometry_fits(nid, *inode),
    {
        if !self.has_address(nid) || self.chunkbits(inode) >= 64 {
            return false;
        }
        let nchunks: u64 = ondisk::div_ceil(inode.size, self.chunksize(inode));
        let head: usize = inode.header_size() + inode.xattr_size();
        nchunks <= (usize::MAX / 8) as u64 && self.nid_to_offset(nid) <= usize::MAX - head
    }

    /// Tell whether a read at position `offset` can be worked out.
    pub fn can_read(&self, nid: u64, inode: &ErofsInode, offset: u64) -> (r: bool)
        requires
            self.wf(),
        ensures
            r == self.read_fits(nid, *inode, offset),
    {
        if offset >= inode.size {
            return true;
        }
        let layout: u16 = inode.data_layout();
        if layout == EROFS_INODE_FLAT_PLAIN || layout == EROFS_INODE_FLAT_INLINE {
            self.has_address(nid)
        } else if layout == EROFS_INODE_CHUNK_BASED {
            self.can_locate(nid, inode)
        } else {
            true
        }
    }

    /// The chunk indexes of an inode.
    pub fn chunk_indexes(&self, nid: u64, inode: &ErofsInode) -> (r: Result<&'a [u8], ReadError>)
        requires
            self.wf(),
            inode.spec_data_layout() == EROFS_INODE_CHUNK_BASED ==> self.geometry_fits(nid, *inode),
        ensures
            match r {
                Ok(s) => self.spec_chunk_indexes(nid, *inode) == Ok::<Seq<u8>, ReadError>(s@),
                Err(e) => self.spec_chunk_indexes(nid, *inode) == Err::<Seq<u8>, ReadError>(e),
            },
    {
        if inode.data_layout() != EROFS_INODE_CHUNK_BASED {
            return Err(ReadError::NotChunkBased);
        }
        let nchunks: usize = ondisk::div_ceil(inode.size, self.chunksize(inode)) as usize;
        let ci_offset: usize = self.nid_to_offset(nid) + (inode.header_size()
            + inode.xattr_size());
        self.mmap_slice(ci_offset, nchunks * EROFS_CHUNK_INDEX_SIZE)
    }

    /// Chunk index `i` of a table.
    pub fn chunk_index_at(ci_data: &[u8], i: usize) -> (r: ChunkIndex)
        requires
            (i + 1) * EROFS_CHUNK_INDEX_SIZE <= ci_data@.len(),
        ensures
            r == metadata::chunk_index_at(ci_data@, 8 * i),
            r.blkaddr == EROFS_NULL_ADDR || r.blkaddr < 0x1_0000_0000_0000,
    {
        assert(8 * i <= ci_data.len());
        metadata::parse_chunk_index(ci_data, i * EROFS_CHUNK_INDEX_SIZE)
    }
}

// ---------------------------------------------------------------------------
// Reading chunks
// ---------------------------------------------------------------------------

/// What a chunk read needs next.
#[derive(Clone, Copy, PartialEq, Eq, Structural, Debug)]
pub enum ReadStep {
    /// Nothing: the data is complete.
    Done,
    /// Nothing: a segment was read from the image, or is a hole.
    Advanced,
    /// `len` bytes at `offset` of the blob device.
    Blob { offset: u64, len: usize },
}

/// A read of chunk-based data in progress.
pub struct ChunkReader<'a> {
    pub reader: ErofsReader<'a>,
    pub ci_data: &'a [u8],
    pub chunksize: u64,
    /// File position of the first byte.
    pub offset: u64,
    /// Bytes read so far.
    pub buf_pos: usize,
    /// The data; zero from `buf_pos` on.
    pub result: Vec<u8>,
}

impl<'a> ChunkReader<'a> {
    pub open spec fn wf(self) -> bool {
        &&& 0 < self.chunksize <= 0x8000_0000_0000_0000
        &&& self.chunks_end() <= 0x1_0000_0000_0000_0000
        &&& self.buf_pos <= self.result@.len()
        &&& forall|k: int| self.buf_pos <= k < self.result@.len() ==> #[trigger] self.result@[k] == 0
    }

    /// File position behind the last chunk.
    pub open spec fn chunks_end(self) -> int {
        (self.ci_data@.len() as int / 8) * self.chunksize
    }

    /// The read is of the same data as `other`, at whatever point.
    pub open spec fn same_read(self, other: ChunkReader<'a>) -> bool {
        &&& self.reader == other.reader
        &&& self.ci_data == other.ci_data
        &&& self.chunksize == other.chunksize
        &&& self.offset == other.offset
        &&& self.result@.len() == other.result@.len()
    }

    pub open spec fn remaining(self) -> int {
        self.result@.len() - self.buf_pos
    }

    /// File position of the next byte.
    pub open spec fn position(self) -> int {
        self.offset + self.buf_pos
    }

    pub open spec fn next_source(self) -> ByteSource {
        byte_source(self.ci_data@, self.chunksize as int, self.position())
    }

    /// Length of the next segment.
    pub open spec fn next_len(self) -> int {
        segment_len(self.chunksize as int, self.position(), self.remaining())
    }

    /// What is still to be read.
    pub open spec fn rest(self, blob: Option<Seq<u8>>) -> Result<Seq<u8>, ReadError> {
        read_chunks(
            self.reader.image@,
            self.ci_data@,
            self.chunksize as int,
            blob,
            self.position(),
            self.remaining(),
        )
    }

    /// What the read gives in the end: what is there already, and the rest.
    pub open spec fn outcome(self, blob: Option<Seq<u8>>) -> Result<Seq<u8>, ReadError> {
        match self.rest(blob) {
            Err(e) => Err(e),
            Ok(rest) => Ok(self.result@.take(self.buf_pos as int) + rest),
        }
    }

    /// Reading the next segment.
    pub open spec fn next_segment(self, blob: Option<Seq<u8>>) -> Result<Seq<u8>, ReadError> {
        read_segment(
            self.reader.image@,
            self.ci_data@,
            self.chunksize as int,
            blob,
            self.position(),
            self.next_len(),
        )
    }

    /// `b` was read, and nothing else changed.
    pub open spec fn advanced_by(self, before: ChunkReader<'a>, b: Seq<u8>) -> bool {
        &&& self.same_read(before)
        &&& self.buf_pos == before.buf_pos + b.len()
        &&& self.result@ == bytes::splice(before.result@, before.buf_pos as int, b)
    }

    /// Read the next segment, or say what it needs.
    pub fn step(&mut self) -> (r: Result<ReadStep, ReadError>)
        requires
            old(self).wf(),
        ensures
            final(self).wf(),
            match r {
                Ok(ReadStep::Done) => {
                    &&& *final(self) == *old(self)
                    &&& old(self).remaining() == 0 || old(self).position() / old(
                        self,
                    ).chunksize as int >= old(self).ci_data@.len() as int / 8
                },
                Ok(ReadStep::Advanced) => {
                    &&& old(self).remaining() > 0
                    &&& !(old(self).next_source() is Blob)
                    &&& old(self).next_segment(None) matches Ok(b) && final(self).advanced_by(
                        *old(self),
                        b,
                    )
                },
                Ok(ReadStep::Blob { offset, len }) => {
                    &&& *final(self) == *old(self)
                    &&& old(self).remaining() > 0
                    &&& old(self).next_source() == ByteSource::Blob(offset as int)
                    &&& len == old(self).next_len()
                },
                Err(e) => {
                    &&& *final(self) == *old(self)
                    &&& old(self).remaining() > 0
                    &&& old(self).next_source() matches ByteSource::Image(at) && fs::image_slice(
                        old(self).reader.image@,
                        at,
                        old(self).next_len(),
                    ) == Err::<Seq<u8>, ReadError>(e)
                },
            },
    {
        if self.buf_pos >= self.result.len() {
            return Ok(ReadStep::Done);
        }
        if self.buf_pos as u64 > u64::MAX - self.offset {
            proof {
                let n = self.ci_data@.len() as int / 8;
                let cs = self.chunksize as int;
                vstd::arithmetic::div_mod::lemma_div_is_ordered(n * cs, self.position(), cs);
                vstd::arithmetic::div_mod::lemma_div_by_multiple(n, cs);
            }
            return Ok(ReadStep::Done);
        }
        let remaining: usize = self.result.len() - self.buf_pos;
        let file_pos: u64 = self.offset + (self.buf_pos as u64);
        let chunk_idx: u64 = file_pos / self.chunksize;
        let chunk_off: u64 = file_pos % self.chunksize;
        let in_chunk: u64 = self.chunksize - chunk_off;
        let to_read: usize = if remaining as u64 <= in_chunk {
            remaining
        } else {
            in_chunk as usize
        };
        let nchunks: u64 = (self.ci_data.len() / EROFS_CHUNK_INDEX_SIZE) as u64;
        if chunk_idx >= nchunks {
            return Ok(ReadStep::Done);
        }
        let ci = ErofsReader::chunk_index_at(self.ci_data, chunk_idx as usize);
        if ci.blkaddr == EROFS_NULL_ADDR {
            let ghost before = *self;
            self.buf_pos = self.buf_pos + to_read;
            assert(self.result@ =~= bytes::splice(
                before.result@,
                before.buf_pos as int,
                bytes::zeros(to_read as nat),
            ));
            return Ok(ReadStep::Advanced);
        }
        assert(ci.blkaddr < 0x1_0000_0000_0000 && chunk_off < 0x8000_0000_0000_0000);
        let base: u64 = ci.blkaddr * 4096;
        let at: u64 = base + chunk_off;
        if ci.device_id > 0 {
            return Ok(ReadStep::Blob { offset: at, len: to_read });
        }
        if at > usize::MAX as u64 {
            return Err(ReadError::OffsetOverflow);
        }
        match self.reader.mmap_slice(at as usize, to_read) {
            Err(e) => Err(e),
            Ok(s) => {
                self.supply(s);
                Ok(ReadStep::Advanced)
            },
        }
    }

    /// Take data that `step` asked for.
    pub fn supply(&mut self, data: &[u8])
        requires
            old(self).wf(),
            data@.len() <= old(self).remaining(),
        ensures
            final(self).wf(),
            final(self).advanced_by(*old(self), data@),
    {
        bytes::put_vec(&mut self.result, self.buf_pos, data);
        assert(self.buf_pos + data@.len() <= self.result.len());
        self.buf_pos = self.buf_pos + data.len();
    }

    /// The data that was read.
    pub fn finish(self) -> (r: Vec<u8>)
        ensures
            r@ == self.result@,
    {
        self.result
    }
}

/// A read of file data: complete, or in need of chunks.
pub enum FileRead<'a> {
    Data(Vec<u8>),
    Chunks(ChunkReader<'a>),
}

impl<'a> FileRead<'a> {
    pub open spec fn wf(self) -> bool {
        self matches FileRead::Chunks(chunks) ==> chunks.wf() && chunks.buf_pos == 0
    }

    /// What the read gives in the end.
    pub open spec fn outcome(self, blob: Option<Seq<u8>>) -> Result<Seq<u8>, ReadError> {
        match self {
            FileRead::Data(v) => Ok(v@),
            FileRead::Chunks(chunks) => chunks.outcome(blob),
        }
    }
}

/// `len` bytes of the blob device at `offset`.
fn blob_get<'b>(blob: Option<&'b [u8]>, offset: u64, len: usize) -> (r: Result<&'b [u8], ReadError>)
    ensures
        match r {
            Ok(s) => blob_slice(blob_view(blob), offset as int, len as int) == Ok::<
                Seq<u8>,
                ReadError,
            >(s@),
            Err(e) => blob_slice(blob_view(blob), offset as int, len as int) == Err::<
                Seq<u8>,
                ReadError,
            >(e),
        },
{
    match blob {
        None => Err(ReadError::BlobMissing),
        Some(b) => {
            let size: usize = b.len();
            if offset > size as u64 || len > size - (offset as usize) {
                Err(ReadError::BlobEof)
            } else {
                Ok(vstd::slice::slice_subrange(b, offset as usize, offset as usize + len))
            }
        },
    }
}

/// The contents of an optional blob device.
pub open spec fn blob_view(blob: Option<&[u8]>) -> Option<Seq<u8>> {
    match blob {
        None => None,
        Some(b) => Some(b@),
    }
}

/// Behind the last chunk everything is zero.
proof fn lemma_read_behind_end(
    image: Seq<u8>,
    ci: Seq<u8>,
    chunksize: int,
    blob: Option<Seq<u8>>,
    p: int,
    remaining: int,
)
    requires
        chunksize > 0,
        p >= 0,
        remaining >= 0,
        p / chunksize >= ci.len() as int / 8,
    ensures
        read_chunks(image, ci, chunksize, blob, p, remaining) == Ok::<Seq<u8>, ReadError>(
            bytes::zeros(remaining as nat),
        ),
    decreases remaining,
{
    vstd::arithmetic::div_mod::lemma_mod_bound(p, chunksize);
    let len = segment_len(chunksize, p, remaining);
    if remaining > 0 {
        vstd::arithmetic::div_mod::lemma_div_is_ordered(p, p + len, chunksize);
        lemma_read_behind_end(image, ci, chunksize, blob, p + len, remaining - len);
        assert(bytes::zeros(len as nat) + bytes::zeros((remaining - len) as nat) =~= bytes::zeros(
            remaining as nat,
        ));
    } else {
        assert(Seq::<u8>::empty() =~= bytes::zeros(0));
    }
}

/// The chunks of a file end within 64 bits.
proof fn lemma_chunks_end(size: int, bits: nat)
    requires
        0 <= size <= u64::MAX,
        bits < 64,
    ensures
        ({
            let cs = vstd::arithmetic::power2::pow2(bits) as int;
            ondisk::ceil_div(size, cs) * cs <= 0x1_0000_0000_0000_0000
        }),
{
    let cs = vstd::arithmetic::power2::pow2(bits) as int;
    let m = vstd::arithmetic::power2::pow2((64 - bits) as nat) as int;
    let x = size + cs - 1;
    let q = x / cs;
    vstd::arithmetic::power2::lemma_pow2_pos(bits);
    vstd::arithmetic::power2::lemma_pow2_adds(bits, (64 - bits) as nat);
    vstd::arithmetic::power2::lemma2_to64();
    assert(cs * m == 0x1_0000_0000_0000_0000);
    vstd::arithmetic::mul::lemma_mul_is_distributive_add(cs, m, 1);
    vstd::arithmetic::div_mod::lemma_div_is_ordered(x, cs * (m + 1) - 1, cs);
    vstd::arithmetic::div_mod::lemma_fundamental_div_mod_converse(
        cs * (m + 1) - 1,
        cs,
        m,
        cs - 1,
    );
    vstd::arithmetic::mul::lemma_mul_inequality(q, m, cs);
    vstd::arithmetic::mul::lemma_mul_is_commutative(cs, m);
}

/// A read in progress stays on course: a segment that is read as the device has
/// it does not change what the read gives in the end, a segment that cannot be
/// read fails the whole read, and a read with nothing left to do gives what is
/// there. So it does not matter who reads the blob device, and when.
pub proof fn law_read_in_progress<'a>(
    before: ChunkReader<'a>,
    after: ChunkReader<'a>,
    blob: Option<Seq<u8>>,
)
    requires
        before.wf(),
    ensures
        before.remaining() > 0 ==> (match before.next_segment(blob) {
            Ok(b) => after.advanced_by(before, b) ==> before.outcome(blob) == after.outcome(blob),
            Err(e) => before.outcome(blob) == Err::<Seq<u8>, ReadError>(e),
        }),
        before.remaining() == 0 || before.position() / before.chunksize as int
            >= before.ci_data@.len() as int / 8 ==> before.outcome(blob) == Ok::<
            Seq<u8>,
            ReadError,
        >(before.result@),
        before.buf_pos == 0 ==> before.outcome(blob) == before.rest(blob),
{
    let head = before.result@.take(before.buf_pos as int);
    vstd::arithmetic::div_mod::lemma_mod_bound(before.position(), before.chunksize as int);
    if before.remaining() == 0 {
        assert(before.result@ =~= head + Seq::<u8>::empty());
    } else if before.position() / before.chunksize as int >= before.ci_data@.len() as int / 8 {
        lemma_read_behind_end(
            before.reader.image@,
            before.ci_data@,
            before.chunksize as int,
            blob,
            before.position(),
            before.remaining(),
        );
        assert(before.result@ =~= head + bytes::zeros(before.remaining() as nat));
    }
    if let Ok(rest) = before.rest(blob) {
        if before.buf_pos == 0 {
            assert(head + rest =~= rest);
        }
    }
    if before.remaining() > 0 {
        if let Ok(seg) = before.next_segment(blob) {
            if after.advanced_by(before, seg) {
                assert(seg.len() == before.next_len());
                assert(after.position() == before.position() + seg.len());
                assert(after.remaining() == before.remaining() - seg.len());
                assert(after.result@.take(after.buf_pos as int) =~= head + seg);
                if let Ok(rest) = after.rest(blob) {
                    assert(head + (seg + rest) =~= (head + seg) + rest);
                }
            }
        }
    }
}

/// `steps` is a read from its start on, one segment after the other, each as the
/// image and the blob device have it.
pub open spec fn read_by_steps<'a>(steps: Seq<ChunkReader<'a>>, blob: Option<Seq<u8>>) -> bool
    decreases steps.len(),
{
    if steps.len() <= 1 {
        steps.len() == 1 && steps[0].wf() && steps[0].buf_pos == 0
    } else {
        let before = steps.drop_last().last();
        &&& read_by_steps(steps.drop_last(), blob)
        &&& steps.last().wf()
        &&& before.remaining() > 0
        &&& before.next_segment(blob) matches Ok(b) && steps.last().advanced_by(before, b)
    }
}

proof fn lemma_steps_outcome<'a>(steps: Seq<ChunkReader<'a>>, blob: Option<Seq<u8>>)
    requires
        read_by_steps(steps, blob),
    ensures
        steps[0].wf(),
        steps[0].buf_pos == 0,
        steps.last().wf(),
        steps[0].outcome(blob) == steps.last().outcome(blob),
    decreases steps.len(),
{
    if steps.len() > 1 {
        lemma_steps_outcome(steps.drop_last(), blob);
        law_read_in_progress(steps.drop_last().last(), steps.last(), blob);
    }
}

/// A read in steps, with the blob device read by anyone and at any time, gives
/// what `read_chunk_data_sync` gives with the device in memory: the same bytes
/// once nothing is left to do, and the same error where a segment cannot be
/// read.
pub proof fn law_steps_agree_with_sync<'a>(
    reader: ErofsReader<'a>,
    nid: u64,
    inode: ErofsInode,
    offset: u64,
    size: usize,
    steps: Seq<ChunkReader<'a>>,
    blob: Option<Seq<u8>>,
)
    requires
        read_by_steps(steps, blob),
        steps[0].reader == reader,
        reader.spec_chunk_indexes(nid, inode) == Ok::<Seq<u8>, ReadError>(steps[0].ci_data@),
        steps[0].chunksize == reader.spec_chunksize(inode),
        steps[0].offset == offset,
        steps[0].result@.len() == size,
    ensures
        ({
            let last = steps.last();
            let sync = reader.chunk_read(nid, inode, blob, offset as int, size as int);
            &&& last.remaining() == 0 || last.position() / last.chunksize as int
                >= last.ci_data@.len() as int / 8 ==> sync == Ok::<Seq<u8>, ReadError>(last.result@)
            &&& last.remaining() > 0 && last.next_segment(blob) is Err ==> sync == Err::<
                Seq<u8>,
                ReadError,
            >(last.next_segment(blob)->Err_0)
        }),
{
    let last = steps.last();
    lemma_steps_outcome(steps, blob);
    law_read_in_progress(steps[0], steps[0], blob);
    law_read_in_progress(last, last, blob);
    assert(steps[0].rest(blob) == reader.chunk_read(nid, inode, blob, offset as int, size as int));
}

impl<'a> ChunkReader<'a> {
    /// Finish the read with a blob device in memory.
    pub fn run(self, blob: Option<&[u8]>) -> (r: Result<Vec<u8>, ReadError>)
        requires
            self.wf(),
        ensures
            match r {
                Ok(v) => self.outcome(blob_view(blob)) == Ok::<Seq<u8>, ReadError>(v@),
                Err(e) => self.outcome(blob_view(blob)) == Err::<Seq<u8>, ReadError>(e),
            },
    {
        let ghost start = self;
        let mut chunks = self;
        let ghost b = blob_view(blob);
        loop
            invariant
                chunks.wf(),
                start == self,
                b == blob_view(blob),
                start.outcome(b) == chunks.outcome(b),
            decreases chunks.remaining(),
        {
            let ghost before = chunks;
            let step = chunks.step();
            proof {
                vstd::arithmetic::div_mod::lemma_mod_bound(
                    before.position(),
                    before.chunksize as int,
                );
                law_read_in_progress(before, chunks, b);
            }
            match step {
                Err(e) => {
                    return Err(e);
                },
                Ok(ReadStep::Done) => {
                    return Ok(chunks.finish());
                },
                Ok(ReadStep::Advanced) => {},
                Ok(ReadStep::Blob { offset, len }) => {
                    match blob_get(blob, offset, len) {
                        Err(e) => {
                            return Err(e);
                        },
                        Ok(data) => {
                            chunks.supply(data);
                            proof {
                                law_read_in_progress(before, chunks, b);
                            }
                        },
                    }
                },
            }
        }
    }
}

impl<'a> ErofsReader<'a> {
    /// Start a read of chunk-based data.
    pub fn read_chunk_data(
        &self,
        nid: u64,
        inode: &ErofsInode,
        offset: u64,
        size: usize,
    ) -> (r: Result<ChunkReader<'a>, ReadError>)
        requires
            self.wf(),
            self.spec_chunkbits(*inode) < 64,
            inode.spec_data_layout() == EROFS_INODE_CHUNK_BASED ==> self.geometry_fits(nid, *inode),
        ensures
            match r {
                Ok(chunks) => {
                    &&& chunks.wf()
                    &&& chunks.reader == *self
                    &&& self.spec_chunk_indexes(nid, *inode) == Ok::<Seq<u8>, ReadError>(
                        chunks.ci_data@,
                    )
                    &&& chunks.chunksize == self.spec_chunksize(*inode)
                    &&& chunks.offset == offset
                    &&& chunks.buf_pos == 0
                    &&& chunks.result@ == bytes::zeros(size as nat)
                    &&& forall|blob: Option<Seq<u8>>| #[trigger]
                        chunks.outcome(blob) == self.chunk_read(
                            nid,
                            *inode,
                            blob,
                            offset as int,
                            size as int,
                        )
                },
                Err(e) => self.spec_chunk_indexes(nid, *inode) == Err::<Seq<u8>, ReadError>(e),
            },
    {
        let chunksize: u64 = self.chunksize(inode);
        match self.chunk_indexes(nid, inode) {
            Err(e) => Err(e),
            Ok(ci_data) => {
                let result: Vec<u8> = vec![0u8; size];
                assert(result@ =~= bytes::zeros(size as nat));
                let chunks = ChunkReader {
                    reader: *self,
                    ci_data,
                    chunksize,
                    offset,
                    buf_pos: 0,
                    result,
                };
                proof {
                    lemma_chunks_end(inode.size as int, self.spec_chunkbits(*inode) as nat);
                    assert forall|blob: Option<Seq<u8>>| #[trigger]
                        chunks.outcome(blob) == self.chunk_read(
                            nid,
                            *inode,
                            blob,
                            offset as int,
                            size as int,
                        ) by {
                        law_read_in_progress(chunks, chunks, blob);
                    }
                }
                Ok(chunks)
            },
        }
    }

    /// Read from a chunk-based file, with the blob device in memory.
    pub fn read_chunk_data_sync(
        &self,
        nid: u64,
        inode: &ErofsInode,
        offset: u64,
        size: usize,
        blob: Option<&[u8]>,
    ) -> (r: Result<Vec<u8>, ReadError>)
        requires
            self.wf(),
            self.spec_chunkbits(*inode) < 64,
            inode.spec_data_layout() == EROFS_INODE_CHUNK_BASED ==> self.geometry_fits(nid, *inode),
        ensures
            ({
                let expected = self.chunk_read(
                    nid,
                    *inode,
                    blob_view(blob),
                    offset as int,
                    size as int,
                );
                match r {
                    Ok(v) => expected == Ok::<Seq<u8>, ReadError>(v@),
                    Err(e) => expected == Err::<Seq<u8>, ReadError>(e),
                }
            }),
    {
        match self.read_chunk_data(nid, inode, offset, size) {
            Err(e) => Err(e),
            Ok(chunks) => {
                assert(chunks.outcome(blob_view(blob)) == self.chunk_read(
                    nid,
                    *inode,
                    blob_view(blob),
                    offset as int,
                    size as int,
                ));
                chunks.run(blob)
            },
        }
    }

    /// Start a read of file data. Flat data is read at once; chunks may need
    /// the blob device.
    pub fn read_file_data(&self, nid: u64, inode: &ErofsInode, offset: u64, size: u32) -> (r: Result<
        FileRead<'a>,
        ReadError,
    >)
        requires
            self.wf(),
            self.read_fits(nid, *inode, offset),
        ensures
            match r {
                Ok(read) => read.wf() && forall|blob: Option<Seq<u8>>| #[trigger]
                    read.outcome(blob) == self.file_data(
                        nid,
                        *inode,
                        blob,
                        offset as int,
                        size as int,
                    ),
                Err(e) => forall|blob: Option<Seq<u8>>| #[trigger]
                    self.file_data(nid, *inode, blob, offset as int, size as int) == Err::<
                        Seq<u8>,
                        ReadError,
                    >(e),
            },
    {
        if offset >= inode.size {
            let empty: Vec<u8> = Vec::new();
            return Ok(FileRead::Data(empty));
        }
        let left: u64 = inode.size - offset;
        let actual_size: usize = if (size as u64) <= left {
            size as usize
        } else {
            left as usize
        };
        let layout: u16 = inode.data_layout();
        if layout == EROFS_INODE_FLAT_PLAIN || layout == EROFS_INODE_FLAT_INLINE {
            match self.read_flat_data_vec(nid, inode, offset, actual_size) {
                Err(e) => Err(e),
                Ok(v) => Ok(FileRead::Data(v)),
            }
        } else if layout == EROFS_INODE_CHUNK_BASED {
            match self.read_chunk_data(nid, inode, offset, actual_size) {
                Err(e) => Err(e),
                Ok(chunks) => Ok(FileRead::Chunks(chunks)),
            }
        } else {
            Err(ReadError::UnsupportedLayout { layout })
        }
    }

    /// Read file data, with the blob device in memory.
    pub fn read_file_data_sync(
        &self,
        nid: u64,
        inode: &ErofsInode,
        offset: u64,
        size: u32,
        blob: Option<&[u8]>,
    ) -> (r: Result<Vec<u8>, ReadError>)
        requires
            self.wf(),
            self.read_fits(nid, *inode, offset),
        ensures
            ({
                let expected = self.file_data(
                    nid,
                    *inode,
                    blob_view(blob),
                    offset as int,
                    size as int,
                );
                match r {
                    Ok(v) => expected == Ok::<Seq<u8>, ReadError>(v@),
                    Err(e) => expected == Err::<Seq<u8>, ReadError>(e),
                }
            }),
    {
        match self.read_file_data(nid, inode, offset, size) {
            Err(e) => Err(e),
            Ok(read) => {
                assert(read.outcome(blob_view(blob)) == self.file_data(
                    nid,
                    *inode,
                    blob_view(blob),
                    offset as int,
                    size as int,
                ));
                match read {
                    FileRead::Data(v) => Ok(v),
                    FileRead::Chunks(chunks) => chunks.run(blob),
                }
            },
        }
    }
}

// ---------------------------------------------------------------------------
// Reading from the blob device
// ---------------------------------------------------------------------------

/// Why a read from the blob device stops.
#[derive(Clone, Copy, PartialEq, Eq, Structural, Debug)]
pub enum PreadFault {
    /// The system call failed.
    Os,
    /// The device ended.
    Eof,
}

/// The next call of `pread`: `len` bytes at `offset`, to be stored at `start`.
#[derive(Clone, Copy, PartialEq, Eq, Structural, Debug)]
pub struct PreadCall {
    pub start: usize,
    pub len: usize,
    pub offset: i64,
}

/// A read of `len` bytes at `offset`, of which `total` are there.
#[derive(Clone, Copy, PartialEq, Eq, Structural, Debug)]
pub struct PreadLoop {
    pub offset: i64,
    pub len: usize,
    pub total: usize,
}

impl PreadLoop {
    pub open spec fn wf(self) -> bool {
        &&& self.total <= self.len <= i64::MAX
        &&& self.offset + self.len <= i64::MAX + 1
    }

    /// The call that reads what is missing; none once all is there.
    pub open spec fn spec_next_call(self) -> Option<PreadCall> {
        if self.total < self.len {
            Some(
                PreadCall {
                    start: self.total,
                    len: (self.len - self.total) as usize,
                    offset: (self.offset + self.total) as i64,
                },
            )
        } else {
            None
        }
    }

    /// The state after a call that read `ret` bytes.
    pub open spec fn spec_returned(self, ret: i64) -> PreadLoop {
        PreadLoop { total: (self.total + ret) as usize, ..self }
    }

    /// Why a call that returned `ret` stops the read, if it does.
    pub open spec fn spec_fault(ret: i64) -> Option<PreadFault> {
        if ret < 0 {
            Some(PreadFault::Os)
        } else if ret == 0 {
            Some(PreadFault::Eof)
        } else {
            None
        }
    }

    pub fn new(offset: i64, len: usize) -> (r: PreadLoop)
        requires
            len <= i64::MAX,
            offset + len <= i64::MAX + 1,
        ensures
            r.wf(),
            r == (PreadLoop { offset, len, total: 0 }),
    {
        PreadLoop { offset, len, total: 0 }
    }

    /// The call that reads what is missing; none once all is there.
    pub fn next_call(&self) -> (r: Option<PreadCall>)
        requires
            self.wf(),
        ensures
            r == self.spec_next_call(),
    {
        if self.total < self.len {
            Some(
                PreadCall {
                    start: self.total,
                    len: self.len - self.total,
                    offset: self.offset + self.total as i64,
                },
            )
        } else {
            None
        }
    }

    /// Take what a call returned: a negative number is a failure, zero is the
    /// end of the device, anything else a number of bytes.
    pub fn returned(&mut self, ret: i64) -> (r: Result<(), PreadFault>)
        requires
            old(self).wf(),
            ret <= old(self).len - old(self).total,
        ensures
            final(self).wf(),
            match r {
                Ok(_) => Self::spec_fault(ret) is None && *final(self) == old(self).spec_returned(
                    ret,
                ),
                Err(fault) => Self::spec_fault(ret) == Some(fault) && *final(self) == *old(self),
            },
    {
        if ret < 0 {
            return Err(PreadFault::Os);
        }
        if ret == 0 {
            return Err(PreadFault::Eof);
        }
        self.total = self.total + ret as usize;
        Ok(())
    }
}

// ---------------------------------------------------------------------------
// Laws
// ---------------------------------------------------------------------------

/// The byte at file position `p` can be read.
pub open spec fn byte_available(
    image: Seq<u8>,
    ci: Seq<u8>,
    chunksize: int,
    blob: Option<Seq<u8>>,
    p: int,
) -> bool {
    match byte_source(ci, chunksize, p) {
        ByteSource::Zero => true,
        ByteSource::Blob(at) => blob is Some && at < blob->0.len(),
        ByteSource::Image(at) => at < image.len(),
    }
}

/// The byte at file position `p`.
pub open spec fn byte_value(
    image: Seq<u8>,
    ci: Seq<u8>,
    chunksize: int,
    blob: Option<Seq<u8>>,
    p: int,
) -> u8 {
    match byte_source(ci, chunksize, p) {
        ByteSource::Zero => 0,
        ByteSource::Blob(at) => blob->0[at],
        ByteSource::Image(at) => image[at],
    }
}

/// Inside a segment the sources follow one another.
proof fn lemma_segment_sources(ci: Seq<u8>, chunksize: int, p: int, remaining: int, j: int)
    requires
        chunksize > 0,
        p >= 0,
        0 <= j < segment_len(chunksize, p, remaining),
    ensures
        byte_source(ci, chunksize, p + j) == (match byte_source(ci, chunksize, p) {
            ByteSource::Zero => ByteSource::Zero,
            ByteSource::Blob(at) => ByteSource::Blob(at + j),
            ByteSource::Image(at) => ByteSource::Image(at + j),
        }),
{
    let q = p / chunksize;
    let r = p % chunksize;
    vstd::arithmetic::div_mod::lemma_fundamental_div_mod(p, chunksize);
    vstd::arithmetic::mul::lemma_mul_is_commutative(chunksize, q);
    vstd::arithmetic::div_mod::lemma_mod_bound(p, chunksize);
    vstd::arithmetic::div_mod::lemma_fundamental_div_mod_converse(p + j, chunksize, q, r + j);
}

/// A read gives the bytes of the file one for one, wherever they are, and
/// succeeds exactly if each of them is there. So it does not matter how a file
/// is cut into reads.
pub proof fn law_chunk_read_bytes(
    image: Seq<u8>,
    ci: Seq<u8>,
    chunksize: int,
    blob: Option<Seq<u8>>,
    p: int,
    remaining: int,
)
    requires
        chunksize > 0,
        p >= 0,
        remaining >= 0,
        image.len() <= usize::MAX,
    ensures
        ({
            let r = read_chunks(image, ci, chunksize, blob, p, remaining);
            &&& r is Ok <==> forall|k: int|
                0 <= k < remaining ==> #[trigger] byte_available(image, ci, chunksize, blob, p + k)
            &&& r matches Ok(v) ==> v.len() == remaining && forall|k: int|
                0 <= k < remaining ==> #[trigger] v[k] == byte_value(
                    image,
                    ci,
                    chunksize,
                    blob,
                    p + k,
                )
        }),
    decreases remaining,
{
    let len = segment_len(chunksize, p, remaining);
    vstd::arithmetic::div_mod::lemma_mod_bound(p, chunksize);
    if remaining > 0 {
        law_chunk_read_bytes(image, ci, chunksize, blob, p + len, remaining - len);
        let seg = read_segment(image, ci, chunksize, blob, p, len);
        assert forall|k: int| 0 <= k < len && seg is Ok implies #[trigger] byte_available(
            image,
            ci,
            chunksize,
            blob,
            p + k,
        ) && seg->Ok_0[k] == byte_value(image, ci, chunksize, blob, p + k) by {
            lemma_segment_sources(ci, chunksize, p, remaining, k);
        }
        if seg is Err {
            lemma_segment_sources(ci, chunksize, p, remaining, len - 1);
            assert(!byte_available(image, ci, chunksize, blob, p + (len - 1)));
        } else {
            let rest = read_chunks(image, ci, chunksize, blob, p + len, remaining - len);
            if rest is Ok {
                assert forall|k: int| 0 <= k < remaining implies #[trigger] byte_available(
                    image,
                    ci,
                    chunksize,
                    blob,
                    p + k,
                ) by {
                    if k >= len {
                        assert(byte_available(image, ci, chunksize, blob, p + len + (k - len)));
                    }
                }
                let v = seg->Ok_0 + rest->Ok_0;
                assert forall|k: int| 0 <= k < remaining implies #[trigger] v[k] == byte_value(
                    image,
                    ci,
                    chunksize,
                    blob,
                    p + k,
                ) by {
                    if k >= len {
                        assert(rest->Ok_0[k - len] == byte_value(
                            image,
                            ci,
                            chunksize,
                            blob,
                            p + len + (k - len),
                        ));
                    } else {
                        assert(byte_available(image, ci, chunksize, blob, p + k));
                    }
                }
            } else {
                let k = choose|k: int|
                    0 <= k < remaining - len && !#[trigger] byte_available(
                        image,
                        ci,
                        chunksize,
                        blob,
                        p + len + k,
                    );
                assert(!byte_available(image, ci, chunksize, blob, p + (len + k)));
            }
        }
    }
}

/// It does not matter how a file is cut into reads: two reads, one behind the
/// other, give what one read gives, and fail if it fails.
pub proof fn law_reads_compose(
    image: Seq<u8>,
    ci: Seq<u8>,
    chunksize: int,
    blob: Option<Seq<u8>>,
    p: int,
    a: int,
    b: int,
)
    requires
        chunksize > 0,
        p >= 0,
        a >= 0,
        b >= 0,
        image.len() <= usize::MAX,
    ensures
        ({
            let whole = read_chunks(image, ci, chunksize, blob, p, a + b);
            let first = read_chunks(image, ci, chunksize, blob, p, a);
            let second = read_chunks(image, ci, chunksize, blob, p + a, b);
            &&& whole is Ok <==> first is Ok && second is Ok
            &&& whole is Ok ==> whole->Ok_0 == first->Ok_0 + second->Ok_0
        }),
{
    let whole = read_chunks(image, ci, chunksize, blob, p, a + b);
    let first = read_chunks(image, ci, chunksize, blob, p, a);
    let second = read_chunks(image, ci, chunksize, blob, p + a, b);
    law_chunk_read_bytes(image, ci, chunksize, blob, p, a + b);
    law_chunk_read_bytes(image, ci, chunksize, blob, p, a);
    law_chunk_read_bytes(image, ci, chunksize, blob, p + a, b);
    if whole is Ok {
        assert forall|k: int| 0 <= k < b implies #[trigger] byte_available(
            image,
            ci,
            chunksize,
            blob,
            p + a + k,
        ) by {
            assert(byte_available(image, ci, chunksize, blob, p + (a + k)));
        }
        assert forall|k: int| 0 <= k < a implies #[trigger] byte_available(
            image,
            ci,
            chunksize,
            blob,
            p + k,
        ) by {}
        let joined = first->Ok_0 + second->Ok_0;
        assert forall|k: int| 0 <= k < a + b implies #[trigger] whole->Ok_0[k] == joined[k] by {
            if k < a {
                assert(first->Ok_0[k] == byte_value(image, ci, chunksize, blob, p + k));
            } else {
                assert(second->Ok_0[k - a] == byte_value(
                    image,
                    ci,
                    chunksize,
                    blob,
                    p + a + (k - a),
                ));
            }
        }
        assert(whole->Ok_0 =~= joined);
    } else if first is Ok && second is Ok {
        assert forall|k: int| 0 <= k < a + b implies #[trigger] byte_available(
            image,
            ci,
            chunksize,
            blob,
            p + k,
        ) by {
            if k >= a {
                assert(byte_available(image, ci, chunksize, blob, p + a + (k - a)));
            }
        }
    }
}

/// Each call that reads something is followed by one for the rest, right behind
/// it, in the buffer as on the device; and the last one leaves nothing.
pub proof fn law_pread_continues(state: PreadLoop, ret: i64)
    requires
        state.wf(),
        state.spec_next_call() is Some,
        0 < ret <= state.len - state.total,
    ensures
        ({
            let call = state.spec_next_call()->0;
            let after = state.spec_returned(ret);
            &&& after.wf()
            &&& call.start + call.len == state.len
            &&& ret == call.len ==> after.spec_next_call() is None
            &&& ret < call.len ==> after.spec_next_call() == Some(
                PreadCall {
                    start: (call.start + ret) as usize,
                    len: (call.len - ret) as usize,
                    offset: (call.offset + ret) as i64,
                },
            )
        }),
{
}

/// What a call of `pread` may return on a device: the end of the device is told
/// by 0, and anything else is a number of bytes that were asked for and are
/// there.
pub open spec fn pread_returns(device: Seq<u8>, call: PreadCall, ret: i64) -> bool {
    if call.offset >= device.len() {
        ret == 0
    } else {
        0 < ret <= call.len && call.offset + ret <= device.len()
    }
}

/// A read of a device in progress: the state of the loop, and the buffer.
#[verifier::ext_equal]
pub struct PreadRun {
    pub state: PreadLoop,
    pub buf: Seq<u8>,
}

impl PreadRun {
    /// The run after a call that returned `ret`: so many bytes from where the
    /// call reads to where it stores them.
    pub open spec fn after(self, device: Seq<u8>, ret: i64) -> PreadRun {
        let call = self.state.spec_next_call()->0;
        PreadRun {
            state: self.state.spec_returned(ret),
            buf: bytes::splice(
                self.buf,
                call.start as int,
                device.subrange(call.offset as int, call.offset + ret),
            ),
        }
    }

    /// The run after calls that returned `rets`.
    pub open spec fn after_all(self, device: Seq<u8>, rets: Seq<i64>) -> PreadRun
        decreases rets.len(),
    {
        if rets.len() == 0 {
            self
        } else {
            self.after_all(device, rets.drop_last()).after(device, rets.last())
        }
    }

    /// Each of `rets` is what `pread` may return for the call of its turn, and
    /// none is the end of the device.
    pub open spec fn reads_all(self, device: Seq<u8>, rets: Seq<i64>) -> bool
        decreases rets.len(),
    {
        rets.len() == 0 || {
            let before = self.after_all(device, rets.drop_last());
            &&& self.reads_all(device, rets.drop_last())
            &&& before.state.spec_next_call() is Some
            &&& pread_returns(device, before.state.spec_next_call()->0, rets.last())
            &&& rets.last() > 0
        }
    }
}

/// The sum of all counts.
pub open spec fn total_of(rets: Seq<i64>) -> int
    decreases rets.len(),
{
    if rets.len() == 0 {
        0
    } else {
        total_of(rets.drop_last()) + rets.last()
    }
}

/// A whole read of a device, by however many calls, reads the part that was
/// asked for once and in order: after any number of calls the buffer starts
/// with as many bytes of that part as the calls have returned together, the
/// rest of the buffer is untouched, and the next call goes on right there. Once
/// there is no next call, the buffer is that part of the device; and a call that
/// returns 0 stops the read as the end of the device, beyond which the part
/// then reaches.
pub proof fn law_pread_run(
    device: Seq<u8>,
    offset: i64,
    len: usize,
    buf: Seq<u8>,
    rets: Seq<i64>,
)
    requires
        offset >= 0,
        len <= i64::MAX,
        offset + len <= i64::MAX + 1,
        buf.len() == len,
        (PreadRun { state: PreadLoop { offset, len, total: 0 }, buf }).reads_all(device, rets),
    ensures
        ({
            let run = (PreadRun { state: PreadLoop { offset, len, total: 0 }, buf }).after_all(
                device,
                rets,
            );
            let done = total_of(rets);
            &&& run.state.wf()
            &&& run.state == (PreadLoop { offset, len, total: done as usize })
            &&& 0 <= done <= len
            &&& done > 0 ==> offset + done <= device.len()
            &&& run.buf.len() == len
            &&& done > 0 ==> run.buf.take(done) == device.subrange(offset as int, offset + done)
            &&& run.buf.skip(done) == buf.skip(done)
            &&& match run.state.spec_next_call() {
                None => done == len && (len > 0 ==> blob_slice(
                    Some(device),
                    offset as int,
                    len as int,
                ) == Ok::<Seq<u8>, ReadError>(run.buf)),
                Some(call) => {
                    &&& call.start == done && call.offset == offset + done && call.len == len - done
                    &&& pread_returns(device, call, 0) ==> PreadLoop::spec_fault(0) == Some(
                        PreadFault::Eof,
                    ) && blob_slice(Some(device), offset as int, len as int) == Err::<
                        Seq<u8>,
                        ReadError,
                    >(ReadError::BlobEof)
                },
            }
        }),
    decreases rets.len(),
{
    let start = PreadRun { state: PreadLoop { offset, len, total: 0 }, buf };
    let run = start.after_all(device, rets);
    let done = total_of(rets);
    if rets.len() > 0 {
        let earlier = rets.drop_last();
        law_pread_run(device, offset, len, buf, earlier);
        let before = start.after_all(device, earlier);
        let had = total_of(earlier);
        let ret = rets.last();
        let call = before.state.spec_next_call()->0;
        assert(run.buf.take(done) =~= device.subrange(offset as int, offset + done)) by {
            assert forall|k: int| 0 <= k < done implies run.buf[k] == device[offset + k] by {
                if k < had {
                    assert(before.buf.take(had)[k] == before.buf[k]);
                }
            }
        }
        assert(run.buf.skip(done) =~= buf.skip(done)) by {
            assert forall|k: int| done <= k < len implies run.buf[k] == buf[k] by {
                assert(before.buf.skip(had)[k - had] == buf.skip(had)[k - had]);
            }
        }
    } else {
        assert(run.buf.skip(0) =~= buf.skip(0));
    }
    if done == len {
        assert(run.buf.take(done) =~= run.buf);
    }
}

} // verus!
