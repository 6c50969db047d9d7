//! Chunks and their blocks on the blob device.
use crate::blobchunk;
use crate::laws::records;
use vstd::prelude::*;

verus! {

/// A chunk that is not on the device yet appends the fewest whole blocks that
/// hold it: its data, then zeros. The device ends that many blocks later, at the
/// chunk's address it ended before, and nothing counts as saved.
pub proof fn law_fresh_chunk_takes_fewest_blocks(st: blobchunk::BlobState, data: Seq<u8>)
    requires
        !st.dedup.dom().contains(blobchunk::blake3_digest(data)),
        0 <= st.next_blkaddr <= u64::MAX,
    ensures
        ({
            let a = st.appended(data);
            let after = st.add_chunk(data);
            &&& a.len() % 4096 == 0
            &&& data.len() <= a.len() < data.len() + 4096
            &&& a.take(data.len() as int) == data
            &&& forall|i: int| data.len() <= i < a.len() ==> #[trigger] a[i] == 0
            &&& after.next_blkaddr * 4096 == st.next_blkaddr * 4096 + a.len()
            &&& after.dedup == st.dedup.insert(
                blobchunk::blake3_digest(data),
                st.next_blkaddr as u64,
            )
            &&& st.address(blobchunk::blake3_digest(data)) == st.next_blkaddr
            &&& after.saved == st.saved
            &&& after.chunksize == st.chunksize
        }),
{
    assert(st.appended(data).take(data.len() as int) =~= data);
}

/// A chunk that is on the device appends nothing and keeps its address; the
/// fewest whole blocks that hold it count as saved.
pub proof fn law_known_chunk_takes_no_blocks(st: blobchunk::BlobState, data: Seq<u8>)
    requires
        st.dedup.dom().contains(blobchunk::blake3_digest(data)),
    ensures
        ({
            let after = st.add_chunk(data);
            let saved = after.saved - st.saved;
            &&& st.appended(data).len() == 0
            &&& after.next_blkaddr == st.next_blkaddr
            &&& after.dedup == st.dedup
            &&& after.chunksize == st.chunksize
            &&& st.address(blobchunk::blake3_digest(data)) == st.dedup[blobchunk::blake3_digest(
                data,
            )]
            &&& saved % 4096 == 0
            &&& data.len() <= saved < data.len() + 4096
        }),
{
}

/// A file is cut into the fewest chunks that hold it: all of them are full but
/// for the last one, which ends with the file.
pub proof fn law_file_is_cut_into_chunks(file: Seq<u8>, chunksize: int, i: int)
    requires
        chunksize > 0,
    ensures
        ({
            let n = blobchunk::chunk_count(file.len() as int, chunksize);
            &&& n >= 0
            &&& n * chunksize >= file.len()
            &&& n > 0 ==> (n - 1) * chunksize < file.len()
            &&& 0 <= i < n - 1 ==> blobchunk::chunk_data(file, chunksize, i) == file.subrange(
                i * chunksize,
                i * chunksize + chunksize,
            )
            &&& i == n - 1 >= 0 ==> blobchunk::chunk_data(file, chunksize, i) == file.subrange(
                i * chunksize,
                file.len() as int,
            )
        }),
{
    let len = file.len() as int;
    let n = blobchunk::chunk_count(len, chunksize);
    records::law_least_parts(len, chunksize);
    if 0 <= i < n {
        blobchunk::lemma_chunk_bounds(len, chunksize, i);
    }
}

/// The chunks of a file are placed one after the other, each by its own bytes,
/// on device 1; their bytes follow one another on the device.
pub proof fn law_chunks_are_placed_in_turn(st: blobchunk::BlobState, file: Seq<u8>, n: nat, i: int)
    requires
        0 <= i < n,
    ensures
        st.chunk_indexes(file, n).len() == n,
        st.chunk_indexes(file, n)[i].device_id == 1,
        st.chunk_indexes(file, n)[i].blkaddr == st.add_chunks(file, i as nat).address(
            blobchunk::blake3_digest(blobchunk::chunk_data(file, st.chunksize as int, i)),
        ),
        st.add_chunks(file, 0) == st,
        st.add_chunks(file, (i + 1) as nat) == st.add_chunks(file, i as nat).add_chunk(
            blobchunk::chunk_data(file, st.chunksize as int, i),
        ),
        st.blob_data(file, 0).len() == 0,
        st.blob_data(file, (i + 1) as nat) == st.blob_data(file, i as nat) + st.add_chunks(
            file,
            i as nat,
        ).appended(blobchunk::chunk_data(file, st.chunksize as int, i)),
{
}

/// A device of less than 2^40 blocks, with less than 2^52 bytes saved, has room
/// for any file of less than 2^40 bytes.
pub proof fn law_ordinary_files_have_room(
    st: blobchunk::BlobState,
    file_size: int,
    hash: Seq<u8>,
)
    requires
        0 <= st.next_blkaddr < 0x100_0000_0000,
        0 <= st.saved < 0x10_0000_0000_0000,
        0 <= file_size < 0x100_0000_0000,
        st.chunksize > 0,
    ensures
        st.room(file_size),
        st.place_fits(hash, file_size),
        st.room(
            blobchunk::file_blocks(
                file_size,
                st.chunksize as int,
                blobchunk::chunk_count(file_size, st.chunksize as int) as nat,
            ),
        ),
{
    let cs = st.chunksize as int;
    records::law_least_parts(file_size, cs);
    blobchunk::lemma_file_blocks_bound(
        file_size,
        cs,
        blobchunk::chunk_count(file_size, cs) as nat,
    );
}

} // verus!
