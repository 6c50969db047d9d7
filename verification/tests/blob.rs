use mkfs_erofs::blobchunk::{BlobWriter, ChunkIndex, FileChunks, Placement, BLOB_DEVICE_ID};
use mkfs_erofs::dedup::DedupIndex;

fn pattern(seed: u8, len: usize) -> Vec<u8> {
    (0..len).map(|i| (i as u8).wrapping_mul(31).wrapping_add(seed)).collect()
}

#[test]
fn an_empty_file_has_no_chunks() {
    let mut w = BlobWriter::new(4096);
    let r = w.write_file_chunks(&[]);
    assert!(r.indexes.is_empty());
    assert!(r.blob_data.is_empty());
    assert_eq!(w.total_blocks(), 0);
    assert_eq!(w.saved_by_dedup(), 0);
}

#[test]
fn chunks_are_padded_to_blocks() {
    let mut w = BlobWriter::new(8192);
    let data = pattern(1, 8192 + 100);
    let r = w.write_file_chunks(&data);
    assert_eq!(
        r.indexes,
        vec![
            ChunkIndex { blkaddr: 0, device_id: BLOB_DEVICE_ID },
            ChunkIndex { blkaddr: 2, device_id: BLOB_DEVICE_ID },
        ]
    );
    assert_eq!(r.blob_data.len(), 3 * 4096);
    assert_eq!(&r.blob_data[..data.len()], &data[..]);
    assert!(r.blob_data[data.len()..].iter().all(|b| *b == 0));
    assert_eq!(w.total_blocks(), 3);
}

#[test]
fn equal_chunks_are_stored_once() {
    let mut w = BlobWriter::new(4096);
    let mut data = pattern(1, 4096);
    data.extend_from_slice(&pattern(2, 4096));
    data.extend_from_slice(&pattern(1, 4096));
    let r = w.write_file_chunks(&data);
    let addresses: Vec<u64> = r.indexes.iter().map(|c| c.blkaddr).collect();
    assert_eq!(addresses, vec![0, 1, 0]);
    assert_eq!(r.blob_data, data[..8192].to_vec());
    assert_eq!(w.total_blocks(), 2);
    assert_eq!(w.saved_by_dedup(), 4096);

    let again = w.write_file_chunks(&data);
    assert_eq!(again.indexes, r.indexes);
    assert!(again.blob_data.is_empty());
    assert_eq!(w.total_blocks(), 2);
    assert_eq!(w.saved_by_dedup(), 4 * 4096);
}

#[test]
fn only_the_data_is_hashed() {
    let mut w = BlobWriter::new(4096);
    let short = w.write_chunk(&[0u8; 10]);
    let long = w.write_chunk(&[0u8; 20]);
    assert_eq!(short.index.blkaddr, 0);
    assert_eq!(long.index.blkaddr, 1);
    assert_eq!(short.blob_data, long.blob_data);
    assert_eq!(w.saved_by_dedup(), 0);
}

#[test]
fn chunks_are_known_by_their_blake3_hash() {
    let data = pattern(7, 5000);
    let hash: [u8; 32] = *blake3::hash(&data).as_bytes();
    let mut w = BlobWriter::new(8192);
    assert_eq!(w.write_chunk(&data).index.blkaddr, 0);
    assert_eq!(w.place_chunk(&hash, 5000), Placement { blkaddr: 0, fresh: false });
    assert_eq!(w.saved_by_dedup(), 8192);
    let mut other = [0u8; 32];
    other.copy_from_slice(&data[..32]);
    assert_eq!(w.place_chunk(&other, 1), Placement { blkaddr: 2, fresh: true });
    assert_eq!(w.total_blocks(), 3);
}

#[test]
fn chunk_by_chunk_is_the_same_as_the_whole_file() {
    let mut data = pattern(3, 10000);
    data.extend_from_slice(&pattern(3, 4096));
    let mut whole = BlobWriter::new(4096);
    let r = whole.write_file_chunks(&data);
    let mut single = BlobWriter::new(4096);
    let mut chunks = FileChunks::new(&single, data.len() as u64);
    let mut at = 0usize;
    let mut blob = Vec::new();
    while let Some(len) = chunks.next_len() {
        blob.extend(chunks.write(&mut single, &data[at..at + len]));
        at += len;
    }
    assert_eq!(at, data.len());
    assert_eq!(chunks.finish(), r.indexes);
    assert_eq!(blob, r.blob_data);
    assert_eq!(single.total_blocks(), whole.total_blocks());
    assert_eq!(single.total_blocks() * 4096, blob.len() as u64);
}

fn lengths(chunksize: u32, file_size: u64) -> Vec<usize> {
    let mut writer = BlobWriter::new(chunksize);
    let mut chunks = FileChunks::new(&writer, file_size);
    let mut lengths = Vec::new();
    while let Some(len) = chunks.next_len() {
        chunks.write(&mut writer, &vec![0u8; len]);
        lengths.push(len);
    }
    lengths
}

#[test]
fn chunk_lengths() {
    assert!(lengths(4096, 0).is_empty());
    assert_eq!(lengths(4096, 1), vec![1]);
    assert_eq!(lengths(4096, 4096), vec![4096]);
    assert_eq!(lengths(4096, 4097), vec![4096, 1]);
    assert_eq!(lengths(8192, 16384), vec![8192, 8192]);
}

#[test]
fn room_for_a_file() {
    let mut w = BlobWriter::new(4096);
    assert!(w.has_room(1 << 40));
    assert!(!w.has_room(u64::MAX));
    w.write_chunk(&[1u8; 3]);
    assert!(w.has_room(0));
    let known = *blake3::hash(&[1u8; 3]).as_bytes();
    assert!(w.can_place(&known, 3));
    assert!(w.can_place(&[0u8; 32], usize::MAX));
}

#[test]
fn hashes_with_a_common_start_are_told_apart() {
    let mut index = DedupIndex::new();
    let a = [1u8; 32];
    let mut b = a;
    b[31] = 2;
    assert_eq!(index.get(&a), None);
    index.insert(&a, 5);
    assert_eq!(index.get(&b), None);
    index.insert(&b, 6);
    assert_eq!(index.get(&a), Some(5));
    assert_eq!(index.get(&b), Some(6));
}

#[test]
fn saved_and_written_bytes_add_up() {
    let mut w = BlobWriter::new(8192);
    let mut padded = 0u64;
    for len in [1usize, 4096, 8192, 8193, 20000, 20000, 8192] {
        let data = pattern(0, len);
        w.write_file_chunks(&data);
        for chunk in lengths(8192, len as u64) {
            padded += (chunk as u64 + 4095) / 4096 * 4096;
        }
        assert_eq!(w.total_blocks() * 4096 + w.saved_by_dedup(), padded);
    }
    assert!(w.saved_by_dedup() > 0);
}

#[test]
fn addresses_tell_chunks_apart() {
    let mut w = BlobWriter::new(8192);
    let chunks: Vec<Vec<u8>> = vec![
        vec![0u8; 10],
        vec![0u8; 4096],
        vec![0u8; 8192],
        vec![0u8; 10],
        pattern(1, 5000),
        vec![0u8; 8192],
        pattern(1, 5001),
    ];
    let addresses: Vec<u64> = chunks.iter().map(|c| w.write_chunk(c).index.blkaddr).collect();
    assert_eq!(addresses, vec![0, 1, 2, 0, 4, 2, 6]);
    for (x, ax) in chunks.iter().zip(&addresses) {
        for (y, ay) in chunks.iter().zip(&addresses) {
            assert_eq!(ax == ay, x == y);
        }
    }
    assert_eq!(w.total_blocks(), 8);
}

#[test]
fn a_planned_chunk_is_not_placed_yet() {
    let data = pattern(4, 100);
    let mut w = BlobWriter::new(4096);
    let mut file = FileChunks::new(&w, 100);
    let planned = w.plan_chunk(&data);
    assert_eq!(planned.hash, *blake3::hash(&data).as_bytes());
    assert_eq!(planned.blob_data.len(), 4096);
    assert_eq!(w.total_blocks(), 0);
    assert_eq!(w.plan_chunk(&data).blob_data, planned.blob_data);
    file.place(&mut w, &planned.hash);
    assert_eq!(w.total_blocks(), 1);
    assert_eq!(file.next_len(), None);
    assert_eq!(file.finish(), vec![ChunkIndex { blkaddr: 0, device_id: 1 }]);
    assert!(w.plan_chunk(&data).blob_data.is_empty());
}
