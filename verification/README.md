# mkfs-erofs

The building blocks of EROFS images with chunk-based files, and of a FUSE server
that mounts them, verified with Verus.

File data goes to a separate blob device, in chunks, and each distinct chunk
once. A chunk size is a power of two and at least 4096.

- `src/ondisk.rs`, `src/bytes.rs`: the on-disk records and how they are written.
- `src/inode.rs`: inodes in memory and their serialization.
- `src/names.rs`, `src/tree.rs`: from a source tree to the flat inode list.
- `src/blobchunk.rs`, `src/dedup.rs`: chunks and their places on the blob device.
- `src/metadata.rs`: the on-disk records and how they are read.
- `src/fs/`: inodes, directories, file data and extended attributes of an image,
  and the answers to FUSE requests.
- `src/roundtrip.rs`: what is written is read back.
- `app/`: the program around it, with its files, memory maps, threads and FUSE
  session.

Taken on trust is only that `blake3::hash` and `String::from_utf8_lossy` are
functions of their input, and that the latter decodes UTF-8.
That no two distinct chunks have the same hash is a condition of the theorems
that need it.
