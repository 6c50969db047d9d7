pub mod blobchunk;
pub mod bytes;
pub mod dedup;
pub mod fs;
pub mod inode;
pub mod laws;
pub mod metadata;
pub mod names;
pub mod ondisk;
pub mod roundtrip;
pub mod tree;
