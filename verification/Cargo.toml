[package]
name = "mkfs-erofs"
version = "0.1.0"
edition = "2021"
publish = false

[dependencies]
anyhow = "1"
async-trait = "0.1"
blake3 = "1"
clap = { version = "4", features = ["derive"] }
fuse-backend-rs = { version = "*", features = ["async-io", "fusedev"] }
libc = "0.2"
log = "0.4"
memmap2 = "0.9"
signal-hook = "0.3"
simple_logger = "*"
tokio = { version = "1", features = ["fs", "rt", "rt-multi-thread"] }
