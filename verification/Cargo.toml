[package]
name = "blobfs"
version = "0.1.0"
edition = "2021"
publish = false

[dependencies]
fuse = "0.3"
libc = "0.2"
rust-tdlib = "*"
time = "0.1"
tokio = { version = "1", features = ["macros", "rt-multi-thread", "sync"] }
