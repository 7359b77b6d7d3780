[package]
name = "axvfs"
version = "0.1.0"
edition = "2021"
publish = false

[dependencies]
axfs_vfs = "=0.1.2"
