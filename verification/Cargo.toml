[package]
name = "mmap_store"
version = "0.1.0"
edition = "2021"
publish = false

[dependencies]
memmap2 = "*"
parking_lot = "*"

[dev-dependencies]
rand = "0.8"
