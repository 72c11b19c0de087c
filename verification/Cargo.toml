[package]
name = "level_hash"
version = "0.1.0"
edition = "2021"
publish = false

[dependencies]
byteorder = "1"
libc = "0.2"
memmap2 = "0.9"
rand = "0.8"

[dev-dependencies]
gxhash = "3"
