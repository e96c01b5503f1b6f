[package]
name = "xdvdfs"
version = "0.1.0"
edition = "2021"
publish = false

[dependencies]
anyhow = "1"
bitflags = "2"
byteorder = "1"
