[package]
name = "binspec"
version = "0.1.0"
edition = "2021"
publish = false

[dependencies]
either = "*"
memmap2 = "*"
thiserror = "*"
