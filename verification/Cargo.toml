[package]
name = "bitfield"
version = "0.1.0"
edition = "2021"
publish = false

[dependencies]
syn = { version = "1", features = ["full", "extra-traits", "fold"] }
quote = "1"
proc-macro2 = "1"
itertools = "0.10"
