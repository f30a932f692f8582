[package]
name = "automerge"
version = "0.1.0"
edition = "2021"
publish = false

[dependencies]
hexane = "*"
leb128 = "0.2.5"
smol_str = "*"
thiserror = "*"
sha2 = "0.10"
flate2 = "1"
