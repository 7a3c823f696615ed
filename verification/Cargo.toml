[package]
name = "sealion"
version = "0.1.0"
edition = "2021"
publish = false

[dependencies]
smallvec = "1"
nom = "7"
thiserror = "1"
paste = "1"
