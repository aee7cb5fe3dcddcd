[package]
name = "rsbx"
version = "0.1.0"
edition = "2021"
publish = false

[dependencies]
reed-solomon-erasure = "4.0"
smallvec = "1"
sha-1 = "0.8"
sha2 = "0.8"
blake2 = "0.8"
clap = "2"
