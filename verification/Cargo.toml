[package]
name = "vcf2csv"
version = "0.1.0"
edition = "2021"
publish = false

[dependencies]
anyhow = "*"
rust-htslib = { version = "*", default-features = false }
