[package]
name = "kvread"
version = "0.1.0"
edition = "2021"
publish = false

[dependencies]
rocksdb = "*"
roaring = "*"
