[package]
name = "zep_kvs"
version = "0.1.0"
edition = "2021"
publish = false

[dependencies]
rand = "*"
thiserror = "*"
