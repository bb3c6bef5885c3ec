[package]
name = "tagger"
version = "0.1.0"
edition = "2021"
publish = false

[dependencies]
sha2 = "=0.9.9"
regex = "=1.13.1"
itertools = "=0.10.5"
rusqlite = "=0.27.0"
clap = "=2.34.0"
colored = "=2.2.0"
