[package]
name = "aegis"
version = "0.1.0"
edition = "2021"
publish = false

[dependencies]
rustc-hash = "2"
simdutf8 = "0.1"
miette = { version = "7", features = ["fancy"] }
clap = { version = "4", features = ["derive", "env"] }
tokio = { version = "1", features = ["rt-multi-thread", "macros", "sync"] }
tonic = "0.12"
prost = "0.13"
anstyle = "1"
thiserror = "2"
