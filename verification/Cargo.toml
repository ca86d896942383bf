[package]
name = "rust_gen_callgraph"
version = "0.1.0"
edition = "2021"
publish = false

[dependencies]
clap = { version = "4", features = ["derive"] }
syn = { version = "1", features = ["full", "visit"] }
thiserror = "1"
toml = "0.5"
