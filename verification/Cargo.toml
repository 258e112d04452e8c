[package]
name = "cargo_patch_source"
version = "0.1.0"
edition = "2021"
publish = false

[dependencies]
toml_edit = "*"
cargo_metadata = "*"
clap = { version = "*", features = ["derive"] }
