[package]
name = "apply_patch_mcp"
version = "0.1.0"
edition = "2021"
publish = false

[dependencies]
anyhow = "1"
bytecount = "*"
clap = { version = "4", features = ["derive"] }
directories = "*"
itoa = "1"
memchr = "2"
mimalloc = "*"
rapidfuzz = "*"
rmcp = { version = "*", features = ["server", "macros", "transport-io"] }
rustc-hash = "2"
serde = { version = "1", features = ["derive"] }
shellexpand = "3"
smallvec = "1"
thiserror = "2"
tokio = { version = "1", features = ["macros", "rt-multi-thread", "io-std", "fs"] }
toml = "*"
unicode-normalization = "0.1"
