[package]
name = "seam_protocol"
version = "0.1.0"
edition = "2021"
publish = false

[dependencies]
blake3 = { version = "1", default-features = false, features = ["std", "pure"] }
bytes = "1"
chacha20poly1305 = "0.10"
hex = "0.4"
pqcrypto-mlkem = "*"
pqcrypto-traits = "0.3"
rand = "0.8"
snow = "0.9"
zstd = "0.13"
anyhow = "1"
clap = { version = "4", features = ["derive"] }
clap_complete = "4"
dirs = "5"
flate2 = "1"
indicatif = "0.17"
serde = { version = "1", features = ["derive"] }
socket2 = "0.5"
tar = "0.4"
tempfile = "3"
tokio = { version = "1", features = ["full"] }
tracing = "0.1"
ureq = { version = "2", features = ["json"] }
walkdir = "2"
which = "6"
