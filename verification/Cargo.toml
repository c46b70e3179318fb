[package]
name = "vach"
version = "0.1.0"
edition = "2021"
publish = false

[dependencies]
anyhow = "*"
brotli = "*"
chacha20poly1305 = "*"
clap = "*"
ed25519-dalek = "*"
lz4_flex = "*"
memmap2 = "*"
snap = "*"
walkdir = "*"

[dev-dependencies]
rayon = "*"
