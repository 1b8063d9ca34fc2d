[package]
name = "hdr_measure"
version = "0.1.0"
edition = "2021"
publish = false

[dependencies]
madvr_parse = "*"
rayon = "*"
anyhow = "*"
clap = { version = "*", features = ["derive"] }
colored = "*"
indicatif = "*"
regex = "*"
serde_json = "*"
itertools = "*"
ffmpeg-next = "*"
