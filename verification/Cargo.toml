[package]
name = "arx"
version = "0.1.0"
edition = "2021"
publish = false

[dependencies]
jubako = { version = "=0.4.1", features = ["lz4", "lzma", "zstd"] }
deranged = "=0.5.9"
relative-path = "=1.9.3"
glob = "=0.3.4"
lru = "=0.19.0"
fxhash = "=0.2.1"
blake3 = "=1.8.7"
bstr = "=1.13.1"
clap = { version = "=4.6.7", features = ["derive"] }
clap_complete = "=4.6.11"
clap_mangen = "=0.3.3"
walkdir = "=2.5.0"
fuser = { version = "=0.18.0", default-features = false }
libc = "=0.2.191"
log = "=0.4.35"
env_logger = "=0.11.11"
anyhow = "=1.0.104"
thiserror = "=2.0.21"
tempfile = "=3.27.0"
rayon = "=1.12.0"
indicatif = "=0.18.6"
color-print = "=0.3.7"
human-panic = "=2.0.8"
