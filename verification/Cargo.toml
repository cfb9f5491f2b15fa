[package]
name = "nefaxer"
version = "0.1.0"
edition = "2021"
publish = false

[dependencies]
anyhow = "=1.0.104"
blake3 = "=1.8.7"
clap = { version = "=4.6.7", features = ["derive"] }
colored = "=3.1.1"
crossbeam-channel = "=0.5.17"
ctrlc = "=3.5.2"
dotenvy = "=0.15.7"
env_logger = "=0.11.11"
jwalk = "=0.9.0"
kdam = "=0.6.4"
libc = "=0.2.190"
log = "=0.4.34"
memmap2 = "=0.9.11"
rayon = "=1.12.0"
rpassword = "=7.5.4"
rusqlite = { version = "=0.40.2", features = ["backup", "bundled-sqlcipher"] }
serde = { version = "=1.0.229", features = ["derive"] }
serde_json = "=1.0.151"
sysinfo = "=0.39.6"
toml = "=1.1.7"
walkdir = "=2.5.0"
