[package]
name = "logsleuth"
version = "0.1.0"
edition = "2021"
publish = false

[dependencies]
regex = "1"
chrono = "0.4"
glob = "0.3"
serde = { version = "1", features = ["derive"] }
serde_json = "1"
toml = "*"
csv = "1"
walkdir = "2"
memmap2 = "*"
rayon = "1"
tempfile = "3"
clap = { version = "4", features = ["derive"] }
directories = "*"
evtx = "*"
tracing = "0.1"
