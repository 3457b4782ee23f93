[package]
name = "payload_dumper"
version = "0.1.0"
edition = "2021"
publish = false

[dependencies]
ahash = "0.8"
anyhow = "1"
bsdiff-android = "*"
clap = { version = "4", features = ["derive"] }
futures = "0.3"
lz4diff = "*"
num_cpus = "1"
prost = "*"
puffdiff = "*"
tempfile = "3"
tokio = { version = "1", features = ["full"] }
