[package]
name = "scx_bpfland"
version = "0.1.0"
edition = "2021"
publish = false

[dependencies]
anyhow = "*"
clap = { version = "*", features = ["derive"] }
crossbeam = "*"
libbpf-rs = "*"
log = "*"
rlimit = "*"
scx_stats = "*"
scx_utils = "*"
