[package]
name = "bench_sampler"
version = "0.1.0"
edition = "2021"
publish = false

[dependencies]
ansi_term = "0.12"
anyhow = "1"
libc = "0.2"
once_cell = "1"
rand = "0.8"
serde_json = "1"
structopt = "0.3"
