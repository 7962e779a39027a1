[package]
name = "band"
version = "0.1.0"
edition = "2021"
publish = false

[dependencies]
rubato = "*"
audioadapter-buffers = "*"
realfft = "*"
midly = "*"
rand = "*"
ringbuf = "*"
cpal = "*"
symphonia = "*"
csv = "*"
serde = { version = "1", features = ["derive"] }
argh = "*"
log = "*"
env_logger = "*"
memmap2 = "*"
walkdir = "*"
ndarray = "*"
ndarray-npy = "*"
tracing = "*"
tracing-subscriber = { version = "*", features = ["env-filter"] }
