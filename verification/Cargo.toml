[package]
name = "lancam"
version = "0.1.0"
edition = "2021"
publish = false

[dependencies]
alsa = "=0.9.1"
anyhow = "=1.0.104"
arc-swap = "=1.9.3"
axum = "=0.8.9"
clap = { version = "=4.6.7", features = ["derive"] }
ctrlc = "=3.5.2"
jpeg-encoder = "=0.6.1"
ksni = { version = "=0.3.7", features = ["blocking"] }
libc = "=0.2.191"
libloading = "=0.8.9"
serde = { version = "=1.0.229", features = ["derive"] }
serde_json = "=1.0.154"
tokio = { version = "=1.54.1", features = ["full"] }
tokio-stream = { version = "=0.1.19", features = ["time"] }
ureq = { version = "=2.12.1", features = ["json"] }
v4l = "=0.14.0"
zune-jpeg = "=0.4.21"
