[package]
name = "custos"
version = "0.1.0"
edition = "2021"
publish = false

[dependencies]
arc-swap = "=1.9.3"
axum = { version = "=0.7.9", default-features = false, features = ["http1", "json", "tokio"] }
chrono = { version = "=0.4.45", default-features = false, features = ["clock"] }
clap = { version = "=4.6.7", features = ["derive"] }
crossterm = "=0.27.0"
libc = "=0.2.191"
libxdp-sys = "=0.2.4"
nix = { version = "=0.28.0", default-features = false, features = ["signal"] }
plotters = { version = "=0.3.7", default-features = false, features = ["svg_backend", "all_series", "all_elements"] }
rand = "=0.8.8"
ratatui = "=0.26.3"
serde = { version = "=1.0.229", features = ["derive"] }
serde_json = "=1.0.154"
socket2 = { version = "=0.5.10", features = ["all"] }
sysinfo = { version = "=0.30.13", default-features = false }
tokio = { version = "=1.54.1", features = ["rt-multi-thread", "macros", "net", "signal", "time", "sync"] }
toml = "=0.8.23"
tracing = "=0.1.44"
tracing-subscriber = "=0.3.23"
xsk-rs = "=0.6.1"
zerocopy = "=0.7.35"
