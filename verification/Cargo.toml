[package]
name = "cosmic_capture"
version = "0.1.0"
edition = "2021"
publish = false

[dependencies]
anyhow = "1"
ashpd = "0.11"
chrono = "=0.4.45"
clap = { version = "4", features = ["derive"] }
cosmic-client-toolkit = "0.2"
dirs = "6"
drm-fourcc = "=2.2.0"
futures-util = "0.3"
gifski = { version = "=1.34.0", default-features = false }
image = { version = "=0.25.10", default-features = false, features = ["jpeg", "png"] }
imgref = "1"
memmap2 = "0.9"
png = "=0.18.1"
rgb = "0.8"
rustix = { version = "0.38", features = ["fs", "event"] }
serde = { version = "1", features = ["derive"] }
smithay-client-toolkit = { version = "0.20", default-features = false, features = ["xkbcommon"] }
thiserror = "2"
tokio = { version = "1", features = ["full"] }
toml = "0.8"
tracing = "0.1"
tracing-subscriber = { version = "0.3", features = ["env-filter"] }
wayland-client = "0.31"
wayland-protocols = { version = "0.32", features = ["client", "staging", "unstable"] }
wl-clipboard-rs = "0.9"
zbus = "5"
