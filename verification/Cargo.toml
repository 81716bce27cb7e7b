[package]
name = "skadoosh"
version = "0.1.0"
edition = "2021"
publish = false

[dependencies]
aec-rs = "=1.0.0"
anyhow = "=1.0.104"
axum = "=0.8.9"
base64 = "=0.22.1"
clap = { version = "=4.6.7", features = ["derive", "env"] }
cpal = "=0.18.2"
crossterm = "=0.29.0"
futures-util = "=0.3.34"
misaki-rs = { version = "=0.8.0", default-features = false }
notify = "=8.2.1"
ort = { version = "=2.0.0-rc.15", default-features = false, features = ["std"] }
reqwest = { version = "=0.12.28", default-features = false, features = ["json", "stream"] }
ringbuf = "=0.4.8"
rlimit = "=0.11.0"
serde = { version = "=1.0.229", features = ["derive"] }
serde_json = { version = "=1.0.154", features = ["float_roundtrip"] }
thiserror = "=2.0.21"
tokio = { version = "=1.54.1", features = ["full"] }
tokio-util = "=0.7.20"
tower-http = { version = "=0.7.1", features = ["cors", "fs"] }
tracing = "=0.1.44"
tracing-subscriber = { version = "=0.3.23", features = ["env-filter"] }
wasmtime = { version = "=36.0.20", default-features = false, features = ["runtime", "cranelift"] }
whisper-rs = "=0.16.0"

[dev-dependencies]
hound = "=3.5.1"
