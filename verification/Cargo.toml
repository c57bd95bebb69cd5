[package]
name = "meetily_asr"
version = "0.1.0"
edition = "2021"
publish = false

[dependencies]
serde = { version = "=1.0.229", features = ["derive"] }
serde_json = "=1.0.154"
serde_yaml = "=0.9.34"
thiserror = "=2.0.21"
log = "=0.4.35"
realfft = "=3.5.1"
ndarray = "=0.17.2"
ort = { version = "=2.0.0-rc.15", default-features = false, features = ["ndarray", "load-dynamic"] }
sherpa-onnx = "=2.0.1"
async-trait = "=0.1.92"
futures-util = "=0.3.34"
tokio = { version = "=1.54.1", features = ["fs", "io-util", "rt", "macros"] }
reqwest = { version = "=0.12.28", default-features = false, features = ["stream"] }
