[package]
name = "rig_llama_cpp"
version = "0.1.0"
edition = "2021"
publish = false

[dependencies]
base64 = "=0.22.1"
encoding_rs = "=0.8.44"
llama-cpp-2 = { version = "=0.1.146", features = ["mtmd"] }
llama-cpp-sys-2 = "=0.1.146"
log = "=0.4.35"
rig-core = { version = "=0.37.0", default-features = false }
schemars = "=1.2.3"
serde = { version = "=1.0.229", features = ["derive"] }
serde_json = "=1.0.154"
tokio = { version = "=1.54.1", features = ["sync", "rt"] }
