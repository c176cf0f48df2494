[package]
name = "llm_worker"
version = "0.1.0"
edition = "2021"
publish = false

[dependencies]
anyhow = "1"
async-trait = "0.1"
base64 = "0.22"
bytes = "=1.12.1"
clap = { version = "4", features = ["derive", "env"] }
encoding_rs = "=0.8.44"
hf-hub = { version = "0.5", default-features = false, features = ["ureq"] }
http = "1"
llama-cpp-2 = "=0.1.160"
serde = { version = "1", features = ["derive"] }
serde_json = "=1.0.154"
tokio = { version = "1", features = ["macros", "rt-multi-thread", "signal", "sync", "time"] }
tracing = "0.1"
tracing-subscriber = { version = "0.3", features = ["env-filter"] }
