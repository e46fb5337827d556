[package]
name = "genai_bench_rs"
version = "0.1.0"
edition = "2021"
publish = false

[dependencies]
anyhow = "1"
chrono = "0.4"
clap = { version = "4", features = ["derive", "env"] }
comfy-table = "7"
csv = "1"
ctrlc = "3"
futures = "0.3"
indicatif = "0.17"
plotters = { version = "0.3", default-features = false, features = ["svg_backend", "line_series"] }
rand = "0.9"
reqwest = { version = "0.12", default-features = false, features = ["stream", "rustls-tls"] }
serde = { version = "1", features = ["derive"] }
serde_json = "1"
tokenizers = { version = "0.21", features = ["http"] }
tokio = { version = "1", features = ["full"] }
