[package]
name = "weighted-code-coverage"
version = "0.3.0"
edition = "2021"
publish = false

[dependencies]
cargo_metadata = "*"
clap = { version = "4", features = ["derive"] }
crossbeam = "0.8"
minijinja = "1"
rayon = "1"
rust-code-analysis = "*"
serde = { version = "1", features = ["derive"] }
serde_json = "1"
thiserror = "1"
tracing = "0.1"
tracing-subscriber = { version = "0.3", features = ["env-filter"] }
