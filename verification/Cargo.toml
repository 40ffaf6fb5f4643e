[package]
name = "musical_key_cnn"
version = "0.1.0"
edition = "2021"
publish = false

[dependencies]
anyhow = "1"
beat-this = "*"
clap = { version = "4", features = ["derive"] }
realfft = "*"
rosa = "*"
rubato = "*"
serde = { version = "1", features = ["derive"] }
serde_json = "1"
symphonia = "*"
thiserror = "*"
tracing = "0.1"
tracing-subscriber = { version = "0.3", features = ["env-filter"] }
