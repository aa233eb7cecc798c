[package]
name = "lokal"
version = "0.1.0"
edition = "2021"
publish = false

[dependencies]
half = "=2.7.1"
hf-hub = { version = "=1.0.0", features = ["blocking"] }
memmap2 = "=0.9.12"
metal = "=0.33.0"
objc2 = "=0.6.5"
objc2-core-ml = "=0.3.2"
objc2-foundation = "=0.3.2"
serde = { version = "=1.0.229", features = ["derive"] }
serde_json = "=1.0.154"
tokenizers = { version = "=0.23.2", default-features = false, features = ["onig"] }
tokio = { version = "=1.54.1", features = ["sync"] }
