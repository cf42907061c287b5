[package]
name = "fest"
version = "0.1.0"
edition = "2021"
rust-version = "1.95"
publish = false

[dependencies]
ahash = "=0.8.12"
clap = { version = "=4.6.7", features = ["derive"] }
console = "=0.15.11"
glob = "=0.3.4"
indicatif = "=0.17.11"
rayon = "=1.12.0"
ruff_python_ast = "=0.0.6"
ruff_python_parser = "=0.0.6"
ruff_text_size = "=0.0.6"
rusqlite = { version = "=0.32.1", features = ["bundled"] }
serde = { version = "=1.0.229", features = ["derive"] }
serde_json = { version = "=1.0.154", features = ["preserve_order", "raw_value"] }
thiserror = "=2.0.21"
tokio = { version = "=1.54.1", features = ["full"] }
toml = "=0.8.23"

[dev-dependencies]
tempfile = "=3.27.0"
