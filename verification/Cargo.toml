[package]
name = "csv_render"
version = "0.1.0"
edition = "2021"
publish = false

[dependencies]
csv = "1"
sha2 = "0.10"
hex = "0.4"
pathdiff = "0.2"
serde = { version = "1", features = ["derive"] }
serde_json = "1"
serde_yaml = "0.9"
toml = "0.8"
clap = { version = "4", features = ["derive"] }
globwalk = "0.9"
thiserror = "1"
tracing = "0.1"
