[package]
name = "mutemaanpa_lib"
version = "0.1.0"
edition = "2021"
publish = false

[dependencies]
fluent-bundle = "*"
unic-langid = "*"
intl-memoizer = "*"
assets_manager = { version = "*", features = ["hot-reloading", "yaml"] }
serde = { version = "*", features = ["derive"] }
serde_yaml = "*"
serde-lexpr = "*"
anyhow = "*"
once_cell = "*"
tracing = "*"
tracing-subscriber = "*"
