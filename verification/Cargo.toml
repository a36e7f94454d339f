[package]
name = "hydrogen_i18n"
version = "0.1.0"
edition = "2021"
publish = false

[dependencies]
serde_json = "=1.0.151"
toml = "=1.1.6"
tokio = { version = "=1.53.2", features = ["fs", "io-util", "rt", "sync"] }
serenity = { version = "=0.12.5", default-features = false, features = ["builder"] }
simd-json = "=0.18.1"
