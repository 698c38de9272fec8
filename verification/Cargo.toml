[package]
name = "cargo_rail_action"
version = "10.0.0"
edition = "2021"
publish = false

[dependencies]
clap = { version = "=4.6.7", features = ["derive"] }
jsonschema = { version = "=0.60.2", default-features = false }
rscrypto = { version = "=0.7.8", features = ["sha2"] }
semver = "=1.0.28"
serde = { version = "=1.0.229", features = ["derive"] }
serde_json = "=1.0.154"
serde-saphyr = "=2.0.0"
zip = { version = "=9.2.2", default-features = false, features = ["deflate"] }
