[package]
name = "artstyle"
version = "0.1.0"
edition = "2021"
publish = false

[dependencies]
clap = { version = "*", features = ["derive"] }
serde = { version = "*", features = ["derive"] }
serde_json = "*"
toml = "*"
schemars = "*"
jsonschema = { version = "*", default-features = false }

[dev-dependencies]
ansi_term = "*"
