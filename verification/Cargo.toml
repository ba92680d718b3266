[package]
name = "concord"
version = "0.2.0"
edition = "2021"
publish = false

[dependencies]
sha2 = "0.10"
globset = "0.4"
similar = "2"
serde = { version = "1", features = ["derive"] }
serde_json = "1"
toml = "0.8"
clap = { version = "4", features = ["derive"] }
command-group = "5"
which = "6"
ignore = "0.4"
rayon = "1"
tempfile = "3"
