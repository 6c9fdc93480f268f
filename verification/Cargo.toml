[package]
name = "charon"
version = "0.1.0"
edition = "2021"
publish = false

[dependencies]
regex = "=1.13.1"
stacker = "=0.1.25"
im = "=15.1.0"
hashlink = "=0.12.2"
itertools = "=0.15.0"
derive-visitor = "=0.4.0"
serde = { version = "=1.0.229", features = ["derive"] }
serde_json = "=1.0.154"
toml = "=1.1.8"
clap = { version = "=4.6.7", features = ["derive"] }
which = "=8.0.6"
tracing = "=0.1.44"
hax-frontend-exporter = { version = "=0.4.2", default-features = false }
