[package]
name = "contrax_server"
version = "0.1.0"
edition = "2021"
publish = false

[dependencies]
actix-web = "=4.18.1"
futures = "=0.3.34"
regex = "=1.13.1"
reqwest = { version = "=0.13.5", default-features = false, features = ["json"] }
serde = { version = "=1.0.229", features = ["derive"] }
serde-aux = "=4.7.0"
serde_json = "=1.0.154"
thiserror = "=2.0.21"
tokio = { version = "=1.54.1", features = ["sync", "macros", "rt-multi-thread"] }
validator = { version = "=0.21.0", features = ["derive"] }
wasmtime = "=47.0.4"
wasmtime-wasi = "=47.0.4"
