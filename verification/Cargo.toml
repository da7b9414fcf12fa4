[package]
name = "catgirl_parser"
version = "0.1.0"
edition = "2021"
publish = false

[dependencies]
sha2 = "=0.10.9"
strfmt = "=0.2.6"
fastrand = "=2.5.0"
chrono = "=0.4.45"
serde = "=1.0.229"
serde_derive = "=1.0.229"
serde_json = "=1.0.154"
tokio = { version = "=1.54.1", features = ["macros", "rt-multi-thread", "time", "fs", "sync", "io-util"] }
reqwest = { version = "=0.12.28", default-features = false, features = ["rustls-tls"] }
once_cell = "=1.21.4"
directories = "=5.0.1"
anyhow = "=1.0.104"
mlua = { version = "=0.10.5", features = ["lua54", "vendored", "serialize", "send"] }
