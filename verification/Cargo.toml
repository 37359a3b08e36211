[package]
name = "accord"
version = "0.1.0"
edition = "2021"
publish = false

[dependencies]
base64 = "0.13"
chacha20poly1305 = "0.9"
clap = { version = "3", features = ["derive"] }
log = "0.4"
rand = "0.8"
rand_chacha = "0.3"
rsa = "0.5"
serde = { version = "1", features = ["derive"] }
sha2 = "0.10"
tokio = { version = "1", features = ["rt-multi-thread", "net", "sync", "io-util", "macros", "time"] }
tokio-postgres = "0.7"
toml = "0.5"
