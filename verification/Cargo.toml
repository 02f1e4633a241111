[package]
name = "fastproto"
version = "0.1.0"
edition = "2021"
publish = false

[dependencies]
aes-gcm = "0.10"
chacha20poly1305 = "0.10"
rand = "0.8"
zstd = "*"
lz4 = "*"
tokio = { version = "1", features = ["net", "rt", "rt-multi-thread", "sync", "time"] }
async-trait = "0.1"
serde = { version = "1", features = ["derive"] }
serde_json = "1"
