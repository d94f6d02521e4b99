[package]
name = "nucleus"
version = "0.1.0"
edition = "2021"
publish = false

[dependencies]
sha2 = "=0.10.9"
hmac = "=0.12.1"
argon2 = "=0.5.3"
chacha20poly1305 = "=0.10.1"
rand = "=0.9.5"
qbsdiff = "=1.4.4"
pdf-extract = "=0.12.1"
html2text = "=0.17.4"
calamine = "=0.38.0"
zip = { version = "=9.2.2", default-features = false, features = ["deflate"] }
redb = "=4.4.0"
bincode = { version = "=2.0.1", features = ["serde"] }
serde = { version = "=1.0.229", features = ["derive"] }
serde_json = "=1.0.154"
axum = "=0.8.9"
tokio = { version = "=1.54.1", features = ["rt-multi-thread", "macros", "net", "signal", "time", "sync"] }
hnsw_rs = "0.3"
ouroboros = "0.18"
tower-http = { version = "0.6", features = ["cors"] }
