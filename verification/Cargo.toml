[package]
name = "quicproxy"
version = "0.1.0"
edition = "2021"
publish = false

[dependencies]
aes-gcm = "=0.10.3"
anyhow = "=1.0.104"
axum = "=0.8.9"
chacha20poly1305 = "=0.10.1"
clap = { version = "=4.6.7", features = ["derive"] }
dashmap = "=6.2.1"
hashbrown = "=0.17.1"
hex = "=0.4.3"
ipnet = "=2.12.2"
maxminddb = "=0.32.0"
md-5 = "=0.10.6"
quinn = "=0.11.12"
rand = "=0.10.3"
rcgen = "=0.14.10"
redb = "=4.4.0"
rustls = { version = "=0.23.46", default-features = false, features = ["ring", "std", "tls12"] }
rustls-pemfile = "=2.2.0"
serde = { version = "=1.0.229", features = ["derive"] }
serde_json = "=1.0.154"
serde_json5 = "=0.2.1"
sha2 = "=0.10.9"
simple-dns = "=0.13.0"
sysinfo = "=0.40.1"
tokio = { version = "=1.54.1", features = ["full"] }
tokio-rustls = { version = "=0.26.6", default-features = false, features = ["ring", "tls12"] }
tokio-tungstenite = "=0.30.0"
tracing = "=0.1.44"
tracing-subscriber = { version = "=0.3.23", features = ["env-filter"] }
uuid = { version = "=1.29.0", features = ["v4"] }
webpki-roots = "1"
