[package]
name = "meow"
version = "0.1.0"
edition = "2021"
publish = false

[dependencies]
axum = "*"
bytes = "*"
chrono = "*"
clap = { version = "*", features = ["derive"] }
hickory-proto = "*"
httparse = "*"
lru = "*"
md5 = "*"
notify = "*"
rand = "*"
rcgen = "*"
regex = "*"
reqwest = { version = "*", default-features = false }
rustls = { version = "*", default-features = false, features = ["ring", "std", "tls12"] }
rustls-pemfile = "*"
serde = { version = "*", features = ["derive"] }
serde_json = "*"
serde_yaml = "*"
sha2 = "*"
smallvec = "*"
socket2 = { version = "*", features = ["all"] }
time = { version = "*", features = ["formatting"] }
tokio = { version = "*", features = ["full"] }
tokio-rustls = { version = "*", default-features = false, features = ["ring", "tls12"] }
tracing = "*"
tracing-subscriber = "*"
trust-dns-resolver = "*"
url = "*"
x509-parser = "*"
zip = { version = "*", default-features = false, features = ["deflate"] }
