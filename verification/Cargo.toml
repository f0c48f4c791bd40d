[package]
name = "sheet-music-browsarr"
version = "0.1.0"
edition = "2021"
publish = false

[dependencies]
aes-gcm = "=0.10.3"
anyhow = "1"
argon2 = "=0.5.3"
async-trait = "0.1"
axum = "0.7"
base64 = "=0.22.1"
futures-util = "0.3"
hkdf = "=0.12.4"
html-escape = "=0.2.15"
lettre = { version = "=0.11.23", default-features = false, features = ["builder", "smtp-transport", "tokio1", "tokio1-rustls-tls"] }
md-5 = "=0.10.6"
moka = { version = "0.12", features = ["future"] }
printpdf = { version = "=0.9.1", default-features = false, features = ["png"] }
reqwest = { version = "0.12", default-features = false, features = ["cookies", "gzip", "json", "rustls-tls", "stream"] }
scraper = { version = "=0.20.0", default-features = false, features = ["deterministic"] }
serde = { version = "1", features = ["derive"] }
serde_json = "=1.0.154"
sha2 = "=0.10.9"
sqlx = { version = "0.8", default-features = false, features = ["runtime-tokio", "sqlite"] }
time = { version = "=0.3.55", features = ["formatting", "parsing"] }
tokio = { version = "1", features = ["fs", "io-util", "macros", "net", "rt-multi-thread", "signal", "sync", "time"] }
tower-http = { version = "0.6", features = ["compression-gzip", "trace"] }
tower-sessions = "0.13"
tower-sessions-sqlx-store = { version = "0.14", features = ["sqlite"] }
tracing = "0.1"
tracing-subscriber = { version = "0.3", features = ["env-filter", "json"] }
urlencoding = "=2.1.3"
