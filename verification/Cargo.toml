[package]
name = "netom"
version = "0.1.0"
edition = "2021"
publish = false

[dependencies]
axum = "=0.7.9"
bytes = "=1.12.1"
chrono = "=0.4.45"
clap = { version = "=4.6.7", features = ["cargo"] }
dashmap = "=6.2.1"
fs2 = "=0.4.3"
futures = "=0.3.34"
inetnum = "=0.1.1"
lz4_flex = "=0.11.6"
octseq = "=0.5.2"
reqwest = { version = "=0.12.28", default-features = false, features = ["rustls-tls", "stream"] }
routecore = { version = "=0.7.2", features = ["fsm"] }
rustls = { version = "=0.23.46", default-features = false, features = ["ring", "std", "tls12"] }
rustls-pemfile = "=2.2.0"
rustyline = "=14.0.0"
serde = { version = "=1.0.229", features = ["derive"] }
serde_json = "=1.0.154"
sha2 = "=0.10.9"
socket2 = "=0.5.10"
tokio = { version = "=1.54.1", features = ["full"] }
tokio-rustls = { version = "=0.26.6", default-features = false, features = ["ring", "tls12"] }
toml = "=0.9.8"
uuid = { version = "=1.29.0", features = ["v4"] }
webpki-roots = "=0.26.11"
