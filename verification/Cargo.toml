[package]
name = "sol_li_ni"
version = "0.1.0"
edition = "2021"
publish = false

[dependencies]
anyhow = "1"
async-trait = "0.1"
axum = "*"
base64 = "0.22"
bytes = "1"
dotenvy = "0.15"
eventsource-stream = "0.2"
futures-util = "0.3"
opus-rs = "*"
rand = "*"
reqwest = { version = "*", default-features = false, features = ["json", "stream", "http2", "rustls-no-provider"] }
rtc = "*"
rustls = { version = "0.23", default-features = false, features = ["ring", "std", "tls12"] }
serde = { version = "1", features = ["derive"] }
serde_json = "1"
tokio = { version = "1", features = ["macros", "rt-multi-thread", "net", "sync", "time", "signal", "fs"] }
tokio-tungstenite = { version = "*", features = ["rustls-tls-webpki-roots"] }
tracing = "0.1"
tracing-subscriber = "0.3"
webrtc = "*"
