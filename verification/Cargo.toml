[package]
name = "wsrx"
version = "0.1.0"
edition = "2021"
publish = false

[dependencies]
axum = { version = "=0.8.9", features = ["ws", "macros"] }
clap = { version = "=4.6.7", features = ["derive", "env"] }
futures-util = { version = "=0.3.34", features = ["sink"] }
rand = "=0.9.5"
rustls = { version = "=0.23.46", features = ["aws_lc_rs", "ring"] }
serde = { version = "=1.0.229", features = ["derive"] }
serde_json = "=1.0.154"
subtle = "=2.6.1"
tokio = { version = "=1.54.1", features = ["full"] }
tokio-tungstenite = { version = "=0.30.0", features = ["rustls-tls-webpki-roots"] }
tokio-util = "=0.7.20"
tower-http = { version = "=0.6.11", features = ["trace"] }
tracing = "=0.1.44"
tracing-subscriber = { version = "=0.3.23", features = ["json"] }
url = "=2.5.8"
