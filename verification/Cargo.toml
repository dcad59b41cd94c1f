[package]
name = "rusty_poly_bot"
version = "0.1.0"
edition = "2021"
publish = false

[dependencies]
alloy = { version = "*", default-features = false, features = ["std", "signer-local"] }
base64 = "*"
chrono = { version = "*", default-features = false, features = ["std", "now"] }
csv = "*"
dotenvy = "*"
futures-util = { version = "*", default-features = false, features = ["std"] }
hmac = "*"
reqwest = { version = "*", default-features = false, features = ["json", "rustls-tls"] }
serde = { version = "*", features = ["derive"] }
serde_json = "*"
sha2 = "*"
tokio = { version = "*", features = ["macros", "rt-multi-thread", "sync", "time"] }
tokio-tungstenite = { version = "*", default-features = false, features = ["connect", "rustls-tls-webpki-roots"] }
uuid = { version = "*", features = ["v4"] }
