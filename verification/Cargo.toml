[package]
name = "proxyzms"
version = "0.1.0"
edition = "2021"
publish = false

[dependencies]
urlencoding = "2"
serde = { version = "1", features = ["derive"] }
serde_json = "1"
dirs = "*"
reqwest = { version = "0.12", default-features = false, features = ["json", "rustls-tls", "stream"] }
tokio = { version = "1", features = ["rt-multi-thread", "macros", "time", "sync"] }
futures-util = "0.3"
flate2 = "1"
zip = { version = "*", default-features = false, features = ["deflate"] }
base64 = "0.22"
ctrlc = "3"
webbrowser = "*"
tokio-tungstenite = "*"
btleplug = "*"
image = { version = "0.25", default-features = false, features = ["png"] }
