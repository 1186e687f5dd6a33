[package]
name = "irc_socket"
version = "0.1.0"
edition = "2021"
publish = false

[dependencies]
native-tls = "0.2"
serde = { version = "1", features = ["derive"] }
tauri = { version = "2", default-features = false }
tokio = { version = "1", features = ["io-util", "macros", "net", "rt", "sync"] }
tokio-native-tls = "0.3"
