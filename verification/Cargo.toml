[package]
name = "quiz_game_rust"
version = "0.1.0"
edition = "2021"
publish = false

[dependencies]
jsonwebtoken = { version = "=11.1.0", default-features = false, features = ["rust_crypto"] }
rand = "=0.10.3"
uuid = { version = "=1.27.0", features = ["v4"] }
chrono = "=0.4.45"
serde = { version = "*", features = ["derive"] }
serde_json = "*"
tokio = { version = "*", features = ["net", "rt-multi-thread", "macros", "io-util", "time"] }
tungstenite = "*"
tokio-tungstenite = "*"
futures-channel = "*"
futures-util = "*"
futures-timer = "*"
log = "*"
log4rs = "*"
