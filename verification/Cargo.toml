[package]
name = "game_server"
version = "0.1.0"
edition = "2021"
publish = false

[dependencies]
boolinator = "=2.4.0"
byteorder = "=1.5.0"
chrono = "=0.4.45"
rand = "=0.4.6"
serde = "=1.0.229"
serde_derive = "=1.0.229"
serde_json = "=1.0.154"
toml = "=0.4.10"
futures = "=0.1.31"
futures-cpupool = "=0.1.8"
tokio-core = "=0.1.18"
websocket = { version = "=0.20.4", default-features = false, features = ["async"] }
slog = "=2.8.2"
slog-term = "=2.9.2"
slog-async = "=2.8.0"
iron = "=0.6.1"
mount = "=0.4.0"
staticfile = { version = "=0.5.0", features = ["cache"] }
