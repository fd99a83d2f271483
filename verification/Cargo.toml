[package]
name = "twitch_commands"
version = "0.1.0"
edition = "2021"
publish = false

[dependencies]
async-trait = "*"
chrono = "*"
curl = "*"
enigo = "*"
futures = "*"
log = "*"
rand = "*"
serde = { version = "*", features = ["derive"] }
serde_json = "*"
simplelog = "*"
tokio = { version = "*", features = ["full"] }
tokio-stream = "*"
tokio-tungstenite = "*"
toml = "*"
twitch_api2 = { version = "*", features = ["pubsub"] }
twitch-irc = "*"
url = "*"
