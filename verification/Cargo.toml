[package]
name = "factorio_sensei"
version = "0.1.0"
edition = "2021"
publish = false

[dependencies]
anyhow = "=1.0.104"
clap = { version = "=4.6.7", features = ["derive", "env"] }
dirs = "=7.0.0"
dotenvy = "=0.15.7"
factorio-rcon = "=0.1.0"
indicatif = "=0.18.6"
reedline = "=0.52.1"
rig-core = "=0.44.0"
rig-reqwest = "=0.44.0"
serde = { version = "=1.0.229", features = ["derive"] }
serde_json = "=1.0.151"
termimad = "=0.35.5"
thiserror = "=2.0.21"
tokio = { version = "=1.53.2", features = ["rt-multi-thread", "macros", "time", "sync"] }
