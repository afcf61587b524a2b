[package]
name = "fornet_lib"
version = "0.1.0"
edition = "2021"
publish = false

[dependencies]
base64 = "=0.21.7"
x25519-dalek = "=2.0.0-rc.3"
boringtun = "=0.6.0"
ed25519-compact = "=2.6.0"
rand = "=0.8.8"
serde = { version = "=1.0.229", features = ["derive"] }
serde_json = "=1.0.154"
anyhow = "=1.0.104"
clap = { version = "=3.2.25", features = ["env"] }
tokio = { version = "=1.54.1", features = ["full"] }
tracing = "=0.1.44"
tracing-subscriber = { version = "=0.3.23", features = ["env-filter"] }
shell-candy = "=0.4.0"
cmd_lib = "=1.9.6"
url = "=2.5.8"
libc = "=0.2.191"
dirs = "=5.0.1"
tun = { version = "0.6", features = ["async"] }
