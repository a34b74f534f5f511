[package]
name = "dyn_wol"
version = "0.1.0"
edition = "2021"
publish = false

[dependencies]
argon2 = "0.5"
flexbuffers = "*"
rand = "0.8"
libp2p = { version = "*", features = ["tokio", "gossipsub", "mdns", "noise", "tcp", "yamux", "macros"] }
tokio = { version = "1", features = ["full"] }
kanal = "*"
futures = "*"
log = "*"
env_logger = { version = "*", default-features = false }
mac_address = { version = "*", features = ["serde"] }
sysinfo = "*"
wake-on-lan = "*"
serde = { version = "1", features = ["derive"] }
config = { version = "*", default-features = false, features = ["toml"] }
