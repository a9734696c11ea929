[package]
name = "punktf"
version = "0.1.0"
edition = "2021"
publish = false

[dependencies]
clap = { version = "4", features = ["derive", "env"] }
clap_complete = "4"
clap_mangen = "0.2"
color-eyre = "0.6"
console = "0.15"
env_logger = "0.10"
log = "0.4"
serde = { version = "1", features = ["derive"] }
serde_json = "1"
serde_yaml = "0.9"
similar = { version = "2", features = ["inline"] }
walkdir = "2"
cfg-if = "1"
thiserror = "1"
