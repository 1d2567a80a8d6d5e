[package]
name = "ailly"
version = "0.1.0"
edition = "2021"
publish = false

[dependencies]
anyhow = "=1.0.104"
async-trait = "=0.1.92"
chrono = "=0.4.45"
clap = { version = "=4.6.7", features = ["derive"] }
globset = "=0.4.21"
regex = "=1.13.1"
serde = { version = "=1.0.229", features = ["derive"] }
serde_json = "=1.0.154"
serde_json_path = "=0.7.2"
serde_yaml_ng = "=0.10.0"
serde_yml = "=0.0.13"
shlex = "=1.3.0"
thiserror = "=2.0.21"
tokio = { version = "=1.54.1", features = ["rt", "macros", "process", "time", "io-util", "sync"] }
toml = "=1.1.8"
url = "=2.5.8"
vfs = "=0.13.0"
