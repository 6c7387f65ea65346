[package]
name = "standaertha"
version = "0.1.0"
edition = "2021"
publish = false

[dependencies]
anyhow = "=1.0.104"
clap = { version = "=4.6.7", features = ["derive", "env"] }
crc = "=3.4.0"
crc16 = "=0.4.0"
crossbeam = "=0.8.5"
ctrlc = "=3.5.2"
deser-hjson = "=2.2.6"
env_logger = "=0.11.11"
futures = "=0.3.34"
log = "=0.4.34"
pretty_env_logger = "=0.5.0"
regex = "=1.13.1"
rumqttc = { version = "=0.25.1", features = ["url"] }
serde = { version = "=1.0.229", features = ["derive"] }
serde_json = "=1.0.154"
serde_millis = "=0.1.1"
serde_with = "=3.24.0"
serialport = { version = "=4.10.1", default-features = false }
slip-codec = { version = "=0.4.0", features = ["tokio-codec"] }
thiserror = "=2.0.21"
tokio = { version = "=1.54.1", features = ["full"] }
tokio-serial = { version = "=5.5.0", default-features = false }
tokio-util = { version = "=0.7.20", features = ["codec"] }
toml = "=1.1.8"
