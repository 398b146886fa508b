[package]
name = "rustigc"
version = "0.1.0"
edition = "2021"
publish = false

[dependencies]
btoi = "=0.5.0"
clap = { version = "=4.6.7", features = ["derive"] }
env_logger = "=0.11.11"
geographiclib-rs = "=0.2.7"
geojson = "=1.0.0"
jiff = "=0.2.39"
log = "=0.4.35"
num-traits = "=0.2.19"
rstar = "=0.14.0"
rustc-hash = "=2.1.3"
serde = { version = "=1.0.229", features = ["derive"] }
serde_json = "=1.0.154"
smallvec = "=1.16.4"
utz = { version = "=0.4.1", features = ["std", "tiny"] }
