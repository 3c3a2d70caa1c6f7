[package]
name = "duckdisk"
version = "0.6.2"
edition = "2021"
publish = false

[dependencies]
base64 = "=0.22.1"
keyring = { version = "2", default-features = false }
oauth2 = { version = "5", default-features = false, features = ["reqwest"] }
reqwest = { version = "=0.12.28", default-features = false, features = ["json"] }
semver = "=1.0.28"
serde = { version = "=1.0.229", features = ["derive"] }
serde_json = "=1.0.154"
ssh2 = "0.9"
sysinfo = { version = "0.29", default-features = false }
tokio = { version = "=1.54.1", features = ["rt-multi-thread", "macros", "time", "process", "io-util", "sync"] }
url = "=2.5.8"
