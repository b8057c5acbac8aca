[package]
name = "bsc_core"
version = "0.1.0"
edition = "2021"
publish = false

[dependencies]
beanstalkc = "*"
clap = { version = "4", features = ["derive", "env"] }
serde = { version = "1", features = ["derive"] }
serde_json = "1"
serde_yaml = "0.9"
simple-eyre = "0.3"
thiserror = "1"
