[package]
name = "tl_cli"
version = "0.1.0"
edition = "2021"
publish = false

[dependencies]
url = "=2.5.8"
crossbeam = "=0.8.5"
num_cpus = "=1.17.0"
serde = { version = "=1.0.229", features = ["derive"] }
serde_json = "=1.0.154"
serde_yaml = "=0.9.34"
clap = { version = "=4.6.7", features = ["derive"] }
tokio = { version = "=1.54.1", features = ["full"] }
dirs = "=7.0.0"
indicatif = "=0.18.6"
once_cell = "=1.21.4"
futures = "=0.3.34"
async-trait = "=0.1.92"
