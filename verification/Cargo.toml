[package]
name = "my_calculator"
version = "0.1.0"
edition = "2021"
publish = false

[dependencies]
anyhow = "=1.0.104"
bigdecimal = "=0.2.2"
clap = { version = "=4.6.7", features = ["derive"] }
thiserror = "=1.0.69"
