[package]
name = "series_troxide"
version = "0.1.0"
edition = "2021"
publish = false

[dependencies]
bincode = "1.3"
clap = { version = "4", features = ["derive"] }
directories = "5"
sled = "0.34"
tracing = "0.1"
