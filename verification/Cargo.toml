[package]
name = "biobridge"
version = "0.1.0"
edition = "2021"
publish = false

[dependencies]
tokio = { version = "*", features = ["rt-multi-thread", "sync", "macros", "process", "time", "io-util"] }
futures = "*"
btleplug = "*"
serialport = { version = "*", default-features = false }
serde = { version = "*", features = ["derive"] }
uuid = "*"
