[package]
name = "finger_kernel"
version = "0.1.0"
edition = "2021"
publish = false

[dependencies]
serde_json = "*"
base64 = "*"
time = { version = "*", features = ["formatting"] }
serde = { version = "*", features = ["derive"] }
async-trait = "*"
tokio = { version = "*", features = ["rt-multi-thread", "macros", "sync", "time", "io-util", "io-std", "fs"] }
reqwest = { version = "*", default-features = false, features = ["json"] }
