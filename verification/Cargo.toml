[package]
name = "everygarf"
version = "2.0.0"
edition = "2021"
publish = false

[dependencies]
chrono = "0.4"
clap = { version = "4", features = ["derive"] }
dirs-next = "2"
fs_extra = "1"
human_bytes = "0.4"
humantime = "2"
image = { version = "0.24", default-features = false, features = ["png", "jpeg", "gif"] }
notify-rust = "4"
num_cpus = "1"
reqwest = { version = "0.11", default-features = false, features = ["blocking", "rustls-tls"] }
