[package]
name = "web_blocker"
version = "0.1.0"
edition = "2021"
publish = false

[dependencies]
chrono = "0.4"
uuid = { version = "1", features = ["v4"] }
dirs = "*"
ctrlc = "3"
tao = "*"
tray-icon = "*"
