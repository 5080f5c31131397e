[package]
name = "minidocker"
version = "0.1.0"
edition = "2021"
publish = false

[dependencies]
ipnetwork = "0.21"
rand = "0.10"
tokio = { version = "1", features = ["full"] }
rtnetlink = "*"
futures-util = "0.3"
libc = "0.2"
dotenv = "0.15"
