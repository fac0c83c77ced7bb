[package]
name = "port_manager"
version = "0.1.0"
edition = "2021"
publish = false

[dependencies]
listeners = "*"
sysinfo = { version = "0.33", default-features = false, features = ["system"] }
serde = { version = "1", features = ["derive"] }
