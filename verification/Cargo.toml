[package]
name = "tf2_rs"
version = "0.1.0"
edition = "2021"
publish = false

[dependencies]
thiserror = "1"
rclrs = "0.4"
