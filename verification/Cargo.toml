[package]
name = "ros_flake"
version = "0.1.0"
edition = "2021"
publish = false

[dependencies]
lru = { version = "=0.19.0", default-features = false }
users = "=0.11.0"
thiserror = "=2.0.21"
