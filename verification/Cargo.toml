[package]
name = "katsu"
version = "0.1.0"
edition = "2021"
publish = false

[dependencies]
quote = "=1.0.47"
rustc-hash = "=2.1.3"
smallvec = "=1.16.4"
syn = { version = "=3.0.9", features = ["full"] }
thiserror = "=2.0.21"
