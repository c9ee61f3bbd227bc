[package]
name = "lre"
version = "0.1.0"
edition = "2021"
publish = false

[dependencies]
regress = { version = "*", features = ["utf16"] }
bitflags = "2"
thiserror = "*"

[dev-dependencies]
zerocopy = "0.8"
