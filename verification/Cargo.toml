[package]
name = "fontmodel"
version = "0.1.0"
edition = "2021"
publish = false

[dependencies]
ordered-float = { version = "=5.5.0", features = ["serde"] }
serde = { version = "=1.0.229", features = ["derive"] }
thiserror = "=1.0.69"
log = "=0.4.34"
syn = { version = "=3.0.9", features = ["full"] }
quote = "=1.0.47"
proc-macro2 = "=1.0.107"
darling = "=0.24.1"

[dev-dependencies]
kurbo = "=0.13.1"
