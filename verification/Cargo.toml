[package]
name = "tuic_quinn"
version = "0.1.0"
edition = "2021"
publish = false

[dependencies]
bytes = "1"
futures-util = { version = "0.3.34", features = ["io"] }
quinn = { version = "=0.10.2", default-features = false, features = ["futures-io"] }
thiserror = "1"
