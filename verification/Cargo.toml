[package]
name = "tarmac"
version = "0.1.0"
edition = "2021"
publish = false

[dependencies]
regex = "1"
serde = { version = "1", features = ["derive"] }
serde_json = "1"
mlua = { version = "0.10", features = ["lua54", "vendored"] }
dirs = "*"
ctrlc = "3"
tracing = "0.1"
tracing-subscriber = { version = "0.3", features = ["env-filter"] }
objc2 = "*"
objc2-foundation = "*"
objc2-app-kit = "*"
objc2-application-services = "*"
objc2-core-foundation = "*"
objc2-core-graphics = "*"
