[package]
name = "protodef"
version = "0.1.0"
edition = "2021"
publish = false

[dependencies]
serde_json = { version = "1", features = ["preserve_order"] }
proc-macro2 = "1"
quote = "1"
indexmap = "1"
