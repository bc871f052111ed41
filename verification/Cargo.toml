[package]
name = "parcel_heap"
version = "0.1.0"
edition = "2021"
publish = false

[dependencies]
allocator-api2 = "0.2"
glob-match = "0.2"
indexmap = "2"
mockall = "0.12"
napi = "2"
napi-derive = "2"
oxc_resolver = "*"
pathdiff = "0.2"
serde = { version = "1", features = ["derive"] }
serde_json5 = "0.1"
