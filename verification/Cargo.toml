[package]
name = "immutable_json"
version = "0.1.0"
edition = "2021"
publish = false

[dependencies]
imbl = "*"
serde_json = "*"
json-patch = "*"
jaq-core = "*"
jaq-std = "*"
jaq-json = "*"
bytes = "*"
chrono = "*"
bson = { version = "2", features = ["chrono-0_4"] }
take-until = "*"
