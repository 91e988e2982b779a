[package]
name = "zerowhats"
version = "0.1.0"
edition = "2021"
publish = false

[dependencies]
base64 = "0.22"
png = "0.17"
url = "2"
serde = { version = "1", features = ["derive"] }
serde_json = "1"
schemars = "*"
jsonschema = { version = "*", default-features = false }
log = "0.4"
arboard = "3"
notify-rust = "4"
ureq = "3"
