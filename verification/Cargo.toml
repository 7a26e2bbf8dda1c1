[package]
name = "jwt_codec"
version = "0.1.0"
edition = "2021"
publish = false

[dependencies]
colored_json = "2"
derive_more = "0.99"
jsonwebtoken = "7"
serde = "1"
serde_json = "1"
structopt = "0.3"

[dev-dependencies]
base64 = "0.12"
