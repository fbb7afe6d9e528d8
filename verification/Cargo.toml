[package]
name = "stacks_atlas_signer"
version = "0.1.0"
edition = "2021"
publish = false

[dependencies]
url = "2"
rand = "0.8"
sha2 = "0.10"
ripemd = "0.1"
hashbrown = "0.14"
tiny_http = "0.12"
serde = { version = "1", features = ["derive"] }
serde_json = "1"
backoff = "0.4"
