[package]
name = "baker"
version = "0.1.0"
edition = "2021"
publish = false

[dependencies]
aes = "0.8"
eax = "0.5"
rand_core = "0.6"
sha2 = "0.10"
chrono = "0.4"
serde_json = "1"
ureq = { version = "2", default-features = false }
