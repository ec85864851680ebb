[package]
name = "pg_replication"
version = "0.1.0"
edition = "2021"
publish = false

[dependencies]
base64 = "*"
bytes = "1"
futures-core = "0.3"
hmac = "*"
pbkdf2 = "*"
rand = "*"
sha2 = "*"
