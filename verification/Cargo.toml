[package]
name = "hyperg"
version = "0.1.0"
edition = "2021"
publish = false

[dependencies]
sha2 = "0.10"
actix-web = { version = "4", default-features = false, features = ["macros"] }
serde = { version = "1", features = ["derive"] }
serde_json = "1"
structopt = "0.3"
failure = "0.1"
bincode = "1.3"
log = "0.4"
