[package]
name = "soundseekers"
version = "0.1.0"
edition = "2021"
publish = false

[dependencies]
clap = "3.2"
midly = { version = "0.5", default-features = false, features = ["alloc", "std"] }
quickxml_to_serde = "*"
serde = { version = "1", features = ["derive"] }
serde_json = "1"
zip = { version = "0.6", default-features = false, features = ["deflate"] }
