[package]
name = "bvm"
version = "0.1.0"
edition = "2021"
publish = false

[dependencies]
regex = "=1.13.1"
clap = { version = "=4.6.7", features = ["derive"] }
directories = "=5.0.1"
dialoguer = "=0.11.0"
indicatif = "=0.17.11"
reqwest = { version = "=0.12.28", default-features = false, features = ["stream", "rustls-tls"] }
futures-util = "=0.3.34"
bytes = "=1.12.1"
octocrab = "=0.40.0"
zip = { version = "=9.2.2", default-features = false, features = ["deflate"] }
tinytemplate = "=1.2.1"
serde = { version = "=1.0.229", features = ["derive"] }
lazy_static = "=1.5.1"
