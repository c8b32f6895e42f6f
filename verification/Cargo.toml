[package]
name = "sateater"
version = "0.1.0"
edition = "2021"
publish = false

[dependencies]
rand = "=0.8.8"
hex = "=0.4.3"
base64 = "=0.13.1"
configparser = "=3.3.0"
lettre = { version = "=0.10.4", default-features = false, features = ["builder"] }
serde = { version = "=1.0.229", features = ["derive"] }
serde_json = "=1.0.154"
rocket = { version = "=0.5.2", features = ["json"] }
tokio = { version = "=1.54.1", default-features = false, features = ["macros", "rt-multi-thread"] }
futures-util = "=0.3.34"
rusoto_core = { version = "0.48", default-features = false, features = ["rustls"] }
rusoto_ses = { version = "0.48", default-features = false, features = ["rustls"] }
qrcode-generator = "4"
