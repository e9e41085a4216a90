[package]
name = "bookreview"
version = "0.1.0"
edition = "2021"
publish = false

[dependencies]
dotenvy = "=0.15.7"
futures-util = "=0.3.34"
mongodb = { version = "=3.9.1", default-features = false, features = ["compat-3-0-0", "rustls-tls"] }
opensearch = { version = "2", default-features = false }
rocket = { version = "=0.5.2", default-features = false }
rocket_cors = { version = "=0.6.0", default-features = false }
rocket_dyn_templates = { version = "=0.2.0", features = ["tera"] }
serde = { version = "=1.0.229", features = ["derive"] }
serde_json = "=1.0.154"
uuid = { version = "=1.29.0", features = ["v4"] }
