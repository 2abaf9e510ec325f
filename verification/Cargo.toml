[package]
name = "cianticblog"
version = "0.1.0"
edition = "2021"
publish = false

[dependencies]
async-std = { version = "1", features = ["attributes", "unstable"] }
chrono = { version = "0.4", features = ["serde"] }
derive_more = "0.99"
diesel = { version = "1.4", features = ["sqlite", "r2d2", "chrono"] }
diesel_migrations = "1.4"
futures = "0.3"
glob = "0.3"
normpath = "*"
pulldown-cmark = { version = "0.8", default-features = false }
r2d2 = "0.8"
regex = "1"
render = "*"
serde = { version = "1", features = ["derive"] }
serde_yaml = "0.8"
url = { version = "2", features = ["serde"] }
uuid = { version = "0.8", features = ["v4", "serde"] }
