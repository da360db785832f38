[package]
name = "doomsday_rs"
version = "0.1.0"
edition = "2021"
publish = false

[dependencies]
axum = "0.7"
axum-extra = { version = "0.9", features = ["cookie"] }
base64 = "0.21"
bcrypt = "0.15"
chrono = "0.4"
clap = "4"
dashmap = "5"
dirs = "5"
hex = "0.4"
reqwest = { version = "0.11", default-features = false, features = ["json", "rustls-tls"] }
rpassword = "7"
rustls = "0.21"
serde = { version = "1", features = ["derive"] }
serde_json = "1"
serde_yaml = "0.9"
sha1 = "0.10"
sha2 = "0.10"
tabled = "0.15"
tokio = { version = "1", features = ["full"] }
tokio-rustls = "0.24"
tower = "0.4"
tower-http = { version = "0.5", features = ["cors", "trace"] }
url = "2"
urlencoding = "2"
uuid = { version = "1", features = ["v4"] }
webpki-roots = "0.25"
x509-parser = "0.16"
