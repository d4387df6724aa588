[package]
name = "zip_download"
version = "0.1.0"
edition = "2021"
publish = false

[dependencies]
async-trait = "=0.1.92"
async_zip = { version = "=0.0.18", default-features = false, features = ["tokio", "deflate"] }
bytes = "=1.12.1"
futures = "=0.3.34"
http = "=1.5.0"
hyper = { version = "1", default-features = false }
matchit = "=0.9.2"
s3s = "0.13"
tokio = { version = "1", default-features = false, features = ["io-util", "rt"] }
tokio-util = { version = "0.7", features = ["io", "compat"] }
tracing = "=0.1.44"
url = "=2.5.8"

[dev-dependencies]
zip = { version = "=9.2.2", default-features = false, features = ["deflate"] }
