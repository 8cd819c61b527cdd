[package]
name = "koshelf"
version = "0.1.0"
edition = "2021"
publish = false

[dependencies]
ammonia = "=4.2.4"
anyhow = "=1.0.104"
base64 = "=0.22.1"
chrono = "=0.4.45"
chrono-tz = "=0.10.4"
md5 = "=0.7.0"
mlua = { version = "=0.10.5", features = ["lua54", "vendored"] }
quick-xml = "=0.42.0"
zip = { version = "2", default-features = false, features = ["deflate"] }
