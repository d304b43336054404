[package]
name = "proto"
version = "0.1.0"
edition = "2021"
publish = false

[dependencies]
md5 = "*"
sha1 = "*"
sha256 = "*"
ring = "*"
tokio = { version = "1", features = ["rt", "rt-multi-thread", "net", "io-util", "sync", "time", "macros"] }
ldap3 = { version = "*", default-features = false, features = ["sync"] }
