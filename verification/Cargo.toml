[package]
name = "remacs"
version = "0.1.0"
edition = "2021"
publish = false

[dependencies]
sha1 = "0.6"
sha2 = "0.8"
md5 = "0.7"
rand = "0.4"
