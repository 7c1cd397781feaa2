[package]
name = "http_whatever"
version = "0.1.0"
edition = "2021"
publish = false

[dependencies]
http = "*"
snafu = "*"
