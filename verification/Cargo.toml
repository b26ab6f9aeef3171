[package]
name = "actix-web"
version = "0.5.0"
edition = "2021"
publish = false

[dependencies]
regex = "1"
percent-encoding = "2"
byteorder = "1"
rand = "0.8"
http = "1"
bytes = "1"
futures-cpupool = "0.1"
