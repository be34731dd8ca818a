[package]
name = "http_proxy_ipv6_pool"
version = "0.1.0"
edition = "2021"
publish = false

[dependencies]
cidr = "0.2"
getopts = "0.2"
rand = "0.8"
tokio = { version = "1", features = ["full"] }
