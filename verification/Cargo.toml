[package]
name = "sapper"
version = "0.1.0"
edition = "2021"
publish = false

[dependencies]
num_cpus = "*"
hyper = { version = "0.14", features = ["full"] }
tokio = { version = "1", features = ["full"] }
conduit-mime-types = "*"
