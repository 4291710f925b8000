[package]
name = "send_file"
version = "0.1.0"
edition = "2021"
publish = false

[dependencies]
iron = "*"
hyper = "0.10"
conduit-mime-types = "*"
lazy_static = "*"
http-range = "*"
