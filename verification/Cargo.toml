[package]
name = "rustynzb"
version = "0.1.0"
edition = "2021"
publish = false

[dependencies]
quick-xml = "*"
nntp = "*"
rayon = "*"
env_logger = "*"
log = "*"

[dev-dependencies]
yenc = "*"
