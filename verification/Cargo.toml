[package]
name = "simcheck"
version = "0.1.0"
edition = "2021"
publish = false

[dependencies]
anyhow = "=1.0.104"
bpaf = { version = "=0.9.28", features = ["derive"] }
chardet = "=0.2.4"
eddie = "=0.4.2"
encoding_rs = "=0.8.42"
glob = "=0.3.4"
indicatif = "=0.18.6"
log = "=0.4.34"
owo-colors = "=4.4.0"
pretty_env_logger = "=0.5.0"
