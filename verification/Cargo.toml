[package]
name = "yaml_emit"
version = "0.1.0"
edition = "2021"

[dependencies]
snafu = "*"
