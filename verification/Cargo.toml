[package]
name = "sinowealth_kb_tool"
version = "0.1.0"
edition = "2021"
publish = false

[dependencies]
clap = "*"
clap-num = "*"
dialoguer = "*"
hidapi = "*"
indicatif = "*"
log = "*"
md5 = "*"
simple_logger = "*"
