[package]
name = "dimmer"
version = "0.1.0"
edition = "2021"
publish = false

[dependencies]
anyhow = "1"
glob = "0.3"
humantime = "2"
structopt = "0.3"
thiserror = "1"
xdg = "2"
