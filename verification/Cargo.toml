[package]
name = "uboot_tool"
version = "0.1.0"
edition = "2021"
publish = false

[dependencies]
indexmap = "*"
fxhash = "*"
anyhow = "*"
tokio = { version = "*", features = ["full"] }
tokio-util = { version = "*", features = ["compat"] }
async-tftp = "*"
if-addrs = "*"
ipnetwork = "*"
structopt = "*"
paw = "*"
