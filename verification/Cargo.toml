[package]
name = "netsweep"
version = "0.1.0"
edition = "2021"
publish = false

[dependencies]
ipnet = "=2.12.2"
clap = { version = "=4.6.7", features = ["derive"] }
futures = "=0.3.34"
local-ip-address = "=0.6.13"
netdev = "=0.40.1"
netscan = "=0.30.0"
sudo = "=0.6.0"
tokio = { version = "=1.54.1", features = ["full"] }
