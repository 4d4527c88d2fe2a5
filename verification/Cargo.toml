[package]
name = "dango"
version = "0.1.0"
edition = "2021"
publish = false

[dependencies]
rand = "=0.8.8"
byteorder = "=1.5.0"
http = "=0.2.12"
nanoid = "=0.2.0"
naia-socket-shared = "=0.4.2"
log = "=0.4.35"
smol = "=1.3.0"
futures-util = "=0.3.34"
futures-core = "=0.3.34"
futures-channel = "=0.3.34"
async-dup = "=1.2.4"
actix = "=0.10.0"
actix-web = "=3.3.3"
actix-web-actors = "=3.0.0"
actix-cors = "=0.5.4"
tokio = { version = "=0.2.25", features = ["sync"] }
local_ipaddress = "=0.1.3"
simple_logger = "=1.16.0"
js-sys = "0.3"
