[package]
name = "iris"
version = "0.1.0"
edition = "2021"
publish = false

[dependencies]
aes = "0.8"
anyhow = "1"
bitvec = "1"
byteorder = "1"
cpu-time = "1"
env_logger = "*"
hashlink = "*"
heck = "0.3"
libc = "0.2"
log = "0.4"
pcap = "*"
proc-macro2 = "1"
quote = "1"
serde = { version = "1", features = ["derive"] }
ssh-parser = "*"
syn = { version = "2", features = ["full"] }
thiserror = "1"
tls-parser = "*"

[dev-dependencies]
hex = "0.4"
