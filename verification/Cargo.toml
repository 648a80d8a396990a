[package]
name = "adb_pairing_auth"
version = "0.1.0"
edition = "2021"
publish = false

[dependencies]
aes-gcm = "*"
anyhow = "*"
env_logger = "*"
hkdf = "*"
hostname = "*"
libc = "*"
log = "*"
mio = { version = "*", features = ["os-poll", "os-ext", "net"] }
num-bigint-dig = "*"
rand = "*"
rcgen = "*"
rsa = "*"
sha2 = "*"
spake2 = "*"
users = "*"
