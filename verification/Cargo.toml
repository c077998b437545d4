[package]
name = "punpun"
version = "0.1.0"
edition = "2021"
publish = false

[dependencies]
sha1 = "=0.2.0"
rustc-serialize = "=0.3.25"
byteorder = "=0.4.2"
slab = "=0.1.3"
mio = { version = "=1.2.4", features = ["os-poll", "net"] }
log = "=0.4.35"
env_logger = "=0.11.11"
fern = "=0.7.1"
time = "=0.3.55"
redis = { version = "=1.8.1", default-features = false }
