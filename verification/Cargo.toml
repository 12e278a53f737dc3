[package]
name = "anweb"
version = "0.1.0"
edition = "2021"
publish = false

[dependencies]
percent-encoding = "=2.3.2"
sha1 = "=0.11.0"
base64 = "=0.23.1"
mio = { version = "=1.2.4", features = ["net", "os-poll"] }
rustls = "=0.23.45"
slab = "=0.4.12"
num_cpus = "=1.17.0"
chrono = "=0.4.45"
