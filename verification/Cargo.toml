[package]
name = "sozu_lib"
version = "1.1.1"
edition = "2021"
publish = false

[dependencies]
anyhow = "1"
libc = "0.2"
mio = { version = "1", features = ["net", "os-ext", "os-poll"] }
rustls = { version = "0.23", default-features = false, features = ["std", "tls12"] }
rusty_ulid = "2"
sha2 = "0.10"
slab = "0.4"
socket2 = { version = "0.6", features = ["all"] }
thiserror = "2"
time = "0.3"
