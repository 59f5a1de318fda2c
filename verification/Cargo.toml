[package]
name = "shaman"
version = "0.1.0"
edition = "2021"
publish = false

[dependencies]
shmem-ipc = "*"
serde = { version = "1", features = ["derive"] }
thiserror = "*"
mio = { version = "*", features = ["os-poll", "net", "os-ext"] }
sendfd = "*"
libc = "*"
log = "*"
dashmap = "*"
tokio = { version = "1", features = ["net", "macros", "rt", "io-util"] }
