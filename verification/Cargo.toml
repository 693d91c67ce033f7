[package]
name = "inferno_aoip"
version = "0.5.0"
edition = "2021"
publish = false

[dependencies]
atomic = "0.6"
atomicbox = "0.4"
bool_vec = "*"
bytebuffer = "2"
bytemuck = "1"
clap = { version = "4", features = ["derive"] }
clock-steering = "*"
env_logger = "0.11"
futures = "0.3"
hex = "0.4"
itertools = "*"
libc = "0.2"
local-ip-address = "*"
log = "0.4"
mio = { version = "1", features = ["net", "os-poll"] }
platform-dirs = "*"
rand = { version = "0.8", features = ["small_rng"] }
serde = { version = "1", features = ["derive"] }
thiserror = "1"
tokio = { version = "1", features = ["full"] }
toml = "0.8"
