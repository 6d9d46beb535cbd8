[package]
name = "silent_speaker"
version = "0.1.0"
edition = "2021"
publish = false

[dependencies]
ring = "0.17"
reed-solomon-erasure = "6"
twox-hash = "*"
uuid = { version = "1", features = ["v4"] }
prost = "*"
thiserror = "*"
tracing = "0.1"
tracing-subscriber = { version = "0.3", features = ["env-filter"] }
hex = "0.4"
mio = { version = "*", features = ["net", "os-poll"] }
quiche = "*"
url = "2"
