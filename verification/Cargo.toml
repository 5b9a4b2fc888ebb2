[package]
name = "tt_core"
version = "0.1.0"
edition = "2021"
publish = false

[dependencies]
ark-ff = "=0.5.0"
ark-piop = { version = "=0.1.0", features = ["test-utils"] }
ark-serialize = "=0.5.0"
ark-std = "=0.5.0"
arrow-schema = "=54.3.1"
bincode = "=1.3.3"
datafusion = { version = "=46.0.1", default-features = false }
datafusion-common = { version = "=46.0.1", default-features = false }
datafusion-expr = { version = "=46.0.1", default-features = false }
either = "=1.19.0"
indexmap = "=2.14.2"
serde = { version = "=1.0.229", features = ["derive"] }
serde_json = "=1.0.154"
tokio = { version = "=1.54.1", features = ["rt", "rt-multi-thread"] }
tracing = "=0.1.44"
