[package]
name = "tracing_toolbox"
version = "0.1.0"
edition = "2021"
publish = false

[dependencies]
id-arena = "=2.3.0"
tracing-core = "=0.1.36"
tracing = "=0.1.44"
tracing-subscriber = { version = "=0.3.23", features = ["registry", "fmt"] }
serde = { version = "=1.0.229", features = ["derive"] }
once_cell = "=1.21.4"
thread_local = "=1.1.10"
metrics = "=0.21.1"

[dev-dependencies]
serde_json = "=1.0.154"
