[package]
name = "turso-converge"
version = "0.1.0"
edition = "2021"

[dependencies]
blake3 = "1"
thiserror = "2"
tokio = { version = "1", features = ["rt-multi-thread", "macros", "fs"] }
tracing = "0.1"
turso = "0.6.0-pre.3"
