[package]
name = "atc_engine"
version = "0.1.0"
edition = "2021"
publish = false

[dependencies]
async-openai = { version = "=0.42.2", features = ["chat-completion"] }
glam = { version = "=0.34.1", features = ["serde"] }
internment = "=0.8.6"
itertools = "=0.15.0"
petgraph = "=0.8.3"
serde = { version = "=1.0.229", features = ["derive"] }
serde_json = "=1.0.154"
thiserror = "=2.0.21"
tracing = "=0.1.44"
turborand = "=0.10.1"
