[package]
name = "oxc_node"
version = "0.1.0"
edition = "2021"
publish = false

[dependencies]
memchr = "=2.8.3"
simdutf8 = "=0.1.5"
idna = "=1.1.0"
serde_json = "=1.0.154"
oxc = { version = "=0.143.0", features = ["transformer", "semantic", "codegen"] }
oxc_resolver = "=11.24.3"
napi = "=3.2.4"
napi-derive = "=3.2.5"
tracing = "=0.1.44"
tracing-subscriber = "=0.3.23"
walrus = "=0.23.3"
