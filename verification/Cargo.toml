[package]
name = "wasmtime_run"
version = "0.1.0"
edition = "2021"
publish = false

[dependencies]
anyhow = "=1.0.104"
clap = { version = "=4.6.7", features = ["derive"] }
humantime = "=2.4.0"
listenfd = "=1.0.2"
wasm-encoder = "=0.32.0"
wasmparser = "=0.112.0"
wasmtime = { version = "=13.0.1", features = ["component-model"] }
wasmtime-cli-flags = { version = "=13.0.1", features = ["component-model"] }
wasmtime-runtime = "=13.0.1"
wasmtime-wasi = { version = "=13.0.1", features = ["exit"] }
wasmtime-wasi-nn = "=13.0.1"
wasmtime-wasi-threads = "=13.0.1"
wat = "=1.263.0"
