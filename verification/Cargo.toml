[package]
name = "storage_chain_index"
version = "0.1.0"
edition = "2021"
publish = false

[dependencies]
cid = "=0.11.3"
clap = { version = "4", default-features = false, features = ["derive", "error-context", "help", "std", "usage"] }
futures = { version = "0.3", default-features = false, features = ["async-await", "std"] }
futures-timer = "3"
log = "0.4"
parity-scale-codec = { version = "=3.7.5", features = ["derive"] }
prost = "=0.13.5"
scale-info = { version = "2", features = ["derive"] }
sp-core = "=43.0.0"
sp-database = "=10.0.2"
sp-runtime = "=49.0.0"
unsigned-varint = "=0.8.0"
