[package]
name = "slatedb"
version = "0.1.0"
edition = "2021"
publish = false

[dependencies]
async-trait = "0.1"
bytes = "1"
fail-parallel = "*"
futures = "0.3"
hdrhistogram = "7"
log = "0.4"
parking_lot = "0.12"
rand = "0.9"
rand_distr = "0.5"
rand_xorshift = "0.4"
tokio = { version = "1", features = ["macros", "rt", "rt-multi-thread", "sync", "time"] }
tracing = "0.1"
