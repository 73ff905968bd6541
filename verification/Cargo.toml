[package]
name = "working_copy"
version = "0.1.0"
edition = "2021"
publish = false

[dependencies]
async-trait = "=0.1.92"
bstr = "=1.13.1"
clap = { version = "=4.6.7", features = ["derive"] }
either = "=1.19.0"
futures = "=0.3.34"
gix-attributes = "=0.26.1"
itertools = "=0.14.0"
kstring = "=2.0.2"
pollster = "=0.4.0"
prost = "=0.14.4"
rayon = "=1.12.0"
serde = { version = "=1.0.229", features = ["derive"] }
tempfile = "=3.27.0"
thiserror = "=2.0.21"
tokio = { version = "=1.54.1", features = ["rt-multi-thread", "macros", "process", "sync", "time", "io-util"] }
tracing = "=0.1.44"
