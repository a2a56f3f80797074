[package]
name = "transfer_plan"
version = "1.0.0"
edition = "2021"
publish = false

[dependencies]
anyhow = "=1.0.104"
colored = "=3.1.1"
crossbeam = "=0.8.5"
cyme = "=3.0.2"
indicatif = "=0.18.6"
libc = "=0.2.191"
nix = { version = "=0.31.3", features = ["fs", "zerocopy"] }
notify = "=8.2.1"
once_cell = "=1.21.4"
parking_lot = "=0.13.0"
procfs = "=0.18.0"
rustyline = { version = "=15.0.0", features = ["derive", "with-fuzzy"] }
serde = { version = "=1.0.229", features = ["derive"] }
serde_json = "=1.0.154"
sha2 = "=0.11.1"
shellexpand = "=3.1.2"
tokio = { version = "=1.54.1", features = ["macros", "rt-multi-thread", "signal", "sync", "time"] }
tracing = "=0.1.44"
tracing-subscriber = { version = "=0.3.23", features = ["env-filter", "fmt"] }
walkdir = "=2.5.0"
