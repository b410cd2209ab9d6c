[package]
name = "stride_runner_domset"
version = "0.1.0"
edition = "2021"
publish = false

[dependencies]
rusqlite = "*"
priority-queue = "*"
rand = "*"
reqwest = { version = "*", default-features = false, features = ["json"] }
tokio = { version = "*", features = ["rt-multi-thread", "macros", "time", "process", "fs", "io-util", "sync"] }
serde = { version = "*", features = ["derive"] }
serde_json = "*"
uuid = { version = "*", features = ["v4"] }
chrono = "*"
structopt = "0.3"
console = "*"
indicatif = "*"
futures-util = "*"
signal-hook = "*"
libc = "*"
num_cpus = "*"

[dev-dependencies]
tempdir = "*"
