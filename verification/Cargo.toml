[package]
name = "mcget"
version = "0.1.0"
edition = "2021"
publish = false

[dependencies]
rustc-hash = "2"
urlencoding = "2"
smallvec = "1"
chrono = { version = "0.4", features = ["serde"] }
serde = { version = "1", features = ["derive"] }
serde_yaml = "0.9"
tokio = { version = "1", features = ["full"] }
reqwest = { version = "0.11", features = ["json", "stream"] }
futures-util = "0.3"
clap = { version = "4", features = ["derive"] }
colored = "2"
indicatif = "0.17"
termsize = "0.1"
whoami = "1"
symlink = "0.1"
