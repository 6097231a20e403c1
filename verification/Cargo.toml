[package]
name = "scp_script_anthology"
version = "0.3.0"
edition = "2021"
publish = false

[dependencies]
chrono = "0.4"
regex = "1"
scraper = "*"
serde = { version = "1", features = ["derive"] }
serde_json = "1"
serde_yaml = "0.9"
clap = { version = "4", features = ["derive"] }
clio = { version = "0.3", features = ["clap-parse"] }
reqwest = { version = "0.12", default-features = false, features = ["json", "rustls-tls"] }
tokio = { version = "1", features = ["rt-multi-thread", "macros", "time"] }
tokio-stream = "0.1"
futures-util = "0.3"
chromiumoxide = { version = "0.7", default-features = false, features = ["tokio-runtime"] }
rpassword = "7"
itertools = "*"
lazy_static = "1"
