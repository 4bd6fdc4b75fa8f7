[package]
name = "print_queue"
version = "0.1.0"
edition = "2021"
publish = false

[dependencies]
getopts = "=0.2.24"
openssl-probe = "=0.1.6"
reqwest = { version = "=0.10.10", features = ["blocking", "json"] }
serde = { version = "=1.0.229", features = ["derive"] }
slack = "=0.25.0"
