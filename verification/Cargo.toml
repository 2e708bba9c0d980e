[package]
name = "autograder_rust"
version = "0.1.0"
edition = "2021"
publish = false

[dependencies]
clap = { version = "*", features = ["derive"] }
crossbeam-channel = "*"
csv = "*"
ctrlc = "*"
libc = "*"
rayon = "*"
reqwest = { version = "*", default-features = false, features = ["blocking", "json", "rustls-tls"] }
serde = { version = "*", features = ["derive"] }
serde_json = "*"
similar = "*"
toml = "*"
zip = { version = "*", default-features = false, features = ["deflate"] }
