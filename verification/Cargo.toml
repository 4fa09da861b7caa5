[package]
name = "caddy_pretty_print"
version = "0.1.0"
edition = "2021"
publish = false

[dependencies]
glob = "=0.3.4"
http = "=1.5.0"
time = { version = "=0.3.55", features = ["formatting"] }
colored = "=3.1.1"
terminal_size = "=0.4.4"
clap = { version = "=4.6.7", features = ["derive"] }
anyhow = "=1.0.104"

[dev-dependencies]
serde_json = "=1.0.151"
http-serde = "*"
serde_with = "*"
