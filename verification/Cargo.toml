[package]
name = "ruget"
version = "0.1.0"
edition = "2021"
publish = false

[dependencies]
async-std = "=1.13.2"
bytecount = "=0.6.9"
clap = { version = "=4.6.7", features = ["derive"] }
config = { version = "=0.15.27", default-features = false }
directories = "=6.0.0"
kdl = "=6.7.1"
miette = { version = "=7.6.0", default-features = false }
serde = { version = "=1.0.229", features = ["derive"] }
serde_json = "=1.0.154"
surf = { version = "=2.3.2", default-features = false, features = ["h1-client-rustls"] }
thiserror = "=2.0.21"
