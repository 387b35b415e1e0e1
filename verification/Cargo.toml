[package]
name = "baldej"
version = "0.1.0"
edition = "2021"
publish = false

[dependencies]
machineid-rs = "1.2"
clap = { version = "4", features = ["derive"] }
serde = { version = "1", features = ["derive"] }
serde_json = "1"
serde_bare = "0.5"
renet = { version = "0.0.15", features = ["transport"] }
