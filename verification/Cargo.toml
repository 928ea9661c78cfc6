[package]
name = "openlcd"
version = "0.1.0"
edition = "2021"
publish = false

[dependencies]
ab_glyph = "=0.2.32"
anyhow = "=1.0.104"
chrono = "=0.4.45"
hex = "=0.4.3"
image = { version = "=0.25.10", default-features = false, features = ["jpeg", "png"] }
imageproc = { version = "=0.27.0", default-features = false, features = ["text"] }
serde = { version = "=1.0.229", features = ["derive"] }
serde_json = "=1.0.154"
serialport = { version = "=4.10.1", default-features = false }
sysinfo = { version = "=0.40.1", default-features = false, features = ["system", "network"] }
thiserror = "=2.0.21"
