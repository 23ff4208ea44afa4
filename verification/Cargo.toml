[package]
name = "ruuvitag_upload"
version = "0.1.0"
edition = "2021"
publish = false

[dependencies]
ruuvi-sensor-protocol = "*"
serde = { version = "*", features = ["derive"] }
serde_json = "*"
reqwest = { version = "*", default-features = false, features = ["blocking", "json"] }
docopt = "*"
directories = "*"
rumble = "*"
