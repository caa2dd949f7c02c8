[package]
name = "brouter_client"
version = "0.1.0"
edition = "2021"
publish = false

[dependencies]
gpx = "*"
geo-types = "*"
reqwest = { version = "*", default-features = false, features = ["blocking", "json"] }
serde = { version = "*", features = ["derive"] }
zip = { version = "*", default-features = false, features = ["deflate"] }
xdg = "*"
clap = { version = "*", features = ["derive"] }
